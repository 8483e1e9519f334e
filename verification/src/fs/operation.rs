//! A call of the kernel as a machine that takes the answers of the database
//! one by one.
use vstd::prelude::*;

use crate::fs::tables::{Tables, World};
use crate::fs::types::{
    Action, ActionView, DbEvent, Event, EventView, FsAction, HostSpace, Reply, ReplyView, Stamp,
};

verus! {

/// A call under way. It is started with [`Event::Start`]; each action that it
/// hands out is performed, and what came back is handed in, until the action
/// is the reply.
pub trait Operation<'a>: View {
    /// Where the call stands after an event, and what it wants next.
    spec fn next(state: Self::V, event: EventView) -> (Self::V, ActionView);

    fn step(&mut self, event: DbEvent) -> (action: FsAction<'a>)
        ensures
            (final(self)@, action@) == Self::next(old(self)@, event@),
    ;
}

/// How a call ends on a database on which nothing goes wrong: the reply and
/// what the database then holds. `None` where `steps` actions do not suffice.
pub open spec fn run<'a, O: Operation<'a>>(
    state: O::V,
    event: EventView,
    world: World,
    steps: nat,
) -> Option<(ReplyView, World)>
    decreases steps,
{
    let (state2, action) = O::next(state, event);
    match action {
        Action::Reply(reply) => Some((reply, world)),
        _ => if steps == 0 {
            None
        } else {
            let (world2, event2) = world.perform(action);
            run::<O>(state2, event2, world2, (steps - 1) as nat)
        },
    }
}

/// Whether the call is answered with `reply` and leaves `after` of the
/// tables `before`, where nothing goes wrong.
pub open spec fn answers<'a, O: Operation<'a>>(
    state: O::V,
    before: Tables,
    now: Stamp,
    host: Option<HostSpace>,
    reply: ReplyView,
    after: Tables,
) -> bool {
    exists|steps: nat|
        ends_after::<O>(state, World::at_rest(before, now, host), steps, reply, after)
}

pub open spec fn ends_after<'a, O: Operation<'a>>(
    state: O::V,
    world: World,
    steps: nat,
    reply: ReplyView,
    after: Tables,
) -> bool {
    run::<O>(state, Event::Start, world, steps) matches Some(end) && end.0 == reply
        && end.1.committed == after
}

/// One step of a call that is not over.
pub proof fn lemma_step<'a, O: Operation<'a>>(
    state: O::V,
    event: EventView,
    world: World,
    steps: nat,
)
    requires
        steps > 0,
        !(O::next(state, event).1 is Reply),
    ensures
        ({
            let (state2, action) = O::next(state, event);
            let (world2, event2) = world.perform(action);
            run::<O>(state, event, world, steps) == run::<O>(
                state2,
                event2,
                world2,
                (steps - 1) as nat,
            )
        }),
{
}

/// More steps do not change how a call ends.
pub proof fn lemma_run_more<'a, O: Operation<'a>>(
    state: O::V,
    event: EventView,
    world: World,
    steps: nat,
    more: nat,
)
    requires
        run::<O>(state, event, world, steps) is Some,
        steps <= more,
    ensures
        run::<O>(state, event, world, more) == run::<O>(state, event, world, steps),
    decreases steps,
{
    let (state2, action) = O::next(state, event);
    if !(action is Reply) {
        let (world2, event2) = world.perform(action);
        lemma_run_more::<O>(
            state2,
            event2,
            world2,
            (steps - 1) as nat,
            (more - 1) as nat,
        );
    }
}

/// A call has one answer.
pub proof fn answer_is_unique<'a, O: Operation<'a>>(
    state: O::V,
    before: Tables,
    now: Stamp,
    host: Option<HostSpace>,
    reply1: ReplyView,
    after1: Tables,
    reply2: ReplyView,
    after2: Tables,
)
    requires
        answers::<O>(state, before, now, host, reply1, after1),
        answers::<O>(state, before, now, host, reply2, after2),
    ensures
        reply1 == reply2,
        after1 == after2,
{
    let world = World::at_rest(before, now, host);
    let n1 = choose|steps: nat| ends_after::<O>(state, world, steps, reply1, after1);
    let n2 = choose|steps: nat| ends_after::<O>(state, world, steps, reply2, after2);
    let n = if n1 < n2 {
        n2
    } else {
        n1
    };
    lemma_run_more::<O>(state, Event::Start, world, n1, n);
    lemma_run_more::<O>(state, Event::Start, world, n2, n);
}

} // verus!
