//! A database on which things go wrong.
use vstd::prelude::*;

use crate::fs::operation::Operation;
use crate::fs::tables::{Tables, World};
use crate::fs::types::{Action, ActionView, Event, EventView, ReplyView};

verus! {

/// What happens to one request. A change that fails leaves the transaction in
/// any state; a question that fails leaves it as it was.
pub enum Fault {
    /// All goes well.
    Done,
    Failed { left: Tables },
    DiskFull { left: Tables },
}

impl World {
    /// What the database does when it is asked for `action` and meets with
    /// `fault`.
    pub open spec fn perform_with(self, action: ActionView, fault: Fault) -> (World, EventView) {
        match fault {
            Fault::Done => self.perform(action),
            Fault::Failed { left } => (self.after_failure(action, left), Event::Failed),
            Fault::DiskFull { left } => (self.after_failure(action, left), Event::DiskFull),
        }
    }

    pub open spec fn after_failure(self, action: ActionView, left: Tables) -> World {
        match action {
            Action::Begin | Action::RemoveXattr { .. } | Action::Run(_) | Action::Insert(_) =>
                World { working: left, ..self },
            _ => self,
        }
    }
}

/// How far a call gets on such a database. The program may be cut off at any
/// point: it ends without a reply after as many requests as `faults` says
/// something about.
pub open spec fn run_with_faults<'a, O: Operation<'a>>(
    state: O::V,
    event: EventView,
    world: World,
    faults: Seq<Fault>,
) -> (Option<ReplyView>, World)
    decreases faults.len(),
{
    let (state2, action) = O::next(state, event);
    match action {
        Action::Reply(reply) => (Some(reply), world),
        _ => if faults.len() == 0 {
            (None, world)
        } else {
            let (world2, event2) = world.perform_with(action, faults.first());
            run_with_faults::<O>(state2, event2, world2, faults.drop_first())
        },
    }
}

/// Whether a property of a call under way survives every request.
pub open spec fn survives<'a, O: Operation<'a>>(
    inv: spec_fn(O::V, EventView, World) -> bool,
) -> bool {
    forall|s: O::V, e: EventView, w: World, f: Fault|
        #![trigger w.perform_with(O::next(s, e).1, f)]
        inv(s, e, w) && !(O::next(s, e).1 is Reply) ==> inv(
            O::next(s, e).0,
            w.perform_with(O::next(s, e).1, f).1,
            w.perform_with(O::next(s, e).1, f).0,
        )
}

/// Whether a call under way may end with this.
pub open spec fn may_end<'a, O: Operation<'a>>(
    inv: spec_fn(O::V, EventView, World) -> bool,
    s: O::V,
    e: EventView,
    end: (Option<ReplyView>, World),
) -> bool {
    inv(s, e, end.1) && (end.0 matches Some(reply) ==> O::next(s, e).1 == ActionView::Reply(reply))
}

/// What survives every request holds at the end.
pub proof fn lemma_survives<'a, O: Operation<'a>>(
    inv: spec_fn(O::V, EventView, World) -> bool,
    state: O::V,
    event: EventView,
    world: World,
    faults: Seq<Fault>,
)
    requires
        survives::<O>(inv),
        inv(state, event, world),
    ensures
        exists|s: O::V, e: EventView| #[trigger]
            may_end::<O>(
                inv,
                s,
                e,
                run_with_faults::<O>(state, event, world, faults),
            ),
    decreases faults.len(),
{
    let (state2, action) = O::next(state, event);
    if !(action is Reply) && faults.len() > 0 {
        let (world2, event2) = world.perform_with(action, faults.first());
        lemma_survives::<O>(inv, state2, event2, world2, faults.drop_first());
    } else {
        assert(may_end::<O>(
            inv,
            state,
            event,
            run_with_faults::<O>(state, event, world, faults),
        ));
    }
}

} // verus!
