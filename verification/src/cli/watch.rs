//! Compacting a mounted container while nobody uses it.
use vstd::prelude::*;

use crate::sizes::{reclaimable, worth_compacting};
use crate::sizes;

verus! {

/// What the watcher does next.
#[derive(Clone, Copy, Debug, PartialEq, Eq, Structural)]
pub enum WatchStep {
    /// Let the database go, where it is held, and sleep for a while.
    Sleep,
    /// See how large the container file is.
    Measure,
    /// Wait for the database, and hold it.
    Lock,
    /// Add up what the files in the container take.
    Count,
    /// Compact; so many bytes will be gained.
    Compact(u64),
}

/// What came of it. `idle` tells whether the mount has been idle for long
/// enough at that moment.
#[derive(Clone, Copy, Debug, PartialEq, Eq, Structural)]
pub enum WatchEvent {
    Woken { idle: bool },
    /// The size of the file, where it could be found out.
    Measured(Option<u64>),
    /// The database is held. Somebody may have used the mount meanwhile.
    Locked { idle: bool },
    Counted(u64),
    Compacted,
}

/// Where the watcher stands.
#[derive(Clone, Copy, Debug, PartialEq, Eq, Structural)]
pub enum CompactWatch {
    Sleeping,
    Measuring,
    Locking { on_disk: u64 },
    Counting { on_disk: u64 },
    Compacting,
}

impl CompactWatch {
    /// Where the watcher stands after an event, and what it does next.
    pub open spec fn after(self, event: WatchEvent) -> (CompactWatch, WatchStep) {
        match (self, event) {
            (CompactWatch::Sleeping, WatchEvent::Woken { idle }) => if idle {
                (CompactWatch::Measuring, WatchStep::Measure)
            } else {
                (CompactWatch::Sleeping, WatchStep::Sleep)
            },
            (CompactWatch::Measuring, WatchEvent::Measured(Some(on_disk))) => (
                CompactWatch::Locking { on_disk },
                WatchStep::Lock,
            ),
            (CompactWatch::Locking { on_disk }, WatchEvent::Locked { idle }) => if idle {
                (CompactWatch::Counting { on_disk }, WatchStep::Count)
            } else {
                (CompactWatch::Sleeping, WatchStep::Sleep)
            },
            (CompactWatch::Counting { on_disk }, WatchEvent::Counted(used)) => if sizes::worthwhile(
                on_disk,
                used,
            ) {
                (
                    CompactWatch::Compacting,
                    WatchStep::Compact(sizes::reclaimable_of(on_disk, used)),
                )
            } else {
                (CompactWatch::Sleeping, WatchStep::Sleep)
            },
            _ => (CompactWatch::Sleeping, WatchStep::Sleep),
        }
    }

    pub fn advance(&mut self, event: WatchEvent) -> (step: WatchStep)
        ensures
            (*final(self), step) == old(self).after(event),
    {
        let (next, step) = match (*self, event) {
            (CompactWatch::Sleeping, WatchEvent::Woken { idle }) => if idle {
                (CompactWatch::Measuring, WatchStep::Measure)
            } else {
                (CompactWatch::Sleeping, WatchStep::Sleep)
            },
            (CompactWatch::Measuring, WatchEvent::Measured(Some(on_disk))) => (
                CompactWatch::Locking { on_disk },
                WatchStep::Lock,
            ),
            (CompactWatch::Locking { on_disk }, WatchEvent::Locked { idle }) => if idle {
                (CompactWatch::Counting { on_disk }, WatchStep::Count)
            } else {
                (CompactWatch::Sleeping, WatchStep::Sleep)
            },
            (CompactWatch::Counting { on_disk }, WatchEvent::Counted(used)) => {
                if worth_compacting(on_disk, used) {
                    (
                        CompactWatch::Compacting,
                        WatchStep::Compact(reclaimable(on_disk, used)),
                    )
                } else {
                    (CompactWatch::Sleeping, WatchStep::Sleep)
                }
            },
            _ => (CompactWatch::Sleeping, WatchStep::Sleep),
        };
        *self = next;
        step
    }
}

/// Where a watcher stands that has just fallen asleep and then saw these
/// events, and what it does next.
pub open spec fn watched(events: Seq<WatchEvent>) -> (CompactWatch, WatchStep)
    decreases events.len(),
{
    if events.len() == 0 {
        (CompactWatch::Sleeping, WatchStep::Sleep)
    } else {
        watched(events.drop_last()).0.after(events.last())
    }
}

/// Whatever happens, the watcher compacts only where the mount was idle when
/// it woke up, was still idle once it held the database, and where there was
/// enough to gain.
pub proof fn compacts_only_when_idle(events: Seq<WatchEvent>, gap: u64)
    requires
        watched(events).1 == WatchStep::Compact(gap),
    ensures
        ({
            let n = events.len();
            &&& n >= 4
            &&& events[n - 4] == WatchEvent::Woken { idle: true }
            &&& events[n - 3] matches WatchEvent::Measured(Some(on_disk))
            &&& events[n - 2] == WatchEvent::Locked { idle: true }
            &&& events[n - 1] matches WatchEvent::Counted(used)
            &&& sizes::worthwhile(on_disk, used)
            &&& gap == sizes::reclaimable_of(on_disk, used)
            &&& gap == on_disk - used
            &&& gap >= 67108864
            &&& gap * 10 >= on_disk
        }),
{
    let one = events.drop_last();
    let two = one.drop_last();
    let three = two.drop_last();
    assert(watched(one).0 is Counting);
    assert(watched(two).0 is Locking);
    assert(watched(three).0 is Measuring);
    assert(three.last() == events[events.len() - 4]);
    assert(two.last() == events[events.len() - 3]);
    assert(one.last() == events[events.len() - 2]);
}

/// And where all of that holds, it does compact, and tells what it will gain.
pub proof fn compacts_when_idle(events: Seq<WatchEvent>, on_disk: u64, used: u64)
    requires
        watched(events).0 is Sleeping,
        used <= on_disk,
        on_disk - used >= 67108864,
        (on_disk - used) * 10 >= on_disk,
    ensures
        ({
            let woken = events.push(WatchEvent::Woken { idle: true });
            let measured = woken.push(WatchEvent::Measured(Some(on_disk)));
            let locked = measured.push(WatchEvent::Locked { idle: true });
            let counted = locked.push(WatchEvent::Counted(used));
            &&& watched(woken).1 is Measure
            &&& watched(measured).1 is Lock
            &&& watched(locked).1 is Count
            &&& watched(counted).1 == WatchStep::Compact((on_disk - used) as u64)
        }),
{
    let woken = events.push(WatchEvent::Woken { idle: true });
    let measured = woken.push(WatchEvent::Measured(Some(on_disk)));
    let locked = measured.push(WatchEvent::Locked { idle: true });
    let counted = locked.push(WatchEvent::Counted(used));
    assert(woken.drop_last() =~= events);
    assert(measured.drop_last() =~= woken);
    assert(locked.drop_last() =~= measured);
    assert(counted.drop_last() =~= locked);
}

/// A watcher sleeps as long as the mount is in use, and goes back to sleep
/// where there is too little to gain.
pub proof fn sleeps_otherwise(events: Seq<WatchEvent>, event: WatchEvent)
    ensures
        watched(events).0 is Sleeping && !(event matches WatchEvent::Woken { idle: true })
            ==> watched(events.push(event)).1 is Sleep,
        watched(events).0 is Locking && !(event matches WatchEvent::Locked { idle: true })
            ==> watched(events.push(event)).1 is Sleep,
        watched(events).0 is Compacting ==> watched(events.push(event)).1 is Sleep,
        watched(events.push(event)).1 is Sleep ==> watched(events.push(event)).0 is Sleeping,
{
    assert(events.push(event).drop_last() =~= events);
}

} // verus!
