//! Unmounting, step by step.
use vstd::prelude::*;

verus! {

/// What is to be done next.
#[derive(Clone, Copy, Debug, PartialEq, Eq, Structural)]
pub enum Step {
    /// Unmount.
    Plain,
    /// Detach the mountpoint now, and clean up once nothing holds it any more.
    Lazy,
    /// End the FUSE connection: else the daemon would go on, with the container
    /// locked, for as long as anything holds the mount.
    Abort(u32),
    /// Over.
    Finished { success: bool },
}

/// Unmounting under way. The connection is looked up before anything is
/// detached: afterwards it cannot be found any more.
#[derive(Clone, Copy, Debug, PartialEq, Eq, Structural)]
pub struct Unmount {
    pub connection: Option<u32>,
    pub step: Step,
}

impl Unmount {
    pub open spec fn start(connection: Option<u32>) -> Unmount {
        Unmount { connection, step: Step::Plain }
    }

    pub fn new(connection: Option<u32>) -> (u: Unmount)
        ensures
            u.connection == connection,
            u.step == Step::Plain,
            u == Unmount::start(connection),
    {
        Unmount { connection, step: Step::Plain }
    }

    /// The step that follows one that ended so.
    pub open spec fn after(self, success: bool) -> Step {
        match self.step {
            Step::Plain => if success {
                Step::Finished { success: true }
            } else {
                Step::Lazy
            },
            Step::Lazy => match self.connection {
                Some(id) => if success {
                    Step::Abort(id)
                } else {
                    Step::Finished { success: false }
                },
                None => Step::Finished { success },
            },
            Step::Abort(_) => Step::Finished { success: true },
            Step::Finished { success } => Step::Finished { success },
        }
    }

    /// Goes on after a step that ended so.
    pub fn advance(&mut self, success: bool) -> (next: Step)
        ensures
            next == old(self).after(success),
            final(self).step == next,
            final(self).connection == old(self).connection,
    {
        let next = match self.step {
            Step::Plain => if success {
                Step::Finished { success: true }
            } else {
                Step::Lazy
            },
            Step::Lazy => match self.connection {
                Some(id) => if success {
                    Step::Abort(id)
                } else {
                    Step::Finished { success: false }
                },
                None => Step::Finished { success },
            },
            Step::Abort(_) => Step::Finished { success: true },
            Step::Finished { success } => Step::Finished { success },
        };
        self.step = next;
        next
    }
}

/// A connection is aborted only after the mountpoint was detached the lazy
/// way, and only the one that was found there.
pub proof fn aborts_only_after_lazy(u: Unmount, success: bool, id: u32)
    requires
        u.after(success) == Step::Abort(id),
    ensures
        u.step == Step::Lazy,
        success,
        u.connection == Some(id),
{
}

/// How unmounting goes: where the plain way works, that is all. Where it does
/// not, the mountpoint is detached, and where that works the connection is
/// ended, if one was found. It is a success if one of the two ways worked.
pub proof fn unmounting_goes_on(u: Unmount, success: bool)
    ensures
        u.step == Step::Plain && success ==> u.after(success) == (Step::Finished { success: true }),
        u.step == Step::Plain && !success ==> u.after(success) == Step::Lazy,
        u.step == Step::Lazy && !success ==> u.after(success) == (Step::Finished {
            success: false,
        }),
        u.step == Step::Lazy && success && u.connection is None ==> u.after(success) == (
        Step::Finished { success: true }),
        u.step == Step::Lazy && success && u.connection is Some ==> u.after(success) == Step::Abort(
            u.connection->Some_0,
        ),
        u.step is Abort ==> u.after(success) == (Step::Finished { success: true }),
        u.step is Finished ==> u.after(success) == u.step,
{
}

/// Unmounting starts with the plain way. What follows it is told by how the steps
/// end: it comes to a failure only where neither way worked.
pub proof fn unmounting_tries_both_ways(connection: Option<u32>, first: bool, second: bool)
    ensures
        ({
            let u = Unmount::start(connection);
            let v = Unmount { step: u.after(first), ..u };
            &&& u.step is Plain
            &&& u.connection == connection
            &&& first ==> v.step == (Step::Finished { success: true })
            &&& !first && !second ==> v.after(second) == (Step::Finished { success: false })
            &&& !first && second ==> v.after(second) == (match connection {
                Some(id) => Step::Abort(id),
                None => Step::Finished { success: true },
            })
        }),
{
}

} // verus!
