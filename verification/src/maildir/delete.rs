//! State machine deleting a Maildir and everything below it.

use vstd::prelude::*;

use crate::coroutine::{paths_view, MaildirCoroutineState, MaildirReply, MaildirYield};
use crate::path::{MaildirFsPath, MaildirPath};
use crate::store::{resolve_spec, MaildirStore};

verus! {

/// Failure causes during a [`MaildirDelete`] step.
#[derive(Debug)]
pub enum MaildirDeleteError {
    /// A reply arrived that does not match the awaited step.
    UnexpectedArg(Option<MaildirReply>),
}

/// Where a [`MaildirDelete`] stands.
#[derive(Debug)]
pub enum DeleteStep {
    /// Nothing asked yet; the directory to remove.
    Start { paths: Vec<MaildirFsPath> },
    /// Waiting for the removal.
    Remove,
    /// Finished; any further reply is unexpected.
    Done,
}

/// What one step of [`MaildirDelete`] gives.
pub type DeleteOutcome = MaildirCoroutineState<MaildirYield, Result<(), MaildirDeleteError>>;

/// Recursively removes a Maildir directory.
#[derive(Debug)]
pub struct MaildirDelete {
    step: DeleteStep,
}

/// One step of [`MaildirDelete`] from `pre` on `arg` leads to `post`
/// and gives `r`.
pub open spec fn delete_resumes(pre: MaildirDelete, arg: Option<MaildirReply>, post: MaildirDelete, r: DeleteOutcome) -> bool {
    match (pre.step(), arg) {
        (DeleteStep::Start { paths }, None) => {
            &&& post.step() is Remove
            &&& r matches MaildirCoroutineState::Yielded(MaildirYield::WantsDirRemove(v)) && v@ == paths@
        },
        (DeleteStep::Remove, Some(MaildirReply::DirRemove)) => {
            &&& post.step() is Done
            &&& r == DeleteOutcome::Complete(Ok(()))
        },
        (_, arg) => {
            &&& post.step() is Done
            &&& r == DeleteOutcome::Complete(Err(MaildirDeleteError::UnexpectedArg(arg)))
        },
    }
}

impl MaildirDelete {
    /// Where the machine stands.
    pub closed spec fn step(&self) -> DeleteStep {
        self.step
    }

    /// Builds a machine removing the Maildir that `name` resolves to in
    /// `store`.
    pub fn new(store: &MaildirStore, name: MaildirPath) -> (r: Self)
        ensures
            r.step() matches DeleteStep::Start { paths }
                && paths_view(paths@) == seq![resolve_spec(store.root@, store.maildirpp, name@)],
    {
        let mut paths: Vec<MaildirFsPath> = Vec::new();
        paths.push(store.resolve(&name));
        proof {
            assert(paths_view(paths@) =~= seq![resolve_spec(store.root@, store.maildirpp, name@)]);
        }
        MaildirDelete { step: DeleteStep::Start { paths } }
    }

    /// Makes the removal progress with the caller's answer `arg`.
    pub fn resume(&mut self, arg: Option<MaildirReply>) -> (r: DeleteOutcome)
        ensures
            delete_resumes(*old(self), arg, *final(self), r),
    {
        let mut step = DeleteStep::Done;
        core::mem::swap(&mut step, &mut self.step);
        match step {
            DeleteStep::Start { paths } => match arg {
                None => {
                    self.step = DeleteStep::Remove;
                    MaildirCoroutineState::Yielded(MaildirYield::WantsDirRemove(paths))
                },
                arg => MaildirCoroutineState::Complete(Err(MaildirDeleteError::UnexpectedArg(arg))),
            },
            DeleteStep::Remove => match arg {
                Some(MaildirReply::DirRemove) => MaildirCoroutineState::Complete(Ok(())),
                arg => MaildirCoroutineState::Complete(Err(MaildirDeleteError::UnexpectedArg(arg))),
            },
            DeleteStep::Done => MaildirCoroutineState::Complete(Err(MaildirDeleteError::UnexpectedArg(arg))),
        }
    }
}

} // verus!
