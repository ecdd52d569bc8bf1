//! State machine renaming a Maildir directory.

use vstd::prelude::*;

use crate::coroutine::{pairs_view, MaildirCoroutineState, MaildirReply, MaildirYield};
use crate::path::{MaildirFsPath, MaildirPath};
use crate::store::{resolve_spec, MaildirStore};

verus! {

/// Failure causes during a [`MaildirRename`] step.
#[derive(Debug)]
pub enum MaildirRenameError {
    /// A reply arrived that does not match the awaited step.
    UnexpectedArg(Option<MaildirReply>),
}

/// Where a [`MaildirRename`] stands.
#[derive(Debug)]
pub enum RenameStep {
    /// Nothing asked yet; the `(from, to)` pair to rename.
    Start { pairs: Vec<(MaildirFsPath, MaildirFsPath)> },
    /// Waiting for the rename.
    Rename,
    /// Finished; any further reply is unexpected.
    Done,
}

/// What one step of [`MaildirRename`] gives.
pub type RenameOutcome = MaildirCoroutineState<MaildirYield, Result<(), MaildirRenameError>>;

/// Renames a Maildir from one logical name to another, both resolved
/// through the store. Crossing parents is fine in either layout: the fs
/// layout moves the directory tree, Maildir++ renames the flat dotted
/// entry.
#[derive(Debug)]
pub struct MaildirRename {
    step: RenameStep,
}

/// One step of [`MaildirRename`] from `pre` on `arg` leads to `post`
/// and gives `r`.
pub open spec fn rename_resumes(pre: MaildirRename, arg: Option<MaildirReply>, post: MaildirRename, r: RenameOutcome) -> bool {
    match (pre.step(), arg) {
        (RenameStep::Start { pairs }, None) => {
            &&& post.step() is Rename
            &&& r matches MaildirCoroutineState::Yielded(MaildirYield::WantsRename(v)) && v@ == pairs@
        },
        (RenameStep::Rename, Some(MaildirReply::Rename)) => {
            &&& post.step() is Done
            &&& r == RenameOutcome::Complete(Ok(()))
        },
        (_, arg) => {
            &&& post.step() is Done
            &&& r == RenameOutcome::Complete(Err(MaildirRenameError::UnexpectedArg(arg)))
        },
    }
}

impl MaildirRename {
    /// Where the machine stands.
    pub closed spec fn step(&self) -> RenameStep {
        self.step
    }

    /// Builds a machine renaming the Maildir `from` to `to`, both
    /// resolved in `store`.
    pub fn new(store: &MaildirStore, from: MaildirPath, to: MaildirPath) -> (r: Self)
        ensures
            r.step() matches RenameStep::Start { pairs } && pairs_view(pairs@) == seq![
                (
                    resolve_spec(store.root@, store.maildirpp, from@),
                    resolve_spec(store.root@, store.maildirpp, to@),
                ),
            ],
    {
        let mut pairs: Vec<(MaildirFsPath, MaildirFsPath)> = Vec::new();
        pairs.push((store.resolve(&from), store.resolve(&to)));
        proof {
            assert(pairs_view(pairs@) =~= seq![(pairs@[0].0@, pairs@[0].1@)]);
        }
        MaildirRename { step: RenameStep::Start { pairs } }
    }

    /// Makes the rename progress with the caller's answer `arg`.
    pub fn resume(&mut self, arg: Option<MaildirReply>) -> (r: RenameOutcome)
        ensures
            rename_resumes(*old(self), arg, *final(self), r),
    {
        let mut step = RenameStep::Done;
        core::mem::swap(&mut step, &mut self.step);
        match step {
            RenameStep::Start { pairs } => match arg {
                None => {
                    self.step = RenameStep::Rename;
                    MaildirCoroutineState::Yielded(MaildirYield::WantsRename(pairs))
                },
                arg => MaildirCoroutineState::Complete(Err(MaildirRenameError::UnexpectedArg(arg))),
            },
            RenameStep::Rename => match arg {
                Some(MaildirReply::Rename) => MaildirCoroutineState::Complete(Ok(())),
                arg => MaildirCoroutineState::Complete(Err(MaildirRenameError::UnexpectedArg(arg))),
            },
            RenameStep::Done => MaildirCoroutineState::Complete(Err(MaildirRenameError::UnexpectedArg(arg))),
        }
    }
}

} // verus!
