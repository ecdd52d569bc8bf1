//! State machine creating a Maildir with its `cur`, `new` and `tmp`
//! subdirectories.

use vstd::prelude::*;

use crate::coroutine::{paths_view, MaildirCoroutineState, MaildirReply, MaildirYield};
use crate::maildir::{subdir_name_spec, MaildirSubdir, CUR, NEW, TMP};
use crate::path::{join_spec, MaildirFsPath, MaildirPath};
use crate::store::{resolve_spec, MaildirStore};

verus! {

/// Failure causes during a [`MaildirCreate`] step.
#[derive(Debug)]
pub enum MaildirCreateError {
    /// A reply arrived that does not match the awaited step.
    UnexpectedArg(Option<MaildirReply>),
}

/// Where a [`MaildirCreate`] stands.
#[derive(Debug)]
pub enum CreateStep {
    /// Nothing asked yet; the directories to create, parents first.
    Start { paths: Vec<MaildirFsPath> },
    /// Waiting for the directories to be created.
    Create,
    /// Finished; any further reply is unexpected.
    Done,
}

/// What one step of [`MaildirCreate`] gives.
pub type CreateOutcome = MaildirCoroutineState<MaildirYield, Result<(), MaildirCreateError>>;

/// Creates a Maildir with its `cur`, `new` and `tmp` subdirectories.
#[derive(Debug)]
pub struct MaildirCreate {
    step: CreateStep,
}

/// The directories making up the Maildir at `root`, parents first.
pub open spec fn maildir_dirs(root: Seq<char>) -> Seq<Seq<char>> {
    seq![
        root,
        join_spec(root, subdir_name_spec(MaildirSubdir::Cur)),
        join_spec(root, subdir_name_spec(MaildirSubdir::New)),
        join_spec(root, subdir_name_spec(MaildirSubdir::Tmp)),
    ]
}

/// One step of [`MaildirCreate`] from `pre` on `arg` leads to `post`
/// and gives `r`.
pub open spec fn create_resumes(pre: MaildirCreate, arg: Option<MaildirReply>, post: MaildirCreate, r: CreateOutcome) -> bool {
    match (pre.step(), arg) {
        (CreateStep::Start { paths }, None) => {
            &&& post.step() is Create
            &&& r matches MaildirCoroutineState::Yielded(MaildirYield::WantsDirCreate(v)) && v@ == paths@
        },
        (CreateStep::Create, Some(MaildirReply::DirCreate)) => {
            &&& post.step() is Done
            &&& r == CreateOutcome::Complete(Ok(()))
        },
        (_, arg) => {
            &&& post.step() is Done
            &&& r == CreateOutcome::Complete(Err(MaildirCreateError::UnexpectedArg(arg)))
        },
    }
}

impl MaildirCreate {
    /// Where the machine stands.
    pub closed spec fn step(&self) -> CreateStep {
        self.step
    }

    /// Builds a machine creating the Maildir that `name` resolves to in
    /// `store`, together with its subdirectories.
    pub fn new(store: &MaildirStore, name: MaildirPath) -> (r: Self)
        ensures
            r.step() matches CreateStep::Start { paths }
                && paths_view(paths@) == maildir_dirs(resolve_spec(store.root@, store.maildirpp, name@)),
    {
        let root = store.resolve(&name);
        let cur = root.join(CUR);
        let new = root.join(NEW);
        let tmp = root.join(TMP);
        let mut paths: Vec<MaildirFsPath> = Vec::new();
        paths.push(root);
        paths.push(cur);
        paths.push(new);
        paths.push(tmp);
        proof {
            reveal_strlit("cur");
            reveal_strlit("new");
            reveal_strlit("tmp");
            assert(CUR@ =~= subdir_name_spec(MaildirSubdir::Cur));
            assert(NEW@ =~= subdir_name_spec(MaildirSubdir::New));
            assert(TMP@ =~= subdir_name_spec(MaildirSubdir::Tmp));
            assert(paths_view(paths@) =~= maildir_dirs(resolve_spec(store.root@, store.maildirpp, name@)));
        }
        MaildirCreate { step: CreateStep::Start { paths } }
    }

    /// Makes the creation progress with the caller's answer `arg`.
    pub fn resume(&mut self, arg: Option<MaildirReply>) -> (r: CreateOutcome)
        ensures
            create_resumes(*old(self), arg, *final(self), r),
    {
        let mut step = CreateStep::Done;
        core::mem::swap(&mut step, &mut self.step);
        match step {
            CreateStep::Start { paths } => match arg {
                None => {
                    self.step = CreateStep::Create;
                    MaildirCoroutineState::Yielded(MaildirYield::WantsDirCreate(paths))
                },
                arg => MaildirCoroutineState::Complete(Err(MaildirCreateError::UnexpectedArg(arg))),
            },
            CreateStep::Create => match arg {
                Some(MaildirReply::DirCreate) => MaildirCoroutineState::Complete(Ok(())),
                arg => MaildirCoroutineState::Complete(Err(MaildirCreateError::UnexpectedArg(arg))),
            },
            CreateStep::Done => MaildirCoroutineState::Complete(Err(MaildirCreateError::UnexpectedArg(arg))),
        }
    }
}

} // verus!
