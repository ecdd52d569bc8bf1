//! State machine storing a new entry in a Maildir, following the
//! delivery protocol: the bytes are written under a fresh unique name in
//! `tmp`, then renamed into place, so that no reader ever sees a
//! partial entry under its final name.

use vstd::prelude::*;

use crate::coroutine::{files_view, pairs_view, MaildirCoroutineState, MaildirReply, MaildirYield};
use crate::entry::locate::in_subdir;
use crate::entry::mint::{mint_resumes, MaildirIdMint, MintOutcome};
use crate::entry::{target_path, target_path_spec};
use crate::flag::{FlagsView, MaildirFlags};
use crate::maildir::{Maildir, MaildirSubdir};
use crate::path::MaildirFsPath;

verus! {

/// Failure causes during a [`MaildirEntryStore`] step.
#[derive(Debug)]
pub enum MaildirEntryStoreError {
    /// A reply arrived that does not match the awaited step.
    UnexpectedArg(Option<MaildirReply>),
}

/// Successful output of [`MaildirEntryStore`].
#[derive(Debug)]
pub struct MaildirEntryStoreOutput {
    /// The unique name minted for the entry.
    pub id: String,
    /// Where the entry now lives.
    pub path: MaildirFsPath,
}

/// Where a [`MaildirEntryStore`] stands.
#[derive(Debug)]
pub enum EntryStoreStep {
    /// Gathering what the unique name is made of.
    Mint { mint: MaildirIdMint, contents: Vec<u8> },
    /// Waiting for the bytes to be written in `tmp`.
    Create { id: String, tmp_path: MaildirFsPath, final_path: MaildirFsPath },
    /// Waiting for the rename into place.
    Rename { id: String, final_path: MaildirFsPath },
    /// Finished; any further reply is unexpected.
    Done,
}

/// What one step of [`MaildirEntryStore`] gives.
pub type EntryStoreOutcome = MaildirCoroutineState<
    MaildirYield,
    Result<MaildirEntryStoreOutput, MaildirEntryStoreError>,
>;

/// Stores `contents` as a new entry of a Maildir under a subdir, with
/// flags written in the file name when the subdir is `cur`.
#[derive(Debug)]
pub struct MaildirEntryStore {
    maildir: Maildir,
    subdir: MaildirSubdir,
    flags: MaildirFlags,
    step: EntryStoreStep,
}

/// One step of [`MaildirEntryStore`] from `pre` on `arg` leads to
/// `post` and gives `r`.
pub open spec fn entry_store_resumes(
    pre: MaildirEntryStore,
    arg: Option<MaildirReply>,
    post: MaildirEntryStore,
    r: EntryStoreOutcome,
) -> bool {
    let root = pre.maildir_spec();
    &&& post.maildir_spec() == root
    &&& post.subdir_spec() == pre.subdir_spec()
    &&& post.flags_spec() == pre.flags_spec()
    &&& match pre.step() {
        EntryStoreStep::Mint { mint, contents } => exists|m2: MaildirIdMint, r2: MintOutcome|
            #[trigger] mint_resumes(mint, arg, m2, r2) && match r2 {
                MaildirCoroutineState::Yielded(y) => {
                    &&& post.step() matches EntryStoreStep::Mint { mint: m3, contents: c3 } && m3 == m2
                        && c3@ == contents@
                    &&& r == EntryStoreOutcome::Yielded(y)
                },
                MaildirCoroutineState::Complete(Err(a)) => {
                    &&& post.step() is Done
                    &&& r == EntryStoreOutcome::Complete(Err(MaildirEntryStoreError::UnexpectedArg(a)))
                },
                MaildirCoroutineState::Complete(Ok(id)) => {
                    let tmp = in_subdir(root, MaildirSubdir::Tmp, id@);
                    let fin = target_path_spec(root, pre.subdir_spec(), id@, pre.flags_spec());
                    &&& post.step() matches EntryStoreStep::Create { id: i3, tmp_path, final_path } && i3@
                        == id@ && tmp_path@ == tmp && final_path@ == fin
                    &&& r matches MaildirCoroutineState::Yielded(MaildirYield::WantsFileCreate(v))
                        && files_view(v@) == seq![(tmp, contents@)]
                },
            },
        EntryStoreStep::Create { id, tmp_path, final_path } => match arg {
            Some(MaildirReply::FileCreate) => {
                &&& post.step() matches EntryStoreStep::Rename { id: i3, final_path: f3 } && i3@ == id@
                    && f3@ == final_path@
                &&& r matches MaildirCoroutineState::Yielded(MaildirYield::WantsRename(v)) && pairs_view(v@)
                    == seq![(tmp_path@, final_path@)]
            },
            _ => {
                &&& post.step() is Done
                &&& r == EntryStoreOutcome::Complete(Err(MaildirEntryStoreError::UnexpectedArg(arg)))
            },
        },
        EntryStoreStep::Rename { id, final_path } => {
            &&& post.step() is Done
            &&& match arg {
                Some(MaildirReply::Rename) => r matches MaildirCoroutineState::Complete(Ok(o)) && o.id@ == id@
                    && o.path@ == final_path@,
                _ => r == EntryStoreOutcome::Complete(Err(MaildirEntryStoreError::UnexpectedArg(arg))),
            }
        },
        EntryStoreStep::Done => {
            &&& post.step() is Done
            &&& r == EntryStoreOutcome::Complete(Err(MaildirEntryStoreError::UnexpectedArg(arg)))
        },
    }
}

impl MaildirEntryStore {
    /// The Maildir stored into.
    pub closed spec fn maildir_spec(&self) -> Seq<char> {
        self.maildir@
    }

    /// The subdir the entry lands in.
    pub closed spec fn subdir_spec(&self) -> MaildirSubdir {
        self.subdir
    }

    /// The flags of the entry.
    pub closed spec fn flags_spec(&self) -> FlagsView {
        self.flags@
    }

    /// Where the machine stands.
    pub closed spec fn step(&self) -> EntryStoreStep {
        self.step
    }

    /// Builds a machine storing `contents` in `subdir` of `maildir`
    /// with `flags`.
    pub fn new(maildir: Maildir, subdir: MaildirSubdir, flags: MaildirFlags, contents: Vec<u8>) -> (r: Self)
        ensures
            r.maildir_spec() == maildir@,
            r.subdir_spec() == subdir,
            r.flags_spec() == flags@,
            r.step() matches EntryStoreStep::Mint { mint, contents: c } && mint.step() is Start && c@
                == contents@,
    {
        MaildirEntryStore {
            maildir,
            subdir,
            flags,
            step: EntryStoreStep::Mint { mint: MaildirIdMint::new(), contents },
        }
    }

    /// Makes the delivery progress with the caller's answer `arg`.
    pub fn resume(&mut self, arg: Option<MaildirReply>) -> (r: EntryStoreOutcome)
        ensures
            entry_store_resumes(*old(self), arg, *final(self), r),
    {
        let mut step = EntryStoreStep::Done;
        core::mem::swap(&mut step, &mut self.step);
        match step {
            EntryStoreStep::Mint { mut mint, contents } => {
                let ghost m0 = mint;
                let r2 = mint.resume(arg);
                proof {
                    assert(mint_resumes(m0, arg, mint, r2));
                }
                match r2 {
                    MaildirCoroutineState::Yielded(y) => {
                        self.step = EntryStoreStep::Mint { mint, contents };
                        MaildirCoroutineState::Yielded(y)
                    },
                    MaildirCoroutineState::Complete(Err(a)) => {
                        MaildirCoroutineState::Complete(Err(MaildirEntryStoreError::UnexpectedArg(a)))
                    },
                    MaildirCoroutineState::Complete(Ok(id)) => {
                        let tmp_path = self.maildir.tmp().join(id.as_str());
                        let final_path = target_path(&self.maildir, self.subdir, id.as_str(), &self.flags);
                        let ghost tv = tmp_path@;
                        let ghost cv = contents@;
                        let mut files: Vec<(MaildirFsPath, Vec<u8>)> = Vec::new();
                        files.push((tmp_path.clone(), contents));
                        proof {
                            assert(files_view(files@) =~= seq![(tv, cv)]);
                        }
                        self.step = EntryStoreStep::Create { id, tmp_path, final_path };
                        MaildirCoroutineState::Yielded(MaildirYield::WantsFileCreate(files))
                    },
                }
            },
            EntryStoreStep::Create { id, tmp_path, final_path } => match arg {
                Some(MaildirReply::FileCreate) => {
                    let mut pairs: Vec<(MaildirFsPath, MaildirFsPath)> = Vec::new();
                    pairs.push((tmp_path, final_path.clone()));
                    proof {
                        assert(pairs_view(pairs@) =~= seq![(pairs@[0].0@, final_path@)]);
                    }
                    self.step = EntryStoreStep::Rename { id, final_path };
                    MaildirCoroutineState::Yielded(MaildirYield::WantsRename(pairs))
                },
                arg => MaildirCoroutineState::Complete(Err(MaildirEntryStoreError::UnexpectedArg(arg))),
            },
            EntryStoreStep::Rename { id, final_path } => match arg {
                Some(MaildirReply::Rename) => {
                    MaildirCoroutineState::Complete(Ok(MaildirEntryStoreOutput { id, path: final_path }))
                },
                arg => MaildirCoroutineState::Complete(Err(MaildirEntryStoreError::UnexpectedArg(arg))),
            },
            EntryStoreStep::Done => MaildirCoroutineState::Complete(Err(MaildirEntryStoreError::UnexpectedArg(arg))),
        }
    }
}

} // verus!
