//! State machine moving a Maildir entry into another Maildir.
//!
//! The entry is renamed into the target under a freshly minted unique
//! name rather than its source one, which may carry metadata valid in
//! the source folder only (such as a synchroniser's `,U=<uid>` infix).
//! The source flags are kept.

use vstd::prelude::*;

use crate::coroutine::{pairs_view, MaildirCoroutineState, MaildirReply, MaildirYield};
use crate::entry::locate::{locate_resumes, LocateOutcome, MaildirEntryLocate, MaildirEntryLocateError};
use crate::entry::mint::{mint_resumes, MaildirIdMint, MintOutcome};
use crate::entry::copy::landing_subdir;
use crate::entry::{target_path, target_path_spec};
use crate::flag::MaildirFlags;
use crate::maildir::{Maildir, MaildirSubdir};
use crate::path::MaildirFsPath;

verus! {

/// Failure causes during a [`MaildirEntryMove`] step.
#[derive(Debug)]
pub enum MaildirEntryMoveError {
    /// A reply arrived that does not match the awaited step.
    UnexpectedArg(Option<MaildirReply>),
    /// The inner locate step failed.
    Locate(MaildirEntryLocateError),
}

/// Where a [`MaildirEntryMove`] stands.
#[derive(Debug)]
pub enum EntryMoveStep {
    /// Locating the source entry.
    Locate(MaildirEntryLocate),
    /// Gathering what the new unique name is made of.
    Mint { mint: MaildirIdMint, source: MaildirFsPath, subdir: MaildirSubdir, flags: MaildirFlags },
    /// Waiting for the rename into the target.
    Rename,
    /// Finished; any further reply is unexpected.
    Done,
}

/// What one step of [`MaildirEntryMove`] gives.
pub type EntryMoveOutcome = MaildirCoroutineState<MaildirYield, Result<(), MaildirEntryMoveError>>;

/// Moves a Maildir entry into a target Maildir; with no target subdir
/// given, the entry keeps the subdir it had in the source.
#[derive(Debug)]
pub struct MaildirEntryMove {
    target: Maildir,
    target_subdir: Option<MaildirSubdir>,
    step: EntryMoveStep,
}

/// One step of [`MaildirEntryMove`] from `pre` on `arg` leads to `post`
/// and gives `r`.
pub open spec fn entry_move_resumes(
    pre: MaildirEntryMove,
    arg: Option<MaildirReply>,
    post: MaildirEntryMove,
    r: EntryMoveOutcome,
) -> bool {
    let target = pre.target_spec();
    &&& post.target_spec() == target
    &&& post.target_subdir_spec() == pre.target_subdir_spec()
    &&& match pre.step() {
        EntryMoveStep::Locate(c) => exists|c2: MaildirEntryLocate, r2: LocateOutcome|
            #[trigger] locate_resumes(c, arg, c2, r2) && match r2 {
                MaildirCoroutineState::Yielded(y) => {
                    &&& post.step() == EntryMoveStep::Locate(c2)
                    &&& r == EntryMoveOutcome::Yielded(y)
                },
                MaildirCoroutineState::Complete(Err(e)) => {
                    &&& post.step() is Done
                    &&& r == EntryMoveOutcome::Complete(Err(MaildirEntryMoveError::Locate(e)))
                },
                MaildirCoroutineState::Complete(Ok(o)) => {
                    &&& post.step() matches EntryMoveStep::Mint { mint, source, subdir, flags } && mint.step() is Time
                        && source@ == o.path@ && subdir == landing_subdir(pre.target_subdir_spec(), o.subdir)
                        && flags@ == o.flags@
                    &&& r == EntryMoveOutcome::Yielded(MaildirYield::WantsTime)
                },
            },
        EntryMoveStep::Mint { mint, source, subdir, flags } => exists|m2: MaildirIdMint, r2: MintOutcome|
            #[trigger] mint_resumes(mint, arg, m2, r2) && match r2 {
                MaildirCoroutineState::Yielded(y) => {
                    &&& post.step() matches EntryMoveStep::Mint { mint: m3, source: s3, subdir: d3, flags: f3 }
                        && m3 == m2 && s3@ == source@ && d3 == subdir && f3@ == flags@
                    &&& r == EntryMoveOutcome::Yielded(y)
                },
                MaildirCoroutineState::Complete(Err(a)) => {
                    &&& post.step() is Done
                    &&& r == EntryMoveOutcome::Complete(Err(MaildirEntryMoveError::UnexpectedArg(a)))
                },
                MaildirCoroutineState::Complete(Ok(id)) => {
                    &&& post.step() is Rename
                    &&& r matches MaildirCoroutineState::Yielded(MaildirYield::WantsRename(v)) && pairs_view(v@)
                        == seq![(source@, target_path_spec(target, subdir, id@, flags@))]
                },
            },
        EntryMoveStep::Rename => {
            &&& post.step() is Done
            &&& match arg {
                Some(MaildirReply::Rename) => r == EntryMoveOutcome::Complete(Ok(())),
                _ => r == EntryMoveOutcome::Complete(Err(MaildirEntryMoveError::UnexpectedArg(arg))),
            }
        },
        EntryMoveStep::Done => {
            &&& post.step() is Done
            &&& r == EntryMoveOutcome::Complete(Err(MaildirEntryMoveError::UnexpectedArg(arg)))
        },
    }
}

impl MaildirEntryMove {
    /// The Maildir moved into.
    pub closed spec fn target_spec(&self) -> Seq<char> {
        self.target@
    }

    /// The subdir asked for, if any.
    pub closed spec fn target_subdir_spec(&self) -> Option<MaildirSubdir> {
        self.target_subdir
    }

    /// Where the machine stands.
    pub closed spec fn step(&self) -> EntryMoveStep {
        self.step
    }

    /// Builds a machine moving the entry `id` of `source` into
    /// `target`.
    pub fn new(id: &str, source: Maildir, target: Maildir, target_subdir: Option<MaildirSubdir>) -> (r: Self)
        ensures
            r.target_spec() == target@,
            r.target_subdir_spec() == target_subdir,
            r.step() matches EntryMoveStep::Locate(c) && c.maildir_spec() == source@ && c.id_spec() == id@
                && c.step() is Start,
    {
        MaildirEntryMove { target, target_subdir, step: EntryMoveStep::Locate(MaildirEntryLocate::new(source, id)) }
    }

    /// Makes the move progress with the caller's answer `arg`.
    pub fn resume(&mut self, arg: Option<MaildirReply>) -> (r: EntryMoveOutcome)
        ensures
            entry_move_resumes(*old(self), arg, *final(self), r),
    {
        let mut step = EntryMoveStep::Done;
        core::mem::swap(&mut step, &mut self.step);
        match step {
            EntryMoveStep::Locate(mut c) => {
                let ghost c0 = c;
                let r2 = c.resume(arg);
                proof {
                    assert(locate_resumes(c0, arg, c, r2));
                }
                match r2 {
                    MaildirCoroutineState::Yielded(y) => {
                        self.step = EntryMoveStep::Locate(c);
                        MaildirCoroutineState::Yielded(y)
                    },
                    MaildirCoroutineState::Complete(Err(e)) => {
                        MaildirCoroutineState::Complete(Err(MaildirEntryMoveError::Locate(e)))
                    },
                    MaildirCoroutineState::Complete(Ok(o)) => {
                        let subdir = match self.target_subdir {
                            Some(s) => s,
                            None => o.subdir,
                        };
                        self.step = EntryMoveStep::Mint {
                            mint: MaildirIdMint::asked_time(),
                            source: o.path,
                            subdir,
                            flags: o.flags,
                        };
                        MaildirCoroutineState::Yielded(MaildirYield::WantsTime)
                    },
                }
            },
            EntryMoveStep::Mint { mut mint, source, subdir, flags } => {
                let ghost m0 = mint;
                let r2 = mint.resume(arg);
                proof {
                    assert(mint_resumes(m0, arg, mint, r2));
                }
                match r2 {
                    MaildirCoroutineState::Yielded(y) => {
                        self.step = EntryMoveStep::Mint { mint, source, subdir, flags };
                        MaildirCoroutineState::Yielded(y)
                    },
                    MaildirCoroutineState::Complete(Err(a)) => {
                        MaildirCoroutineState::Complete(Err(MaildirEntryMoveError::UnexpectedArg(a)))
                    },
                    MaildirCoroutineState::Complete(Ok(id)) => {
                        let final_path = target_path(&self.target, subdir, id.as_str(), &flags);
                        let ghost sv = source@;
                        let ghost fv = final_path@;
                        let mut pairs: Vec<(MaildirFsPath, MaildirFsPath)> = Vec::new();
                        pairs.push((source, final_path));
                        proof {
                            assert(pairs_view(pairs@) =~= seq![(sv, fv)]);
                        }
                        self.step = EntryMoveStep::Rename;
                        MaildirCoroutineState::Yielded(MaildirYield::WantsRename(pairs))
                    },
                }
            },
            EntryMoveStep::Rename => match arg {
                Some(MaildirReply::Rename) => MaildirCoroutineState::Complete(Ok(())),
                arg => MaildirCoroutineState::Complete(Err(MaildirEntryMoveError::UnexpectedArg(arg))),
            },
            EntryMoveStep::Done => MaildirCoroutineState::Complete(Err(MaildirEntryMoveError::UnexpectedArg(arg))),
        }
    }
}

/// Where a move lands. The move of an entry that the locate step finds
/// at `p` in subdir `d` with flags `f` renames, once the clock, the
/// process id and the host name are given, `p` to an entry file of the
/// subdir asked for, or of `d` when none is: one that reads back as the
/// minted id and, in `cur`, as the flags `f`. So a read entry of `cur`
/// stays in `cur` with its flags, and an unread one of `new` stays in
/// `new`.
pub proof fn lemma_move_lands(
    s0: MaildirEntryMove,
    arg0: Option<MaildirReply>,
    s1: MaildirEntryMove,
    r1: EntryMoveOutcome,
    secs: u64,
    nanos: u32,
    counter: u32,
    s2: MaildirEntryMove,
    r2: EntryMoveOutcome,
    pid: u32,
    s3: MaildirEntryMove,
    r3: EntryMoveOutcome,
    host: String,
    s4: MaildirEntryMove,
    r4: EntryMoveOutcome,
    p: Seq<char>,
    d: MaildirSubdir,
    f: crate::flag::FlagsView,
)
    requires
        s0.step() matches EntryMoveStep::Locate(c) && forall|c2: MaildirEntryLocate, q2: LocateOutcome|
            #[trigger] locate_resumes(c, arg0, c2, q2) ==> (q2 matches MaildirCoroutineState::Complete(Ok(o)) && o.path@ == p
                && o.subdir == d && o.flags@ == f),
        crate::flag::flags_wf(f),
        crate::flag::plain_letters(f.letters),
        forall|x: crate::flag::FlagView| #[trigger] f.flags.contains(x) ==> !(x is Keyword),
        !host@.contains('/'),
        entry_move_resumes(s0, arg0, s1, r1),
        entry_move_resumes(s1, Some(MaildirReply::Time { secs, nanos, counter }), s2, r2),
        entry_move_resumes(s2, Some(MaildirReply::Pid(pid)), s3, r3),
        entry_move_resumes(s3, Some(MaildirReply::Hostname(host)), s4, r4),
    ensures
        r4 matches MaildirCoroutineState::Yielded(MaildirYield::WantsRename(v)) && pairs_view(v@).len() == 1
            && pairs_view(v@)[0].0 == p
            && crate::entry::delivered_as(
            pairs_view(v@)[0].1,
            s0.target_spec(),
            match s0.target_subdir_spec() {
                Some(asked) => asked,
                None => d,
            },
            crate::entry::mint_id_spec(secs, nanos, counter, pid, host@),
            f,
        ),
{
    let id = crate::entry::mint_id_spec(secs, nanos, counter, pid, host@);
    crate::entry::lemma_mint_lacks_slash(secs, nanos, counter, pid, host@);
    let landing = match s0.target_subdir_spec() {
        Some(asked) => asked,
        None => d,
    };
    crate::entry::lemma_target_delivers(s0.target_spec(), landing, id, f);
    assert(s1.step() matches EntryMoveStep::Mint { mint, source, subdir, flags } && mint.step() is Time && source@ == p
        && subdir == landing && flags@ == f);
    assert(s2.step() matches EntryMoveStep::Mint { mint, source, subdir, flags } && mint.step() == crate::entry::mint::MintStep::Pid {
        secs,
        nanos,
        counter,
    } && source@ == p && subdir == landing && flags@ == f);
    assert(s3.step() matches EntryMoveStep::Mint { mint, source, subdir, flags } && mint.step() == crate::entry::mint::MintStep::Hostname {
        secs,
        nanos,
        counter,
        pid,
    } && source@ == p && subdir == landing && flags@ == f);
}

} // verus!
