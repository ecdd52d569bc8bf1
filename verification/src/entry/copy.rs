//! State machine copying a Maildir entry into another Maildir.
//!
//! A copy is a fresh delivery into the target: a new unique name is
//! minted instead of reusing the source one, which may carry metadata
//! valid in the source folder only (such as a synchroniser's `,U=<uid>`
//! infix). The bytes are copied into the target `tmp` and renamed into
//! place, so no reader sees a partial entry under its final name. The
//! source flags are kept.

use vstd::prelude::*;

use crate::coroutine::{pairs_view, MaildirCoroutineState, MaildirReply, MaildirYield};
use crate::entry::locate::{in_subdir, locate_resumes, LocateOutcome, MaildirEntryLocate, MaildirEntryLocateError};
use crate::entry::mint::{mint_resumes, MaildirIdMint, MintOutcome};
use crate::entry::{target_path, target_path_spec};
use crate::flag::MaildirFlags;
use crate::maildir::{Maildir, MaildirSubdir};
use crate::path::MaildirFsPath;

verus! {

/// Failure causes during a [`MaildirEntryCopy`] step.
#[derive(Debug)]
pub enum MaildirEntryCopyError {
    /// A reply arrived that does not match the awaited step.
    UnexpectedArg(Option<MaildirReply>),
    /// The inner locate step failed.
    Locate(MaildirEntryLocateError),
}

/// Where a [`MaildirEntryCopy`] stands.
#[derive(Debug)]
pub enum EntryCopyStep {
    /// Locating the source entry.
    Locate(MaildirEntryLocate),
    /// Gathering what the new unique name is made of.
    Mint { mint: MaildirIdMint, source: MaildirFsPath, subdir: MaildirSubdir, flags: MaildirFlags },
    /// Waiting for the bytes to be copied into the target `tmp`.
    Copy { tmp_path: MaildirFsPath, final_path: MaildirFsPath },
    /// Waiting for the rename into place.
    Rename,
    /// Finished; any further reply is unexpected.
    Done,
}

/// What one step of [`MaildirEntryCopy`] gives.
pub type EntryCopyOutcome = MaildirCoroutineState<MaildirYield, Result<(), MaildirEntryCopyError>>;

/// Copies a Maildir entry into a target Maildir; with no target subdir
/// given, the entry keeps the subdir it had in the source.
#[derive(Debug)]
pub struct MaildirEntryCopy {
    target: Maildir,
    target_subdir: Option<MaildirSubdir>,
    step: EntryCopyStep,
}

/// The subdir a relocated entry lands in: the one asked for, else the
/// one it came from.
pub open spec fn landing_subdir(asked: Option<MaildirSubdir>, found: MaildirSubdir) -> MaildirSubdir {
    match asked {
        Some(s) => s,
        None => found,
    }
}

/// One step of [`MaildirEntryCopy`] from `pre` on `arg` leads to `post`
/// and gives `r`.
pub open spec fn entry_copy_resumes(
    pre: MaildirEntryCopy,
    arg: Option<MaildirReply>,
    post: MaildirEntryCopy,
    r: EntryCopyOutcome,
) -> bool {
    let target = pre.target_spec();
    &&& post.target_spec() == target
    &&& post.target_subdir_spec() == pre.target_subdir_spec()
    &&& match pre.step() {
        EntryCopyStep::Locate(c) => exists|c2: MaildirEntryLocate, r2: LocateOutcome|
            #[trigger] locate_resumes(c, arg, c2, r2) && match r2 {
                MaildirCoroutineState::Yielded(y) => {
                    &&& post.step() == EntryCopyStep::Locate(c2)
                    &&& r == EntryCopyOutcome::Yielded(y)
                },
                MaildirCoroutineState::Complete(Err(e)) => {
                    &&& post.step() is Done
                    &&& r == EntryCopyOutcome::Complete(Err(MaildirEntryCopyError::Locate(e)))
                },
                MaildirCoroutineState::Complete(Ok(o)) => {
                    &&& post.step() matches EntryCopyStep::Mint { mint, source, subdir, flags } && mint.step() is Time
                        && source@ == o.path@ && subdir == landing_subdir(pre.target_subdir_spec(), o.subdir)
                        && flags@ == o.flags@
                    &&& r == EntryCopyOutcome::Yielded(MaildirYield::WantsTime)
                },
            },
        EntryCopyStep::Mint { mint, source, subdir, flags } => exists|m2: MaildirIdMint, r2: MintOutcome|
            #[trigger] mint_resumes(mint, arg, m2, r2) && match r2 {
                MaildirCoroutineState::Yielded(y) => {
                    &&& post.step() matches EntryCopyStep::Mint { mint: m3, source: s3, subdir: d3, flags: f3 }
                        && m3 == m2 && s3@ == source@ && d3 == subdir && f3@ == flags@
                    &&& r == EntryCopyOutcome::Yielded(y)
                },
                MaildirCoroutineState::Complete(Err(a)) => {
                    &&& post.step() is Done
                    &&& r == EntryCopyOutcome::Complete(Err(MaildirEntryCopyError::UnexpectedArg(a)))
                },
                MaildirCoroutineState::Complete(Ok(id)) => {
                    let tmp = in_subdir(target, MaildirSubdir::Tmp, id@);
                    let fin = target_path_spec(target, subdir, id@, flags@);
                    &&& post.step() matches EntryCopyStep::Copy { tmp_path, final_path } && tmp_path@ == tmp
                        && final_path@ == fin
                    &&& r matches MaildirCoroutineState::Yielded(MaildirYield::WantsCopy(v)) && pairs_view(v@)
                        == seq![(source@, tmp)]
                },
            },
        EntryCopyStep::Copy { tmp_path, final_path } => match arg {
            Some(MaildirReply::Copy) => {
                &&& post.step() is Rename
                &&& r matches MaildirCoroutineState::Yielded(MaildirYield::WantsRename(v)) && pairs_view(v@)
                    == seq![(tmp_path@, final_path@)]
            },
            _ => {
                &&& post.step() is Done
                &&& r == EntryCopyOutcome::Complete(Err(MaildirEntryCopyError::UnexpectedArg(arg)))
            },
        },
        EntryCopyStep::Rename => {
            &&& post.step() is Done
            &&& match arg {
                Some(MaildirReply::Rename) => r == EntryCopyOutcome::Complete(Ok(())),
                _ => r == EntryCopyOutcome::Complete(Err(MaildirEntryCopyError::UnexpectedArg(arg))),
            }
        },
        EntryCopyStep::Done => {
            &&& post.step() is Done
            &&& r == EntryCopyOutcome::Complete(Err(MaildirEntryCopyError::UnexpectedArg(arg)))
        },
    }
}

impl MaildirEntryCopy {
    /// The Maildir copied into.
    pub closed spec fn target_spec(&self) -> Seq<char> {
        self.target@
    }

    /// The subdir asked for, if any.
    pub closed spec fn target_subdir_spec(&self) -> Option<MaildirSubdir> {
        self.target_subdir
    }

    /// Where the machine stands.
    pub closed spec fn step(&self) -> EntryCopyStep {
        self.step
    }

    /// Builds a machine copying the entry `id` of `source` into
    /// `target`.
    pub fn new(id: &str, source: Maildir, target: Maildir, target_subdir: Option<MaildirSubdir>) -> (r: Self)
        ensures
            r.target_spec() == target@,
            r.target_subdir_spec() == target_subdir,
            r.step() matches EntryCopyStep::Locate(c) && c.maildir_spec() == source@ && c.id_spec() == id@
                && c.step() is Start,
    {
        MaildirEntryCopy { target, target_subdir, step: EntryCopyStep::Locate(MaildirEntryLocate::new(source, id)) }
    }

    /// Makes the copy progress with the caller's answer `arg`.
    pub fn resume(&mut self, arg: Option<MaildirReply>) -> (r: EntryCopyOutcome)
        ensures
            entry_copy_resumes(*old(self), arg, *final(self), r),
    {
        let mut step = EntryCopyStep::Done;
        core::mem::swap(&mut step, &mut self.step);
        match step {
            EntryCopyStep::Locate(mut c) => {
                let ghost c0 = c;
                let r2 = c.resume(arg);
                proof {
                    assert(locate_resumes(c0, arg, c, r2));
                }
                match r2 {
                    MaildirCoroutineState::Yielded(y) => {
                        self.step = EntryCopyStep::Locate(c);
                        MaildirCoroutineState::Yielded(y)
                    },
                    MaildirCoroutineState::Complete(Err(e)) => {
                        MaildirCoroutineState::Complete(Err(MaildirEntryCopyError::Locate(e)))
                    },
                    MaildirCoroutineState::Complete(Ok(o)) => {
                        let subdir = match self.target_subdir {
                            Some(s) => s,
                            None => o.subdir,
                        };
                        self.step = EntryCopyStep::Mint {
                            mint: MaildirIdMint::asked_time(),
                            source: o.path,
                            subdir,
                            flags: o.flags,
                        };
                        MaildirCoroutineState::Yielded(MaildirYield::WantsTime)
                    },
                }
            },
            EntryCopyStep::Mint { mut mint, source, subdir, flags } => {
                let ghost m0 = mint;
                let r2 = mint.resume(arg);
                proof {
                    assert(mint_resumes(m0, arg, mint, r2));
                }
                match r2 {
                    MaildirCoroutineState::Yielded(y) => {
                        self.step = EntryCopyStep::Mint { mint, source, subdir, flags };
                        MaildirCoroutineState::Yielded(y)
                    },
                    MaildirCoroutineState::Complete(Err(a)) => {
                        MaildirCoroutineState::Complete(Err(MaildirEntryCopyError::UnexpectedArg(a)))
                    },
                    MaildirCoroutineState::Complete(Ok(id)) => {
                        let tmp_path = self.target.tmp().join(id.as_str());
                        let final_path = target_path(&self.target, subdir, id.as_str(), &flags);
                        let ghost sv = source@;
                        let mut pairs: Vec<(MaildirFsPath, MaildirFsPath)> = Vec::new();
                        pairs.push((source, tmp_path.clone()));
                        proof {
                            assert(pairs_view(pairs@) =~= seq![(sv, tmp_path@)]);
                        }
                        self.step = EntryCopyStep::Copy { tmp_path, final_path };
                        MaildirCoroutineState::Yielded(MaildirYield::WantsCopy(pairs))
                    },
                }
            },
            EntryCopyStep::Copy { tmp_path, final_path } => match arg {
                Some(MaildirReply::Copy) => {
                    let ghost tv = tmp_path@;
                    let ghost fv = final_path@;
                    let mut pairs: Vec<(MaildirFsPath, MaildirFsPath)> = Vec::new();
                    pairs.push((tmp_path, final_path));
                    proof {
                        assert(pairs_view(pairs@) =~= seq![(tv, fv)]);
                    }
                    self.step = EntryCopyStep::Rename;
                    MaildirCoroutineState::Yielded(MaildirYield::WantsRename(pairs))
                },
                arg => MaildirCoroutineState::Complete(Err(MaildirEntryCopyError::UnexpectedArg(arg))),
            },
            EntryCopyStep::Rename => match arg {
                Some(MaildirReply::Rename) => MaildirCoroutineState::Complete(Ok(())),
                arg => MaildirCoroutineState::Complete(Err(MaildirEntryCopyError::UnexpectedArg(arg))),
            },
            EntryCopyStep::Done => MaildirCoroutineState::Complete(Err(MaildirEntryCopyError::UnexpectedArg(arg))),
        }
    }
}

/// Where a copy lands. The copy of an entry that the locate step finds
/// at `p` in subdir `d` with flags `f` is made, once the clock, the
/// process id and the host name are given, by copying `p` into the
/// target's `tmp` under the minted name and renaming it to an entry file
/// of the subdir asked for, or of `d` when none is: one that reads back
/// as the minted id and, in `cur`, as the flags `f`. So an unread entry
/// of `new` stays unread in `new`, and one of `cur` keeps its flags.
pub proof fn lemma_copy_lands(
    s0: MaildirEntryCopy,
    arg0: Option<MaildirReply>,
    s1: MaildirEntryCopy,
    r1: EntryCopyOutcome,
    secs: u64,
    nanos: u32,
    counter: u32,
    s2: MaildirEntryCopy,
    r2: EntryCopyOutcome,
    pid: u32,
    s3: MaildirEntryCopy,
    r3: EntryCopyOutcome,
    host: String,
    s4: MaildirEntryCopy,
    r4: EntryCopyOutcome,
    s5: MaildirEntryCopy,
    r5: EntryCopyOutcome,
    p: Seq<char>,
    d: MaildirSubdir,
    f: crate::flag::FlagsView,
)
    requires
        s0.step() matches EntryCopyStep::Locate(c) && forall|c2: MaildirEntryLocate, q2: LocateOutcome|
            #[trigger] locate_resumes(c, arg0, c2, q2) ==> (q2 matches MaildirCoroutineState::Complete(Ok(o)) && o.path@ == p
                && o.subdir == d && o.flags@ == f),
        crate::flag::flags_wf(f),
        crate::flag::plain_letters(f.letters),
        forall|x: crate::flag::FlagView| #[trigger] f.flags.contains(x) ==> !(x is Keyword),
        !host@.contains('/'),
        entry_copy_resumes(s0, arg0, s1, r1),
        entry_copy_resumes(s1, Some(MaildirReply::Time { secs, nanos, counter }), s2, r2),
        entry_copy_resumes(s2, Some(MaildirReply::Pid(pid)), s3, r3),
        entry_copy_resumes(s3, Some(MaildirReply::Hostname(host)), s4, r4),
        entry_copy_resumes(s4, Some(MaildirReply::Copy), s5, r5),
    ensures
        r4 matches MaildirCoroutineState::Yielded(MaildirYield::WantsCopy(v)) && pairs_view(v@) == seq![
            (p, in_subdir(s0.target_spec(), MaildirSubdir::Tmp, crate::entry::mint_id_spec(secs, nanos, counter, pid, host@))),
        ],
        r5 matches MaildirCoroutineState::Yielded(MaildirYield::WantsRename(v)) && pairs_view(v@).len() == 1
            && pairs_view(v@)[0].0 == in_subdir(s0.target_spec(), MaildirSubdir::Tmp, crate::entry::mint_id_spec(secs, nanos, counter, pid, host@))
            && crate::entry::delivered_as(
            pairs_view(v@)[0].1,
            s0.target_spec(),
            match s0.target_subdir_spec() {
                Some(asked) => asked,
                None => d,
            },
            crate::entry::mint_id_spec(secs, nanos, counter, pid, host@),
            f,
        ),
{
    let id = crate::entry::mint_id_spec(secs, nanos, counter, pid, host@);
    crate::entry::lemma_mint_lacks_slash(secs, nanos, counter, pid, host@);
    let landing = match s0.target_subdir_spec() {
        Some(asked) => asked,
        None => d,
    };
    crate::entry::lemma_target_delivers(s0.target_spec(), landing, id, f);
    assert(s1.step() matches EntryCopyStep::Mint { mint, source, subdir, flags } && mint.step() is Time && source@ == p
        && subdir == landing && flags@ == f);
    assert(s2.step() matches EntryCopyStep::Mint { mint, source, subdir, flags } && mint.step() == crate::entry::mint::MintStep::Pid {
        secs,
        nanos,
        counter,
    } && source@ == p && subdir == landing && flags@ == f);
    assert(s3.step() matches EntryCopyStep::Mint { mint, source, subdir, flags } && mint.step() == crate::entry::mint::MintStep::Hostname {
        secs,
        nanos,
        counter,
        pid,
    } && source@ == p && subdir == landing && flags@ == f);
}

} // verus!
