//! State machine replacing the flags of a Maildir entry.

use vstd::prelude::*;

use crate::coroutine::{pairs_view, MaildirCoroutineState, MaildirReply, MaildirYield};
use crate::entry::locate::{locate_resumes, LocateOutcome, MaildirEntryLocate, MaildirEntryLocateError};
use crate::flag::{cur_name, cur_name_spec, flags_empty, FlagsView, MaildirFlags};
use crate::maildir::{subdir_name_spec, Maildir, MaildirSubdir};
use crate::path::{join_spec, MaildirFsPath};

verus! {

/// Failure causes during a [`MaildirFlagsSet`] step.
#[derive(Debug)]
pub enum MaildirFlagsSetError {
    /// A reply arrived that does not match the awaited step.
    UnexpectedArg(Option<MaildirReply>),
    /// The inner locate step failed.
    Locate(MaildirEntryLocateError),
}

/// Where a [`MaildirFlagsSet`] stands.
#[derive(Debug)]
pub enum FlagsSetStep {
    /// Locating the entry.
    Locate(MaildirEntryLocate),
    /// Waiting for the rename that writes the new flags.
    Rename,
    /// Finished; any further reply is unexpected.
    Done,
}

/// What one step of [`MaildirFlagsSet`] gives.
pub type FlagsSetOutcome = MaildirCoroutineState<MaildirYield, Result<(), MaildirFlagsSetError>>;

/// Replaces the flags of a Maildir entry.
///
/// An entry in `cur` is renamed with the new flag set. One in `new`
/// moves to `cur` as it gains its first flag, since a name in `new`
/// carries no info section to hold one. Setting no flag leaves it where
/// it is, and an entry in `tmp` is never touched, being another
/// process's delivery in flight.
#[derive(Debug)]
pub struct MaildirFlagsSet {
    maildir: Maildir,
    id: String,
    flags: MaildirFlags,
    step: FlagsSetStep,
}

/// One step of [`MaildirFlagsSet`] from `pre` on `arg` leads to `post`
/// and gives `r`.
pub open spec fn flags_set_resumes(
    pre: MaildirFlagsSet,
    arg: Option<MaildirReply>,
    post: MaildirFlagsSet,
    r: FlagsSetOutcome,
) -> bool {
    &&& post.maildir_spec() == pre.maildir_spec()
    &&& post.id_spec() == pre.id_spec()
    &&& post.flags_spec() == pre.flags_spec()
    &&& match pre.step() {
        FlagsSetStep::Locate(c) => exists|c2: MaildirEntryLocate, r2: LocateOutcome|
            #[trigger] locate_resumes(c, arg, c2, r2) && match r2 {
                MaildirCoroutineState::Yielded(y) => {
                    &&& post.step() == FlagsSetStep::Locate(c2)
                    &&& r == FlagsSetOutcome::Yielded(y)
                },
                MaildirCoroutineState::Complete(Err(e)) => {
                    &&& post.step() is Done
                    &&& r == FlagsSetOutcome::Complete(Err(MaildirFlagsSetError::Locate(e)))
                },
                MaildirCoroutineState::Complete(Ok(o)) => {
                    if o.subdir == MaildirSubdir::Tmp || (o.subdir == MaildirSubdir::New && flags_empty(
                        pre.flags_spec(),
                    )) {
                        &&& post.step() is Done
                        &&& r == FlagsSetOutcome::Complete(Ok(()))
                    } else {
                        &&& post.step() is Rename
                        &&& r matches MaildirCoroutineState::Yielded(MaildirYield::WantsRename(v))
                            && pairs_view(v@) == seq![
                            (
                                o.path@,
                                join_spec(
                                    join_spec(pre.maildir_spec(), subdir_name_spec(MaildirSubdir::Cur)),
                                    cur_name_spec(pre.id_spec(), pre.flags_spec()),
                                ),
                            ),
                        ]
                    }
                },
            },
        FlagsSetStep::Rename => {
            &&& post.step() is Done
            &&& match arg {
                Some(MaildirReply::Rename) => r == FlagsSetOutcome::Complete(Ok(())),
                _ => r == FlagsSetOutcome::Complete(Err(MaildirFlagsSetError::UnexpectedArg(arg))),
            }
        },
        FlagsSetStep::Done => {
            &&& post.step() is Done
            &&& r == FlagsSetOutcome::Complete(Err(MaildirFlagsSetError::UnexpectedArg(arg)))
        },
    }
}

impl MaildirFlagsSet {
    /// The Maildir holding the entry.
    pub closed spec fn maildir_spec(&self) -> Seq<char> {
        self.maildir@
    }

    /// The id of the entry.
    pub closed spec fn id_spec(&self) -> Seq<char> {
        self.id@
    }

    /// The flags to write.
    pub closed spec fn flags_spec(&self) -> FlagsView {
        self.flags@
    }

    /// Where the machine stands.
    pub closed spec fn step(&self) -> FlagsSetStep {
        self.step
    }

    /// Builds a machine giving the entry `id` of `maildir` exactly `flags`.
    pub fn new(maildir: Maildir, id: &str, flags: MaildirFlags) -> (r: Self)
        ensures
            r.maildir_spec() == maildir@,
            r.id_spec() == id@,
            r.flags_spec() == flags@,
            r.step() matches FlagsSetStep::Locate(c) && c.maildir_spec() == maildir@ && c.id_spec() == id@
                && c.step() is Start,
    {
        let locate = MaildirEntryLocate::new(maildir.clone(), id);
        MaildirFlagsSet { maildir, id: id.to_owned(), flags, step: FlagsSetStep::Locate(locate) }
    }

    /// Makes the flag write progress with the caller's answer `arg`.
    pub fn resume(&mut self, arg: Option<MaildirReply>) -> (r: FlagsSetOutcome)
        ensures
            flags_set_resumes(*old(self), arg, *final(self), r),
    {
        let mut step = FlagsSetStep::Done;
        core::mem::swap(&mut step, &mut self.step);
        match step {
            FlagsSetStep::Locate(mut c) => {
                let ghost c0 = c;
                let r2 = c.resume(arg);
                proof {
                    assert(locate_resumes(c0, arg, c, r2));
                }
                match r2 {
                    MaildirCoroutineState::Yielded(y) => {
                        self.step = FlagsSetStep::Locate(c);
                        MaildirCoroutineState::Yielded(y)
                    },
                    MaildirCoroutineState::Complete(Err(e)) => {
                        MaildirCoroutineState::Complete(Err(MaildirFlagsSetError::Locate(e)))
                    },
                    MaildirCoroutineState::Complete(Ok(o)) => {
                        let skip = match o.subdir {
                            MaildirSubdir::Tmp => true,
                            MaildirSubdir::New => self.flags.is_empty(),
                            MaildirSubdir::Cur => false,
                        };
                        if skip {
                            MaildirCoroutineState::Complete(Ok(()))
                        } else {
                            let name = cur_name(self.id.as_str(), &self.flags);
                            let target = self.maildir.cur().join(name.as_str());
                            let ghost opath = o.path@;
                            let mut pairs: Vec<(MaildirFsPath, MaildirFsPath)> = Vec::new();
                            pairs.push((o.path, target));
                            proof {
                                assert(pairs_view(pairs@) =~= seq![(opath, target@)]);
                            }
                            self.step = FlagsSetStep::Rename;
                            MaildirCoroutineState::Yielded(MaildirYield::WantsRename(pairs))
                        }
                    },
                }
            },
            FlagsSetStep::Rename => match arg {
                Some(MaildirReply::Rename) => MaildirCoroutineState::Complete(Ok(())),
                arg => MaildirCoroutineState::Complete(Err(MaildirFlagsSetError::UnexpectedArg(arg))),
            },
            FlagsSetStep::Done => MaildirCoroutineState::Complete(Err(MaildirFlagsSetError::UnexpectedArg(arg))),
        }
    }
}

/// Setting the flags of an entry of `cur` always rewrites its name, and
/// one of `new` gaining a flag moves to `cur`. When the locate step finds
/// the entry at `p` in subdir `d`, `cur`, or `new` with some flag
/// requested, the step asks for exactly one rename, from `p` to a file
/// of the Maildir's `cur` whose name reads back as the entry's id and as
/// the requested flags, keywords aside: setting the empty set on an
/// entry of `cur` clears every flag.
pub proof fn lemma_set_rewrites_cur_entry(
    pre: MaildirFlagsSet,
    arg: Option<MaildirReply>,
    post: MaildirFlagsSet,
    r: FlagsSetOutcome,
    p: Seq<char>,
    d: MaildirSubdir,
)
    requires
        pre.step() matches FlagsSetStep::Locate(c) && forall|c2: MaildirEntryLocate, q2: LocateOutcome|
            #[trigger] locate_resumes(c, arg, c2, q2) ==> (q2 matches MaildirCoroutineState::Complete(Ok(o)) && o.path@ == p
                && o.subdir == d),
        d == MaildirSubdir::Cur || (d == MaildirSubdir::New && !flags_empty(pre.flags_spec())),
        !pre.id_spec().contains('/'),
        crate::flag::plain_letters(pre.flags_spec().letters),
        flags_set_resumes(pre, arg, post, r),
    ensures
        r matches MaildirCoroutineState::Yielded(MaildirYield::WantsRename(v)) && pairs_view(v@).len() == 1
            && pairs_view(v@)[0].0 == p && (exists|n: Seq<char>|
            pairs_view(v@)[0].1 == join_spec(join_spec(pre.maildir_spec(), subdir_name_spec(MaildirSubdir::Cur)), n))
            && crate::entry::entry_id_spec(pairs_view(v@)[0].1) == Some(pre.id_spec())
            && crate::flag::reads_back_as(pairs_view(v@)[0].1, pre.flags_spec()),
{
    let dir = join_spec(pre.maildir_spec(), subdir_name_spec(MaildirSubdir::Cur));
    crate::flag::lemma_cur_name_reads_back(dir, pre.id_spec(), pre.flags_spec());
    crate::entry::lemma_cur_name_keeps_id(dir, pre.id_spec(), pre.flags_spec());
    assert(join_spec(dir, cur_name_spec(pre.id_spec(), pre.flags_spec())) == join_spec(dir, cur_name_spec(
        pre.id_spec(),
        pre.flags_spec(),
    )));
}

/// Setting flags leaves some entries alone: when the locate step finds
/// the entry in `tmp`, another process's delivery in flight, or in `new`
/// with no flag requested, the step completes at once and asks for no
/// rename.
pub proof fn lemma_set_leaves_alone(
    pre: MaildirFlagsSet,
    arg: Option<MaildirReply>,
    post: MaildirFlagsSet,
    r: FlagsSetOutcome,
    d: MaildirSubdir,
)
    requires
        pre.step() matches FlagsSetStep::Locate(c) && forall|c2: MaildirEntryLocate, q2: LocateOutcome|
            #[trigger] locate_resumes(c, arg, c2, q2) ==> (q2 matches MaildirCoroutineState::Complete(Ok(o)) && o.subdir == d),
        d == MaildirSubdir::Tmp || (d == MaildirSubdir::New && pre.flags_spec().flags.len() == 0
            && pre.flags_spec().letters.len() == 0),
        flags_set_resumes(pre, arg, post, r),
    ensures
        r == FlagsSetOutcome::Complete(Ok(())),
        post.step() is Done,
{
}

} // verus!
