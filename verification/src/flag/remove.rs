//! State machine removing flags from a Maildir entry.

use vstd::prelude::*;

use crate::coroutine::{pairs_view, MaildirCoroutineState, MaildirReply, MaildirYield};
use crate::entry::locate::{locate_resumes, LocateOutcome, MaildirEntryLocate, MaildirEntryLocateError};
use crate::flag::{cur_name, cur_name_spec, lemma_minus_spec, minus_spec, FlagsView, MaildirFlags};
use crate::maildir::{Maildir, MaildirSubdir};
use crate::path::{with_file_name_spec, MaildirFsPath};

verus! {

/// Failure causes during a [`MaildirFlagsRemove`] step.
#[derive(Debug)]
pub enum MaildirFlagsRemoveError {
    /// A reply arrived that does not match the awaited step.
    UnexpectedArg(Option<MaildirReply>),
    /// The inner locate step failed.
    Locate(MaildirEntryLocateError),
}

/// Where a [`MaildirFlagsRemove`] stands.
#[derive(Debug)]
pub enum FlagsRemoveStep {
    /// Locating the entry.
    Locate(MaildirEntryLocate),
    /// Waiting for the rename that writes the new flags.
    Rename,
    /// Finished; any further reply is unexpected.
    Done,
}

/// What one step of [`MaildirFlagsRemove`] gives.
pub type FlagsRemoveOutcome = MaildirCoroutineState<MaildirYield, Result<(), MaildirFlagsRemoveError>>;

/// Removes flags from a Maildir entry.
///
/// An entry in `cur` is renamed with what remains of its flag set. An
/// entry in `new` carries no flag, so removing leaves it where it is,
/// unread; one in `tmp` is another process's delivery in flight and is
/// never touched.
#[derive(Debug)]
pub struct MaildirFlagsRemove {
    maildir: Maildir,
    id: String,
    flags: MaildirFlags,
    step: FlagsRemoveStep,
}

/// One step of [`MaildirFlagsRemove`] from `pre` on `arg` leads to `post`
/// and gives `r`.
pub open spec fn flags_remove_resumes(
    pre: MaildirFlagsRemove,
    arg: Option<MaildirReply>,
    post: MaildirFlagsRemove,
    r: FlagsRemoveOutcome,
) -> bool {
    &&& post.maildir_spec() == pre.maildir_spec()
    &&& post.id_spec() == pre.id_spec()
    &&& post.flags_spec() == pre.flags_spec()
    &&& match pre.step() {
        FlagsRemoveStep::Locate(c) => exists|c2: MaildirEntryLocate, r2: LocateOutcome|
            #[trigger] locate_resumes(c, arg, c2, r2) && match r2 {
                MaildirCoroutineState::Yielded(y) => {
                    &&& post.step() == FlagsRemoveStep::Locate(c2)
                    &&& r == FlagsRemoveOutcome::Yielded(y)
                },
                MaildirCoroutineState::Complete(Err(e)) => {
                    &&& post.step() is Done
                    &&& r == FlagsRemoveOutcome::Complete(Err(MaildirFlagsRemoveError::Locate(e)))
                },
                MaildirCoroutineState::Complete(Ok(o)) => {
                    if o.subdir != MaildirSubdir::Cur {
                        &&& post.step() is Done
                        &&& r == FlagsRemoveOutcome::Complete(Ok(()))
                    } else {
                        &&& post.step() is Rename
                        &&& r matches MaildirCoroutineState::Yielded(MaildirYield::WantsRename(v))
                            && pairs_view(v@) == seq![
                            (
                                o.path@,
                                with_file_name_spec(
                                    o.path@,
                                    cur_name_spec(pre.id_spec(), minus_spec(o.flags@, pre.flags_spec())),
                                ),
                            ),
                        ]
                    }
                },
            },
        FlagsRemoveStep::Rename => {
            &&& post.step() is Done
            &&& match arg {
                Some(MaildirReply::Rename) => r == FlagsRemoveOutcome::Complete(Ok(())),
                _ => r == FlagsRemoveOutcome::Complete(Err(MaildirFlagsRemoveError::UnexpectedArg(arg))),
            }
        },
        FlagsRemoveStep::Done => {
            &&& post.step() is Done
            &&& r == FlagsRemoveOutcome::Complete(Err(MaildirFlagsRemoveError::UnexpectedArg(arg)))
        },
    }
}

impl MaildirFlagsRemove {
    /// The Maildir holding the entry.
    pub closed spec fn maildir_spec(&self) -> Seq<char> {
        self.maildir@
    }

    /// The id of the entry.
    pub closed spec fn id_spec(&self) -> Seq<char> {
        self.id@
    }

    /// The flags to remove.
    pub closed spec fn flags_spec(&self) -> FlagsView {
        self.flags@
    }

    /// Where the machine stands.
    pub closed spec fn step(&self) -> FlagsRemoveStep {
        self.step
    }

    /// Builds a machine removing `flags` from the entry `id` of `maildir`.
    pub fn new(maildir: Maildir, id: &str, flags: MaildirFlags) -> (r: Self)
        ensures
            r.maildir_spec() == maildir@,
            r.id_spec() == id@,
            r.flags_spec() == flags@,
            r.step() matches FlagsRemoveStep::Locate(c) && c.maildir_spec() == maildir@ && c.id_spec() == id@
                && c.step() is Start,
    {
        let locate = MaildirEntryLocate::new(maildir.clone(), id);
        MaildirFlagsRemove { maildir, id: id.to_owned(), flags, step: FlagsRemoveStep::Locate(locate) }
    }

    /// Makes the flag write progress with the caller's answer `arg`.
    pub fn resume(&mut self, arg: Option<MaildirReply>) -> (r: FlagsRemoveOutcome)
        ensures
            flags_remove_resumes(*old(self), arg, *final(self), r),
    {
        let mut step = FlagsRemoveStep::Done;
        core::mem::swap(&mut step, &mut self.step);
        match step {
            FlagsRemoveStep::Locate(mut c) => {
                let ghost c0 = c;
                let r2 = c.resume(arg);
                proof {
                    assert(locate_resumes(c0, arg, c, r2));
                }
                match r2 {
                    MaildirCoroutineState::Yielded(y) => {
                        self.step = FlagsRemoveStep::Locate(c);
                        MaildirCoroutineState::Yielded(y)
                    },
                    MaildirCoroutineState::Complete(Err(e)) => {
                        MaildirCoroutineState::Complete(Err(MaildirFlagsRemoveError::Locate(e)))
                    },
                    MaildirCoroutineState::Complete(Ok(o)) => {
                        match o.subdir {
                            MaildirSubdir::Cur => {
                                let ghost before = o.flags@;
                                let mut kept = o.flags;
                                kept.difference(&self.flags);
                                proof {
                                    lemma_minus_spec(kept@, before, self.flags@);
                                }
                                let name = cur_name(self.id.as_str(), &kept);
                                let target = o.path.with_file_name(name.as_str());
                                let ghost opath = o.path@;
                                let mut pairs: Vec<(MaildirFsPath, MaildirFsPath)> = Vec::new();
                                pairs.push((o.path, target));
                                proof {
                                    assert(pairs_view(pairs@) =~= seq![(opath, target@)]);
                                }
                                self.step = FlagsRemoveStep::Rename;
                                MaildirCoroutineState::Yielded(MaildirYield::WantsRename(pairs))
                            },
                            _ => MaildirCoroutineState::Complete(Ok(())),
                        }
                    },
                }
            },
            FlagsRemoveStep::Rename => match arg {
                Some(MaildirReply::Rename) => MaildirCoroutineState::Complete(Ok(())),
                arg => MaildirCoroutineState::Complete(Err(MaildirFlagsRemoveError::UnexpectedArg(arg))),
            },
            FlagsRemoveStep::Done => MaildirCoroutineState::Complete(Err(MaildirFlagsRemoveError::UnexpectedArg(arg))),
        }
    }
}

/// Removing flags from an entry of `cur` always rewrites its name, even
/// when no flag is left. When the locate step finds the entry at `p` in
/// `cur` with the flags its name carries, the step asks for exactly one
/// rename, from `p` to a file of the same directory whose name reads
/// back as the entry's id and as the flags of `p` but those removed.
pub proof fn lemma_remove_rewrites_cur_entry(
    pre: MaildirFlagsRemove,
    arg: Option<MaildirReply>,
    post: MaildirFlagsRemove,
    r: FlagsRemoveOutcome,
    p: Seq<char>,
    fo: FlagsView,
)
    requires
        pre.step() matches FlagsRemoveStep::Locate(c) && forall|c2: MaildirEntryLocate, q2: LocateOutcome|
            #[trigger] locate_resumes(c, arg, c2, q2) ==> (q2 matches MaildirCoroutineState::Complete(Ok(o)) && o.path@ == p
                && o.subdir == MaildirSubdir::Cur && o.flags@ == fo),
        crate::flag::parsed_flags(fo, p),
        !pre.id_spec().contains('/'),
        flags_remove_resumes(pre, arg, post, r),
    ensures
        r matches MaildirCoroutineState::Yielded(MaildirYield::WantsRename(v)) && pairs_view(v@).len() == 1
            && pairs_view(v@)[0].0 == p && (exists|n: Seq<char>| pairs_view(v@)[0].1 == with_file_name_spec(p, n))
            && crate::entry::entry_id_spec(pairs_view(v@)[0].1) == Some(pre.id_spec()) && forall|g: FlagsView|
            #[trigger] crate::flag::parsed_flags(g, pairs_view(v@)[0].1) ==> {
                &&& forall|x: crate::flag::FlagView| #[trigger] g.flags.contains(x) <==> (crate::flag::names_flag(
                    crate::flag::entry_letters_spec(p),
                    x,
                ) && !pre.flags_spec().flags.contains(x))
                &&& forall|ch: char| #[trigger] g.letters.contains(ch) <==> (crate::flag::extra_letter(
                    crate::flag::entry_letters_spec(p),
                    ch,
                ) && !pre.flags_spec().letters.contains(ch))
            },
{
    let rm = pre.flags_spec();
    let kept = minus_spec(fo, rm);
    crate::flag::lemma_minus_exists(fo, rm);
    crate::flag::lemma_parsed_letters_plain(fo, p, kept.letters);
    let dir = match crate::path::parent_spec(p) {
        Some(par) => par,
        None => Seq::<char>::empty(),
    };
    let name = cur_name_spec(pre.id_spec(), kept);
    let t = with_file_name_spec(p, name);
    assert(t == crate::path::join_spec(dir, name));
    crate::flag::lemma_render_then_parse(dir, pre.id_spec(), kept);
    crate::entry::lemma_cur_name_keeps_id(dir, pre.id_spec(), kept);
    let lp = crate::flag::entry_letters_spec(p);
    let lt = crate::flag::entry_letters_spec(t);
    assert forall|g: FlagsView| #[trigger] crate::flag::parsed_flags(g, t) implies {
        &&& forall|x: crate::flag::FlagView| #[trigger] g.flags.contains(x) <==> (crate::flag::names_flag(lp, x)
            && !rm.flags.contains(x))
        &&& forall|ch: char| #[trigger] g.letters.contains(ch) <==> (crate::flag::extra_letter(lp, ch)
            && !rm.letters.contains(ch))
    } by {
        assert forall|x: crate::flag::FlagView| #[trigger] g.flags.contains(x) <==> (crate::flag::names_flag(lp, x)
            && !rm.flags.contains(x)) by {
            assert(g.flags.contains(x) <==> crate::flag::names_flag(lt, x));
            assert(crate::flag::names_flag(lt, x) <==> (kept.flags.contains(x) && !(x is Keyword)));
            assert(kept.flags.contains(x) <==> (fo.flags.contains(x) && !rm.flags.contains(x)));
            assert(fo.flags.contains(x) <==> crate::flag::names_flag(lp, x));
            if crate::flag::names_flag(lp, x) {
                let i = choose|i: int| 0 <= i < lp.len() && crate::flag::flag_from_char(lp[i]) == Some(x);
                assert(!(x is Keyword));
            }
        }
        assert forall|ch: char| #[trigger] g.letters.contains(ch) <==> (crate::flag::extra_letter(lp, ch)
            && !rm.letters.contains(ch)) by {
            assert(g.letters.contains(ch) <==> crate::flag::extra_letter(lt, ch));
            assert(kept.letters.contains(ch) <==> (fo.letters.contains(ch) && !rm.letters.contains(ch)));
            assert(fo.letters.contains(ch) <==> crate::flag::extra_letter(lp, ch));
        }
    }
}

/// Removing flags leaves entries outside `cur` alone: one of `new`
/// carries no flag, and one of `tmp` is another process's delivery in
/// flight. When the locate step finds the entry there, the step
/// completes at once and asks for no rename.
pub proof fn lemma_remove_leaves_alone(
    pre: MaildirFlagsRemove,
    arg: Option<MaildirReply>,
    post: MaildirFlagsRemove,
    r: FlagsRemoveOutcome,
    d: MaildirSubdir,
)
    requires
        pre.step() matches FlagsRemoveStep::Locate(c) && forall|c2: MaildirEntryLocate, q2: LocateOutcome|
            #[trigger] locate_resumes(c, arg, c2, q2) ==> (q2 matches MaildirCoroutineState::Complete(Ok(o)) && o.subdir == d),
        d == MaildirSubdir::New || d == MaildirSubdir::Tmp,
        flags_remove_resumes(pre, arg, post, r),
    ensures
        r == FlagsRemoveOutcome::Complete(Ok(())),
        post.step() is Done,
{
}

} // verus!
