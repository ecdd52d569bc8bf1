//! State machine adding flags to a Maildir entry.

use vstd::prelude::*;

use crate::coroutine::{pairs_view, MaildirCoroutineState, MaildirReply, MaildirYield};
use crate::entry::locate::{locate_resumes, LocateOutcome, MaildirEntryLocate, MaildirEntryLocateError};
use crate::flag::{cur_name, cur_name_spec, flags_empty, lemma_union_spec, union_spec, FlagsView, MaildirFlags};
use crate::maildir::{subdir_name_spec, Maildir, MaildirSubdir};
use crate::path::{join_spec, with_file_name_spec, MaildirFsPath};

verus! {

/// Failure causes during a [`MaildirFlagsAdd`] step.
#[derive(Debug)]
pub enum MaildirFlagsAddError {
    /// A reply arrived that does not match the awaited step.
    UnexpectedArg(Option<MaildirReply>),
    /// The inner locate step failed.
    Locate(MaildirEntryLocateError),
}

/// Where a [`MaildirFlagsAdd`] stands.
#[derive(Debug)]
pub enum FlagsAddStep {
    /// Locating the entry.
    Locate(MaildirEntryLocate),
    /// Waiting for the rename that writes the new flags.
    Rename,
    /// Finished; any further reply is unexpected.
    Done,
}

/// What one step of [`MaildirFlagsAdd`] gives.
pub type FlagsAddOutcome = MaildirCoroutineState<MaildirYield, Result<(), MaildirFlagsAddError>>;

/// Adds flags to a Maildir entry.
///
/// An entry in `cur` is renamed with the merged flag set. One in `new`
/// moves to `cur` as it gains its first flag, since a name in `new`
/// carries no info section to hold one; adding nothing leaves it where
/// it is. An entry in `tmp` is another process's delivery in flight
/// and is never touched.
#[derive(Debug)]
pub struct MaildirFlagsAdd {
    maildir: Maildir,
    id: String,
    flags: MaildirFlags,
    step: FlagsAddStep,
}

/// The path an entry found at `path` in `subdir` takes once it carries
/// `f`: in `cur` it is renamed in place, from `new` it moves to `cur`.
pub open spec fn flagged_path(
    root: Seq<char>,
    path: Seq<char>,
    subdir: MaildirSubdir,
    id: Seq<char>,
    f: FlagsView,
) -> Seq<char> {
    if subdir == MaildirSubdir::Cur {
        with_file_name_spec(path, cur_name_spec(id, f))
    } else {
        join_spec(join_spec(root, subdir_name_spec(MaildirSubdir::Cur)), cur_name_spec(id, f))
    }
}

/// One step of [`MaildirFlagsAdd`] from `pre` on `arg` leads to `post`
/// and gives `r`.
pub open spec fn flags_add_resumes(
    pre: MaildirFlagsAdd,
    arg: Option<MaildirReply>,
    post: MaildirFlagsAdd,
    r: FlagsAddOutcome,
) -> bool {
    &&& post.maildir_spec() == pre.maildir_spec()
    &&& post.id_spec() == pre.id_spec()
    &&& post.flags_spec() == pre.flags_spec()
    &&& match pre.step() {
        FlagsAddStep::Locate(c) => exists|c2: MaildirEntryLocate, r2: LocateOutcome|
            #[trigger] locate_resumes(c, arg, c2, r2) && match r2 {
                MaildirCoroutineState::Yielded(y) => {
                    &&& post.step() == FlagsAddStep::Locate(c2)
                    &&& r == FlagsAddOutcome::Yielded(y)
                },
                MaildirCoroutineState::Complete(Err(e)) => {
                    &&& post.step() is Done
                    &&& r == FlagsAddOutcome::Complete(Err(MaildirFlagsAddError::Locate(e)))
                },
                MaildirCoroutineState::Complete(Ok(o)) => {
                    if o.subdir == MaildirSubdir::Tmp || (o.subdir == MaildirSubdir::New && flags_empty(
                        pre.flags_spec(),
                    )) {
                        &&& post.step() is Done
                        &&& r == FlagsAddOutcome::Complete(Ok(()))
                    } else {
                        &&& post.step() is Rename
                        &&& r matches MaildirCoroutineState::Yielded(MaildirYield::WantsRename(v))
                            && pairs_view(v@) == seq![
                            (
                                o.path@,
                                flagged_path(
                                    pre.maildir_spec(),
                                    o.path@,
                                    o.subdir,
                                    pre.id_spec(),
                                    union_spec(o.flags@, pre.flags_spec()),
                                ),
                            ),
                        ]
                    }
                },
            },
        FlagsAddStep::Rename => {
            &&& post.step() is Done
            &&& match arg {
                Some(MaildirReply::Rename) => r == FlagsAddOutcome::Complete(Ok(())),
                _ => r == FlagsAddOutcome::Complete(Err(MaildirFlagsAddError::UnexpectedArg(arg))),
            }
        },
        FlagsAddStep::Done => {
            &&& post.step() is Done
            &&& r == FlagsAddOutcome::Complete(Err(MaildirFlagsAddError::UnexpectedArg(arg)))
        },
    }
}

impl MaildirFlagsAdd {
    /// The Maildir holding the entry.
    pub closed spec fn maildir_spec(&self) -> Seq<char> {
        self.maildir@
    }

    /// The id of the entry.
    pub closed spec fn id_spec(&self) -> Seq<char> {
        self.id@
    }

    /// The flags to add.
    pub closed spec fn flags_spec(&self) -> FlagsView {
        self.flags@
    }

    /// Where the machine stands.
    pub closed spec fn step(&self) -> FlagsAddStep {
        self.step
    }

    /// Builds a machine adding `flags` to the entry `id` of `maildir`.
    pub fn new(maildir: Maildir, id: &str, flags: MaildirFlags) -> (r: Self)
        ensures
            r.maildir_spec() == maildir@,
            r.id_spec() == id@,
            r.flags_spec() == flags@,
            r.step() matches FlagsAddStep::Locate(c) && c.maildir_spec() == maildir@ && c.id_spec() == id@
                && c.step() is Start,
    {
        let locate = MaildirEntryLocate::new(maildir.clone(), id);
        MaildirFlagsAdd { maildir, id: id.to_owned(), flags, step: FlagsAddStep::Locate(locate) }
    }

    /// Makes the flag write progress with the caller's answer `arg`.
    pub fn resume(&mut self, arg: Option<MaildirReply>) -> (r: FlagsAddOutcome)
        ensures
            flags_add_resumes(*old(self), arg, *final(self), r),
    {
        let mut step = FlagsAddStep::Done;
        core::mem::swap(&mut step, &mut self.step);
        match step {
            FlagsAddStep::Locate(mut c) => {
                let ghost c0 = c;
                let r2 = c.resume(arg);
                proof {
                    assert(locate_resumes(c0, arg, c, r2));
                }
                match r2 {
                    MaildirCoroutineState::Yielded(y) => {
                        self.step = FlagsAddStep::Locate(c);
                        MaildirCoroutineState::Yielded(y)
                    },
                    MaildirCoroutineState::Complete(Err(e)) => {
                        MaildirCoroutineState::Complete(Err(MaildirFlagsAddError::Locate(e)))
                    },
                    MaildirCoroutineState::Complete(Ok(o)) => {
                        let skip = match o.subdir {
                            MaildirSubdir::Tmp => true,
                            MaildirSubdir::New => self.flags.is_empty(),
                            MaildirSubdir::Cur => false,
                        };
                        if skip {
                            MaildirCoroutineState::Complete(Ok(()))
                        } else {
                            let ghost before = o.flags@;
                            let mut merged = o.flags;
                            let extra = self.flags.clone();
                            merged.extend(extra);
                            proof {
                                lemma_union_spec(merged@, before, self.flags@);
                            }
                            let name = cur_name(self.id.as_str(), &merged);
                            let target = match o.subdir {
                                MaildirSubdir::Cur => o.path.with_file_name(name.as_str()),
                                _ => self.maildir.cur().join(name.as_str()),
                            };
                            let ghost opath = o.path@;
                            let ghost to = flagged_path(self.maildir@, opath, o.subdir, self.id@, merged@);
                            assert(target@ == to);
                            let mut pairs: Vec<(MaildirFsPath, MaildirFsPath)> = Vec::new();
                            pairs.push((o.path, target));
                            proof {
                                assert(pairs_view(pairs@) =~= seq![(opath, to)]);
                            }
                            self.step = FlagsAddStep::Rename;
                            let res = MaildirCoroutineState::Yielded(MaildirYield::WantsRename(pairs));
                            res
                        }
                    },
                }
            },
            FlagsAddStep::Rename => match arg {
                Some(MaildirReply::Rename) => MaildirCoroutineState::Complete(Ok(())),
                arg => MaildirCoroutineState::Complete(Err(MaildirFlagsAddError::UnexpectedArg(arg))),
            },
            FlagsAddStep::Done => MaildirCoroutineState::Complete(Err(MaildirFlagsAddError::UnexpectedArg(arg))),
        }
    }
}

/// Adding flags rewrites the entry's name with the flags it had and
/// those added. When the locate step finds the entry at `p` in `cur`,
/// or in `new` with some flag asked for, with the flags its name
/// carries, the step asks for exactly one rename, from `p` to a file of
/// the same directory (from `cur`) or of the Maildir's `cur` (from
/// `new`), whose name reads back as the entry's id and as the flags of
/// `p` with those added, keywords aside.
pub proof fn lemma_add_rewrites_entry(
    pre: MaildirFlagsAdd,
    arg: Option<MaildirReply>,
    post: MaildirFlagsAdd,
    r: FlagsAddOutcome,
    p: Seq<char>,
    d: MaildirSubdir,
    fo: FlagsView,
)
    requires
        pre.step() matches FlagsAddStep::Locate(c) && forall|c2: MaildirEntryLocate, q2: LocateOutcome|
            #[trigger] locate_resumes(c, arg, c2, q2) ==> (q2 matches MaildirCoroutineState::Complete(Ok(o)) && o.path@ == p
                && o.subdir == d && o.flags@ == fo),
        d == MaildirSubdir::Cur || (d == MaildirSubdir::New && !flags_empty(pre.flags_spec())),
        crate::flag::parsed_flags(fo, p),
        crate::flag::plain_letters(pre.flags_spec().letters),
        !pre.id_spec().contains('/'),
        flags_add_resumes(pre, arg, post, r),
    ensures
        r matches MaildirCoroutineState::Yielded(MaildirYield::WantsRename(v)) && pairs_view(v@).len() == 1
            && pairs_view(v@)[0].0 == p && (d == MaildirSubdir::Cur ==> exists|n: Seq<char>| pairs_view(v@)[0].1
            == with_file_name_spec(p, n)) && (d == MaildirSubdir::New ==> exists|n: Seq<char>| pairs_view(v@)[0].1
            == join_spec(join_spec(pre.maildir_spec(), subdir_name_spec(MaildirSubdir::Cur)), n))
            && crate::entry::entry_id_spec(pairs_view(v@)[0].1) == Some(pre.id_spec()) && forall|g: FlagsView|
            #[trigger] crate::flag::parsed_flags(g, pairs_view(v@)[0].1) ==> {
                &&& forall|x: crate::flag::FlagView| #[trigger] g.flags.contains(x) <==> (crate::flag::names_flag(
                    crate::flag::entry_letters_spec(p),
                    x,
                ) || (pre.flags_spec().flags.contains(x) && !(x is Keyword)))
                &&& forall|ch: char| #[trigger] g.letters.contains(ch) <==> (crate::flag::extra_letter(
                    crate::flag::entry_letters_spec(p),
                    ch,
                ) || pre.flags_spec().letters.contains(ch))
            },
{
    let ad = pre.flags_spec();
    let u = union_spec(fo, ad);
    crate::flag::lemma_union_exists(fo, ad);
    crate::flag::lemma_entry_letters_plain(p);
    assert(crate::flag::plain_letters(u.letters)) by {
        assert forall|i: int| 0 <= i < u.letters.len() implies crate::flag::flag_from_char(#[trigger] u.letters[i]) is None
            && u.letters[i] != ':' && u.letters[i] != '/' by {
            let ch = u.letters[i];
            assert(u.letters.contains(ch));
            if fo.letters.contains(ch) {
                crate::flag::lemma_parsed_letters_plain(fo, p, seq![ch]);
                assert(seq![ch][0] == ch);
            } else {
                let k = choose|k: int| 0 <= k < ad.letters.len() && ad.letters[k] == ch;
            }
        }
    }
    let dir = if d == MaildirSubdir::Cur {
        match crate::path::parent_spec(p) {
            Some(par) => par,
            None => Seq::<char>::empty(),
        }
    } else {
        join_spec(pre.maildir_spec(), subdir_name_spec(MaildirSubdir::Cur))
    };
    let name = cur_name_spec(pre.id_spec(), u);
    let t = flagged_path(pre.maildir_spec(), p, d, pre.id_spec(), u);
    assert(t == join_spec(dir, name));
    crate::flag::lemma_render_then_parse(dir, pre.id_spec(), u);
    crate::entry::lemma_cur_name_keeps_id(dir, pre.id_spec(), u);
    let lp = crate::flag::entry_letters_spec(p);
    let lt = crate::flag::entry_letters_spec(t);
    assert forall|g: FlagsView| #[trigger] crate::flag::parsed_flags(g, t) implies {
        &&& forall|x: crate::flag::FlagView| #[trigger] g.flags.contains(x) <==> (crate::flag::names_flag(lp, x)
            || (ad.flags.contains(x) && !(x is Keyword)))
        &&& forall|ch: char| #[trigger] g.letters.contains(ch) <==> (crate::flag::extra_letter(lp, ch)
            || ad.letters.contains(ch))
    } by {
        assert forall|x: crate::flag::FlagView| #[trigger] g.flags.contains(x) <==> (crate::flag::names_flag(lp, x)
            || (ad.flags.contains(x) && !(x is Keyword))) by {
            assert(g.flags.contains(x) <==> crate::flag::names_flag(lt, x));
            assert(crate::flag::names_flag(lt, x) <==> (u.flags.contains(x) && !(x is Keyword)));
            assert(u.flags.contains(x) <==> (fo.flags.contains(x) || ad.flags.contains(x)));
            assert(fo.flags.contains(x) <==> crate::flag::names_flag(lp, x));
            if crate::flag::names_flag(lp, x) {
                let i = choose|i: int| 0 <= i < lp.len() && crate::flag::flag_from_char(lp[i]) == Some(x);
                assert(!(x is Keyword));
            }
        }
        assert forall|ch: char| #[trigger] g.letters.contains(ch) <==> (crate::flag::extra_letter(lp, ch)
            || ad.letters.contains(ch)) by {
            assert(g.letters.contains(ch) <==> crate::flag::extra_letter(lt, ch));
            assert(u.letters.contains(ch) <==> (fo.letters.contains(ch) || ad.letters.contains(ch)));
            assert(fo.letters.contains(ch) <==> crate::flag::extra_letter(lp, ch));
        }
    }
}

/// Adding flags leaves some entries alone: when the locate step finds
/// the entry in `tmp`, another process's delivery in flight, or in `new`
/// with no flag to add, the step completes at once and asks for no
/// rename.
pub proof fn lemma_add_leaves_alone(
    pre: MaildirFlagsAdd,
    arg: Option<MaildirReply>,
    post: MaildirFlagsAdd,
    r: FlagsAddOutcome,
    d: MaildirSubdir,
)
    requires
        pre.step() matches FlagsAddStep::Locate(c) && forall|c2: MaildirEntryLocate, q2: LocateOutcome|
            #[trigger] locate_resumes(c, arg, c2, q2) ==> (q2 matches MaildirCoroutineState::Complete(Ok(o)) && o.subdir == d),
        d == MaildirSubdir::Tmp || (d == MaildirSubdir::New && pre.flags_spec().flags.len() == 0
            && pre.flags_spec().letters.len() == 0),
        flags_add_resumes(pre, arg, post, r),
    ensures
        r == FlagsAddOutcome::Complete(Ok(())),
        post.step() is Done,
{
}

} // verus!
