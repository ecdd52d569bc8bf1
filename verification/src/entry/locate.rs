//! State machine locating a Maildir entry by its id: probes `new` and
//! `tmp`, then scans `cur`.

use vstd::prelude::*;

use crate::coroutine::{
    paths_view, probe, probe_spec, take_first_listing, MaildirCoroutineState, MaildirReply,
    MaildirYield,
};
use crate::flag::{parsed_flags, FlagView, FlagsView, MaildirFlags};
use crate::maildir::{subdir_name_spec, Maildir, MaildirSubdir};
use crate::path::{file_name_spec, join_spec, MaildirFsPath};
use crate::entry::{entry_id_spec, path_id};
use crate::text::str_eq;

verus! {

/// Failure causes during a [`MaildirEntryLocate`] step.
#[derive(Debug)]
pub enum MaildirEntryLocateError {
    /// A reply arrived that does not match the awaited step.
    UnexpectedArg(Option<MaildirReply>),
    /// No entry with the given id exists in the Maildir.
    NotFound(String),
}

/// Successful output of [`MaildirEntryLocate`].
#[derive(Debug)]
pub struct MaildirEntryLocateOutput {
    /// The filesystem path of the located entry.
    pub path: MaildirFsPath,
    /// The subdir the entry was found in.
    pub subdir: MaildirSubdir,
    /// The flags parsed from the entry file name.
    pub flags: MaildirFlags,
}

/// Where a [`MaildirEntryLocate`] stands.
#[derive(Debug)]
pub enum LocateStep {
    /// Nothing asked yet.
    Start,
    /// Waiting for the existence of the two candidate paths.
    Probe { new_path: MaildirFsPath, tmp_path: MaildirFsPath },
    /// Waiting for the listing of `cur`.
    Scan,
    /// Finished; any further reply is unexpected.
    Done,
}

/// What one step of [`MaildirEntryLocate`] gives.
pub type LocateOutcome = MaildirCoroutineState<
    MaildirYield,
    Result<MaildirEntryLocateOutput, MaildirEntryLocateError>,
>;

/// Locates a Maildir entry file by id: probes `new` and `tmp`, then
/// scans `cur` for the first file whose name, up to its last `:`, is
/// the id.
#[derive(Debug)]
pub struct MaildirEntryLocate {
    maildir: Maildir,
    id: String,
    step: LocateStep,
}

/// The path of `name` in `subdir` of the Maildir rooted at `root`.
pub open spec fn in_subdir(root: Seq<char>, subdir: MaildirSubdir, name: Seq<char>) -> Seq<char> {
    join_spec(join_spec(root, subdir_name_spec(subdir)), name)
}

/// Whether the entry file at `path` has the id `id`: its file name up
/// to the last `:` is `id`.
pub open spec fn id_matches(path: Seq<char>, id: Seq<char>) -> bool {
    entry_id_spec(path) == Some(id)
}

/// `k` is the first index of `paths` naming an entry with the id `id`.
pub open spec fn is_first_match(paths: Seq<MaildirFsPath>, id: Seq<char>, k: int) -> bool {
    &&& 0 <= k < paths.len()
    &&& id_matches(paths[k]@, id)
    &&& forall|j: int| 0 <= j < k ==> !id_matches(#[trigger] paths[j]@, id)
}

/// The first index of `paths` naming an entry with the id `id`, or `-1`.
pub open spec fn first_match(paths: Seq<MaildirFsPath>, id: Seq<char>) -> int {
    if exists|k: int| is_first_match(paths, id, k) {
        choose|k: int| is_first_match(paths, id, k)
    } else {
        -1
    }
}

/// There is at most one first match.
pub proof fn lemma_first_match_unique(paths: Seq<MaildirFsPath>, id: Seq<char>, k: int)
    requires
        is_first_match(paths, id, k),
    ensures
        first_match(paths, id) == k,
{
    let c = choose|k: int| is_first_match(paths, id, k);
    assert(is_first_match(paths, id, c));
    if c < k {
        assert(!id_matches(paths[c]@, id));
    } else if c > k {
        assert(!id_matches(paths[k]@, id));
    }
}

/// One step of [`MaildirEntryLocate`] from `pre` on `arg` leads to
/// `post` and gives `r`.
pub open spec fn locate_resumes(
    pre: MaildirEntryLocate,
    arg: Option<MaildirReply>,
    post: MaildirEntryLocate,
    r: LocateOutcome,
) -> bool {
    let root = pre.maildir_spec();
    let id = pre.id_spec();
    &&& post.maildir_spec() == root
    &&& post.id_spec() == id
    &&& match (pre.step(), arg) {
        (LocateStep::Start, None) => {
            &&& post.step() matches LocateStep::Probe { new_path, tmp_path }
                && new_path@ == in_subdir(root, MaildirSubdir::New, id)
                && tmp_path@ == in_subdir(root, MaildirSubdir::Tmp, id)
            &&& r matches MaildirCoroutineState::Yielded(MaildirYield::WantsFileExists(v))
                && paths_view(v@) == seq![
                    in_subdir(root, MaildirSubdir::New, id),
                    in_subdir(root, MaildirSubdir::Tmp, id),
                ]
        },
        (LocateStep::Probe { new_path, tmp_path }, Some(MaildirReply::FileExists(m))) => {
            if probe_spec(m@, new_path@) {
                &&& post.step() is Done
                &&& r matches MaildirCoroutineState::Complete(Ok(o)) && o.path@ == new_path@
                    && o.subdir == MaildirSubdir::New && o.flags@ == FlagsView {
                    flags: Seq::empty(),
                    letters: Seq::empty(),
                }
            } else if probe_spec(m@, tmp_path@) {
                &&& post.step() is Done
                &&& r matches MaildirCoroutineState::Complete(Ok(o)) && o.path@ == tmp_path@
                    && o.subdir == MaildirSubdir::Tmp && o.flags@ == FlagsView {
                    flags: Seq::empty(),
                    letters: Seq::empty(),
                }
            } else {
                &&& post.step() is Scan
                &&& r matches MaildirCoroutineState::Yielded(MaildirYield::WantsDirRead(v))
                    && paths_view(v@) == seq![join_spec(root, subdir_name_spec(MaildirSubdir::Cur))]
            }
        },
        (LocateStep::Scan, Some(MaildirReply::DirRead(entries))) => {
            let paths = if entries@.len() > 0 { entries@[0].1@ } else { Seq::empty() };
            let k = first_match(paths, id);
            &&& post.step() is Done
            &&& if k >= 0 {
                r matches MaildirCoroutineState::Complete(Ok(o)) && o.path@ == paths[k]@
                    && o.subdir == MaildirSubdir::Cur && parsed_flags(o.flags@, paths[k]@)
            } else {
                r matches MaildirCoroutineState::Complete(Err(MaildirEntryLocateError::NotFound(s)))
                    && s@ == id
            }
        },
        (_, arg) => {
            &&& post.step() is Done
            &&& r == MaildirCoroutineState::<
                MaildirYield,
                Result<MaildirEntryLocateOutput, MaildirEntryLocateError>,
            >::Complete(Err(MaildirEntryLocateError::UnexpectedArg(arg)))
        },
    }
}

impl MaildirEntryLocate {
    /// The Maildir searched.
    pub closed spec fn maildir_spec(&self) -> Seq<char> {
        self.maildir@
    }

    /// The id looked for.
    pub closed spec fn id_spec(&self) -> Seq<char> {
        self.id@
    }

    /// Where the machine stands.
    pub closed spec fn step(&self) -> LocateStep {
        self.step
    }

    /// Builds a machine locating the entry `id` in `maildir`.
    pub fn new(maildir: Maildir, id: &str) -> (r: Self)
        ensures
            r.maildir_spec() == maildir@,
            r.id_spec() == id@,
            r.step() is Start,
    {
        MaildirEntryLocate { maildir, id: id.to_owned(), step: LocateStep::Start }
    }

    /// Makes the search progress with the caller's answer `arg`.
    pub fn resume(&mut self, arg: Option<MaildirReply>) -> (r: LocateOutcome)
        ensures
            locate_resumes(*old(self), arg, *final(self), r),
    {
        let mut step = LocateStep::Done;
        core::mem::swap(&mut step, &mut self.step);
        match step {
            LocateStep::Start => match arg {
                None => {
                    let new_path = self.maildir.new().join(self.id.as_str());
                    let tmp_path = self.maildir.tmp().join(self.id.as_str());
                    let mut probes: Vec<MaildirFsPath> = Vec::new();
                    probes.push(new_path.clone());
                    probes.push(tmp_path.clone());
                    proof {
                        assert(paths_view(probes@) =~= seq![new_path@, tmp_path@]);
                    }
                    self.step = LocateStep::Probe { new_path, tmp_path };
                    MaildirCoroutineState::Yielded(MaildirYield::WantsFileExists(probes))
                },
                arg => MaildirCoroutineState::Complete(Err(MaildirEntryLocateError::UnexpectedArg(arg))),
            },
            LocateStep::Probe { new_path, tmp_path } => match arg {
                Some(MaildirReply::FileExists(m)) => {
                    if probe(&m, &new_path) {
                        let out = MaildirEntryLocateOutput {
                            path: new_path,
                            subdir: MaildirSubdir::New,
                            flags: MaildirFlags::new(),
                        };
                        MaildirCoroutineState::Complete(Ok(out))
                    } else if probe(&m, &tmp_path) {
                        let out = MaildirEntryLocateOutput {
                            path: tmp_path,
                            subdir: MaildirSubdir::Tmp,
                            flags: MaildirFlags::new(),
                        };
                        MaildirCoroutineState::Complete(Ok(out))
                    } else {
                        let mut dirs: Vec<MaildirFsPath> = Vec::new();
                        dirs.push(self.maildir.cur());
                        proof {
                            assert(paths_view(dirs@) =~= seq![dirs@[0]@]);
                        }
                        self.step = LocateStep::Scan;
                        MaildirCoroutineState::Yielded(MaildirYield::WantsDirRead(dirs))
                    }
                },
                arg => {
                    self.step = LocateStep::Done;
                    MaildirCoroutineState::Complete(Err(MaildirEntryLocateError::UnexpectedArg(arg)))
                },
            },
            LocateStep::Scan => match arg {
                Some(MaildirReply::DirRead(entries)) => {
                    let paths = take_first_listing(entries);
                    match self.first_match_in(&paths) {
                        Some(k) => {
                            let path = paths[k].clone();
                            let flags = MaildirFlags::from(&path);
                            let out = MaildirEntryLocateOutput {
                                path,
                                subdir: MaildirSubdir::Cur,
                                flags,
                            };
                            MaildirCoroutineState::Complete(Ok(out))
                        },
                        None => MaildirCoroutineState::Complete(
                            Err(MaildirEntryLocateError::NotFound(self.id.clone())),
                        ),
                    }
                },
                arg => MaildirCoroutineState::Complete(Err(MaildirEntryLocateError::UnexpectedArg(arg))),
            },
            LocateStep::Done => MaildirCoroutineState::Complete(
                Err(MaildirEntryLocateError::UnexpectedArg(arg)),
            ),
        }
    }

    /// The index of the first of `paths` naming an entry with the id.
    fn first_match_in(&self, paths: &Vec<MaildirFsPath>) -> (r: Option<usize>)
        ensures
            match r {
                Some(k) => k < paths@.len() && first_match(paths@, self.id@) == k,
                None => first_match(paths@, self.id@) == -1,
            },
    {
        let mut i: usize = 0;
        while i < paths.len()
            invariant
                i <= paths@.len(),
                forall|j: int| 0 <= j < i ==> !id_matches(#[trigger] paths@[j]@, self.id@),
            decreases paths@.len() - i,
        {
            if let Some(found) = path_id(&paths[i]) {
                if str_eq(found, self.id.as_str()) {
                    proof {
                        assert(is_first_match(paths@, self.id@, i as int));
                        lemma_first_match_unique(paths@, self.id@, i as int);
                    }
                    return Some(i);
                }
            }
            i = i + 1;
        }
        proof {
            if exists|k: int| is_first_match(paths@, self.id@, k) {
                let k = choose|k: int| is_first_match(paths@, self.id@, k);
                assert(!id_matches(paths@[k]@, self.id@));
            }
        }
        None
    }
}

} // verus!
