//! State machine listing the entries of a Maildir (bodies are not
//! read): lists `new` and `cur`, then keeps the candidates the caller
//! confirms to be files, each entry once.

use vstd::prelude::*;

use crate::coroutine::{dedup_views, lemma_dedup_views, paths_view, probe, probe_spec, MaildirCoroutineState, MaildirReply, MaildirYield};
use crate::entry::MaildirEntry;
use crate::maildir::{subdir_name_spec, Maildir, MaildirSubdir};
use crate::path::{file_name_spec, join_spec, MaildirFsPath};

verus! {

/// Failure causes during a [`MaildirEntryList`] step.
#[derive(Debug)]
pub enum MaildirEntryListError {
    /// A reply arrived that does not match the awaited step.
    UnexpectedArg(Option<MaildirReply>),
}

/// Where a [`MaildirEntryList`] stands.
#[derive(Debug)]
pub enum ListStep {
    /// Nothing asked yet.
    Start { maildir: Maildir },
    /// Waiting for the listings of `new` and `cur`.
    Read,
    /// Waiting for the confirmation of the candidates.
    Probe { candidates: Vec<MaildirFsPath> },
    /// Finished; any further reply is unexpected.
    Done,
}

/// What one step of [`MaildirEntryList`] gives.
pub type ListOutcome = MaildirCoroutineState<MaildirYield, Result<Vec<MaildirEntry>, MaildirEntryListError>>;

/// Lists every confirmed entry in a Maildir; bodies are not read.
#[derive(Debug)]
pub struct MaildirEntryList {
    step: ListStep,
}

/// Whether `path` may name an entry: it has a file name, and that name
/// does not start with a dot.
pub open spec fn listable(path: Seq<char>) -> bool {
    match file_name_spec(path) {
        Some(name) => name[0] != '.',
        None => false,
    }
}

/// The listable paths of `ps`, in order.
pub open spec fn keep_listable(ps: Seq<MaildirFsPath>) -> Seq<Seq<char>>
    decreases ps.len(),
{
    if ps.len() == 0 {
        Seq::empty()
    } else if listable(ps.last()@) {
        keep_listable(ps.drop_last()).push(ps.last()@)
    } else {
        keep_listable(ps.drop_last())
    }
}

/// The candidates of a listing reply: the listable entries of each
/// directory, directory after directory.
pub open spec fn candidates_spec(es: Seq<(MaildirFsPath, Vec<MaildirFsPath>)>) -> Seq<Seq<char>>
    decreases es.len(),
{
    if es.len() == 0 {
        Seq::empty()
    } else {
        candidates_spec(es.drop_last()) + keep_listable(es.last().1@)
    }
}

/// The candidates `cs` that the existence reply `m` confirms, in order.
pub open spec fn confirmed_spec(cs: Seq<Seq<char>>, m: Seq<(MaildirFsPath, bool)>) -> Seq<Seq<char>>
    decreases cs.len(),
{
    if cs.len() == 0 {
        Seq::empty()
    } else if probe_spec(m, cs.last()) {
        confirmed_spec(cs.drop_last(), m).push(cs.last())
    } else {
        confirmed_spec(cs.drop_last(), m)
    }
}

/// The paths of the entries `v`.
pub open spec fn entries_view(v: Seq<MaildirEntry>) -> Seq<Seq<char>> {
    v.map_values(|e: MaildirEntry| e.path()@)
}

/// One step of [`MaildirEntryList`] from `pre` on `arg` leads to `post`
/// and gives `r`.
pub open spec fn list_resumes(
    pre: MaildirEntryList,
    arg: Option<MaildirReply>,
    post: MaildirEntryList,
    r: ListOutcome,
) -> bool {
    match (pre.step(), arg) {
        (ListStep::Start { maildir }, None) => {
            &&& post.step() is Read
            &&& r matches MaildirCoroutineState::Yielded(MaildirYield::WantsDirRead(v))
                && paths_view(v@) == seq![
                    join_spec(maildir@, subdir_name_spec(MaildirSubdir::New)),
                    join_spec(maildir@, subdir_name_spec(MaildirSubdir::Cur)),
                ]
        },
        (ListStep::Read, Some(MaildirReply::DirRead(es))) => {
            let cs = candidates_spec(es@);
            if cs.len() == 0 {
                &&& post.step() is Done
                &&& r matches MaildirCoroutineState::Complete(Ok(v)) && v@.len() == 0
            } else {
                &&& post.step() matches ListStep::Probe { candidates } && paths_view(candidates@) == cs
                &&& r matches MaildirCoroutineState::Yielded(MaildirYield::WantsFileExists(v))
                    && paths_view(v@) == cs
            }
        },
        (ListStep::Probe { candidates }, Some(MaildirReply::FileExists(m))) => {
            &&& post.step() is Done
            &&& r matches MaildirCoroutineState::Complete(Ok(v))
                && entries_view(v@) == dedup_views(confirmed_spec(paths_view(candidates@), m@))
                && entries_view(v@).no_duplicates()
        },
        (_, arg) => {
            &&& post.step() is Done
            &&& r == ListOutcome::Complete(Err(MaildirEntryListError::UnexpectedArg(arg)))
        },
    }
}

/// Whether one of `v` is the entry at `p`.
fn lists(v: &Vec<MaildirEntry>, p: &MaildirFsPath) -> (r: bool)
    ensures
        r == entries_view(v@).contains(p@),
{
    let mut j: usize = 0;
    while j < v.len()
        invariant
            j <= v@.len(),
            forall|k: int| 0 <= k < j ==> (#[trigger] v@[k]).path()@ != p@,
        decreases v@.len() - j,
    {
        if v[j].path().same(p) {
            assert(entries_view(v@)[j as int] == p@);
            return true;
        }
        j = j + 1;
    }
    proof {
        if entries_view(v@).contains(p@) {
            let k = choose|k: int| 0 <= k < entries_view(v@).len() && entries_view(v@)[k] == p@;
            assert(v@[k].path()@ == p@);
        }
    }
    false
}

/// `v` with each repeated entry left out, every entry kept at its first
/// place.
fn dedup_entries(v: Vec<MaildirEntry>) -> (r: Vec<MaildirEntry>)
    ensures
        entries_view(r@) == dedup_views(entries_view(v@)),
{
    let ghost s = entries_view(v@);
    let mut out: Vec<MaildirEntry> = Vec::new();
    let mut i: usize = 0;
    proof {
        assert(s.take(0) =~= Seq::<Seq<char>>::empty());
        assert(entries_view(out@) =~= Seq::<Seq<char>>::empty());
    }
    while i < v.len()
        invariant
            i <= v@.len(),
            s == entries_view(v@),
            entries_view(out@) == dedup_views(s.take(i as int)),
        decreases v@.len() - i,
    {
        let ghost t = s.take(i + 1);
        assert(t.drop_last() =~= s.take(i as int));
        assert(t.last() == v@[i as int].path()@);
        proof {
            lemma_dedup_views(s.take(i as int));
        }
        let ghost before = entries_view(out@);
        if !lists(&out, v[i].path()) {
            out.push(v[i].clone());
            assert(entries_view(out@) =~= before.push(v@[i as int].path()@));
        }
        i = i + 1;
    }
    assert(s.take(i as int) =~= s);
    out
}

/// Appends to `out` the listable paths of `ps`.
fn push_listable(out: &mut Vec<MaildirFsPath>, ps: &Vec<MaildirFsPath>)
    ensures
        paths_view(final(out)@) == paths_view(old(out)@) + keep_listable(ps@),
{
    let mut i: usize = 0;
    let ghost start = paths_view(out@);
    while i < ps.len()
        invariant
            i <= ps@.len(),
            paths_view(out@) == start + keep_listable(ps@.take(i as int)),
        decreases ps@.len() - i,
    {
        let ghost before = paths_view(out@);
        assert(ps@.take(i + 1).drop_last() =~= ps@.take(i as int));
        let keep = match ps[i].file_name() {
            Some(name) => {
                let c = name.get_char(0);
                c != '.'
            },
            None => false,
        };
        if keep {
            out.push(ps[i].clone());
            assert(paths_view(out@) =~= before.push(ps@[i as int]@));
        }
        i = i + 1;
        assert(paths_view(out@) =~= start + keep_listable(ps@.take(i as int)));
    }
    assert(ps@.take(ps@.len() as int) =~= ps@);
}

impl MaildirEntryList {
    /// Where the machine stands.
    pub closed spec fn step(&self) -> ListStep {
        self.step
    }

    /// Builds a machine listing every confirmed entry of `maildir`.
    pub fn new(maildir: Maildir) -> (r: Self)
        ensures
            r.step() matches ListStep::Start { maildir: m } && m@ == maildir@,
    {
        MaildirEntryList { step: ListStep::Start { maildir } }
    }

    /// Makes the listing progress with the caller's answer `arg`.
    pub fn resume(&mut self, arg: Option<MaildirReply>) -> (r: ListOutcome)
        ensures
            list_resumes(*old(self), arg, *final(self), r),
    {
        let mut step = ListStep::Done;
        core::mem::swap(&mut step, &mut self.step);
        match step {
            ListStep::Start { maildir } => match arg {
                None => {
                    let mut dirs: Vec<MaildirFsPath> = Vec::new();
                    dirs.push(maildir.new());
                    dirs.push(maildir.cur());
                    proof {
                        assert(paths_view(dirs@) =~= seq![dirs@[0]@, dirs@[1]@]);
                    }
                    self.step = ListStep::Read;
                    MaildirCoroutineState::Yielded(MaildirYield::WantsDirRead(dirs))
                },
                arg => MaildirCoroutineState::Complete(Err(MaildirEntryListError::UnexpectedArg(arg))),
            },
            ListStep::Read => match arg {
                Some(MaildirReply::DirRead(es)) => {
                    let mut candidates: Vec<MaildirFsPath> = Vec::new();
                    let mut i: usize = 0;
                    proof {
                        assert(es@.take(0) =~= Seq::<(MaildirFsPath, Vec<MaildirFsPath>)>::empty());
                        assert(paths_view(candidates@) =~= Seq::<Seq<char>>::empty());
                    }
                    while i < es.len()
                        invariant
                            i <= es@.len(),
                            paths_view(candidates@) == candidates_spec(es@.take(i as int)),
                        decreases es@.len() - i,
                    {
                        push_listable(&mut candidates, &es[i].1);
                        assert(es@.take(i + 1).drop_last() =~= es@.take(i as int));
                        i = i + 1;
                    }
                    assert(es@.take(i as int) =~= es@);
                    if candidates.len() == 0 {
                        MaildirCoroutineState::Complete(Ok(Vec::new()))
                    } else {
                        let mut probes: Vec<MaildirFsPath> = Vec::new();
                        let mut k: usize = 0;
                        while k < candidates.len()
                            invariant
                                k <= candidates@.len(),
                                probes@.len() == k,
                                forall|j: int| 0 <= j < k ==> #[trigger] probes@[j]@ == candidates@[j]@,
                            decreases candidates@.len() - k,
                        {
                            probes.push(candidates[k].clone());
                            k = k + 1;
                        }
                        assert(paths_view(probes@) =~= paths_view(candidates@));
                        self.step = ListStep::Probe { candidates };
                        MaildirCoroutineState::Yielded(MaildirYield::WantsFileExists(probes))
                    }
                },
                arg => MaildirCoroutineState::Complete(Err(MaildirEntryListError::UnexpectedArg(arg))),
            },
            ListStep::Probe { candidates } => match arg {
                Some(MaildirReply::FileExists(m)) => {
                    let mut out: Vec<MaildirEntry> = Vec::new();
                    let mut k: usize = 0;
                    let ghost cs = paths_view(candidates@);
                    while k < candidates.len()
                        invariant
                            k <= candidates@.len(),
                            cs == paths_view(candidates@),
                            entries_view(out@) == confirmed_spec(cs.take(k as int), m@),
                        decreases candidates@.len() - k,
                    {
                        assert(cs.take(k + 1).drop_last() =~= cs.take(k as int));
                        let ghost before = entries_view(out@);
                        if probe(&m, &candidates[k]) {
                            out.push(MaildirEntry::from_path(candidates[k].clone()));
                            assert(entries_view(out@) =~= before.push(cs[k as int]));
                        }
                        k = k + 1;
                    }
                    assert(cs.take(k as int) =~= cs);
                    proof {
                        lemma_dedup_views(entries_view(out@));
                    }
                    MaildirCoroutineState::Complete(Ok(dedup_entries(out)))
                },
                arg => MaildirCoroutineState::Complete(Err(MaildirEntryListError::UnexpectedArg(arg))),
            },
            ListStep::Done => MaildirCoroutineState::Complete(Err(MaildirEntryListError::UnexpectedArg(arg))),
        }
    }
}

} // verus!
