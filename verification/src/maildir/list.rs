//! State machine listing every Maildir reachable from a store's root,
//! each once.

use vstd::prelude::*;

use crate::coroutine::{dedup_views, lemma_dedup_views, paths_view, probe, probe_spec, MaildirCoroutineState, MaildirReply, MaildirYield};
use crate::maildir::{subdir_name_spec, Maildir, MaildirSubdir, CUR, NEW, TMP};
use crate::path::{file_name_spec, join_spec, MaildirFsPath};
use crate::store::MaildirStore;
use crate::text::str_eq;

verus! {

/// Failure causes during a [`MaildirList`] step.
#[derive(Debug)]
pub enum MaildirListError {
    /// A reply arrived that does not match the awaited step.
    UnexpectedArg(Option<MaildirReply>),
}

/// Where a [`MaildirList`] stands.
#[derive(Debug)]
pub enum MaildirListStep {
    /// Nothing asked yet.
    Start { root: MaildirFsPath },
    /// Waiting for directory listings. When `probe_pending`, the listed
    /// directories are themselves candidates.
    Read { probe_pending: bool, found: Vec<Maildir> },
    /// Waiting for the existence of the `cur`, `new` and `tmp` of each
    /// candidate.
    Probe { candidates: Vec<MaildirFsPath>, next_pending: Vec<MaildirFsPath>, found: Vec<Maildir> },
    /// Finished; any further reply is unexpected.
    Done,
}

/// What one step of [`MaildirList`] gives.
pub type MaildirListOutcome = MaildirCoroutineState<MaildirYield, Result<Vec<Maildir>, MaildirListError>>;

/// Lists every Maildir reachable from a store's root.
///
/// In the default fs layout subfolders are nested directories, each
/// with its own `cur`, `new` and `tmp`, and the machine walks the whole
/// tree, skipping dot-prefixed (hidden) children and descending only
/// into children the caller reports as directories, so regular files
/// beside a Maildir's subdirs are never read as directories. In the Maildir++
/// layout the root is itself the inbox and subfolders are dot-prefixed
/// siblings of `cur`, `new` and `tmp`; only those are kept, with no
/// descent.
#[derive(Debug)]
pub struct MaildirList {
    step: MaildirListStep,
    maildirpp: bool,
}

/// Whether a directory entry named `name` may be a folder: it is none
/// of `cur`, `new`, `tmp`, and it is dot-prefixed exactly in the
/// Maildir++ layout.
pub open spec fn folder_name(name: Seq<char>, maildirpp: bool) -> bool {
    &&& name != subdir_name_spec(MaildirSubdir::Cur)
    &&& name != subdir_name_spec(MaildirSubdir::New)
    &&& name != subdir_name_spec(MaildirSubdir::Tmp)
    &&& maildirpp == (name.len() > 0 && name[0] == '.')
}

/// Whether the entry at `path` may be a folder.
pub open spec fn folder_path(path: Seq<char>, maildirpp: bool) -> bool {
    match file_name_spec(path) {
        Some(name) => folder_name(name, maildirpp),
        None => false,
    }
}

/// The entries of `ps` that may be folders, in order.
pub open spec fn keep_folders(ps: Seq<MaildirFsPath>, maildirpp: bool) -> Seq<Seq<char>>
    decreases ps.len(),
{
    if ps.len() == 0 {
        Seq::empty()
    } else if folder_path(ps.last()@, maildirpp) {
        keep_folders(ps.drop_last(), maildirpp).push(ps.last()@)
    } else {
        keep_folders(ps.drop_last(), maildirpp)
    }
}

/// The entries of a listing reply that may be folders, directory after
/// directory.
pub open spec fn children_spec(es: Seq<(MaildirFsPath, Vec<MaildirFsPath>)>, maildirpp: bool) -> Seq<Seq<char>>
    decreases es.len(),
{
    if es.len() == 0 {
        Seq::empty()
    } else {
        children_spec(es.drop_last(), maildirpp) + keep_folders(es.last().1@, maildirpp)
    }
}

/// The directories a listing reply lists.
pub open spec fn listed_dirs(es: Seq<(MaildirFsPath, Vec<MaildirFsPath>)>) -> Seq<Seq<char>> {
    es.map_values(|e: (MaildirFsPath, Vec<MaildirFsPath>)| e.0@)
}

/// The `cur`, `new` and `tmp` of each candidate, candidate after
/// candidate.
pub open spec fn markers_spec(cs: Seq<Seq<char>>) -> Seq<Seq<char>>
    decreases cs.len(),
{
    if cs.len() == 0 {
        Seq::empty()
    } else {
        markers_spec(cs.drop_last()) + seq![
            join_spec(cs.last(), subdir_name_spec(MaildirSubdir::Cur)),
            join_spec(cs.last(), subdir_name_spec(MaildirSubdir::New)),
            join_spec(cs.last(), subdir_name_spec(MaildirSubdir::Tmp)),
        ]
    }
}

/// Whether the existence reply `m` confirms that `c` holds `cur`, `new`
/// and `tmp`.
pub open spec fn confirmed_maildir(m: Seq<(MaildirFsPath, bool)>, c: Seq<char>) -> bool {
    &&& probe_spec(m, join_spec(c, subdir_name_spec(MaildirSubdir::Cur)))
    &&& probe_spec(m, join_spec(c, subdir_name_spec(MaildirSubdir::New)))
    &&& probe_spec(m, join_spec(c, subdir_name_spec(MaildirSubdir::Tmp)))
}

/// The candidates `cs` that `m` confirms to be Maildirs, in order.
pub open spec fn confirmed_maildirs(cs: Seq<Seq<char>>, m: Seq<(MaildirFsPath, bool)>) -> Seq<Seq<char>>
    decreases cs.len(),
{
    if cs.len() == 0 {
        Seq::empty()
    } else if confirmed_maildir(m, cs.last()) {
        confirmed_maildirs(cs.drop_last(), m).push(cs.last())
    } else {
        confirmed_maildirs(cs.drop_last(), m)
    }
}

/// The paths of `ps` that the existence reply `m` says are
/// directories, in order.
pub open spec fn existing_dirs(ps: Seq<Seq<char>>, m: Seq<(MaildirFsPath, bool)>) -> Seq<Seq<char>>
    decreases ps.len(),
{
    if ps.len() == 0 {
        Seq::empty()
    } else if probe_spec(m, ps.last()) {
        existing_dirs(ps.drop_last(), m).push(ps.last())
    } else {
        existing_dirs(ps.drop_last(), m)
    }
}

/// The roots of the Maildirs `v`.
pub open spec fn maildirs_view(v: Seq<Maildir>) -> Seq<Seq<char>> {
    v.map_values(|m: Maildir| m@)
}

/// One step of [`MaildirList`] from `pre` on `arg` leads to `post` and
/// gives `r`.
pub open spec fn list_maildirs_resumes(
    pre: MaildirList,
    arg: Option<MaildirReply>,
    post: MaildirList,
    r: MaildirListOutcome,
) -> bool {
    let pp = pre.maildirpp_spec();
    &&& post.maildirpp_spec() == pp
    &&& match (pre.step(), arg) {
        (MaildirListStep::Start { root }, None) => {
            &&& post.step() matches MaildirListStep::Read { probe_pending, found } && probe_pending
                && found@.len() == 0
            &&& r matches MaildirCoroutineState::Yielded(MaildirYield::WantsDirRead(v)) && paths_view(v@)
                == seq![root@]
        },
        (MaildirListStep::Read { probe_pending, found }, Some(MaildirReply::DirRead(es))) => {
            let children = children_spec(es@, pp);
            let cs = (if probe_pending { listed_dirs(es@) } else { Seq::empty() }) + children;
            if cs.len() == 0 {
                &&& post.step() is Done
                &&& r matches MaildirCoroutineState::Complete(Ok(v)) && maildirs_view(v@) == dedup_views(
                    maildirs_view(found@),
                ) && maildirs_view(v@).no_duplicates()
            } else {
                &&& post.step() matches MaildirListStep::Probe { candidates, next_pending, found: f2 }
                    && paths_view(candidates@) == cs && paths_view(next_pending@) == (if pp {
                    Seq::empty()
                } else {
                    children
                }) && maildirs_view(f2@) == maildirs_view(found@)
                &&& r matches MaildirCoroutineState::Yielded(MaildirYield::WantsDirExists(v))
                    && paths_view(v@) == markers_spec(cs) + (if pp {
                    Seq::empty()
                } else {
                    children
                })
            }
        },
        (MaildirListStep::Probe { candidates, next_pending, found }, Some(MaildirReply::DirExists(m))) => {
            let found2 = maildirs_view(found@) + confirmed_maildirs(paths_view(candidates@), m@);
            let next = existing_dirs(paths_view(next_pending@), m@);
            if next.len() == 0 {
                &&& post.step() is Done
                &&& r matches MaildirCoroutineState::Complete(Ok(v)) && maildirs_view(v@) == dedup_views(found2)
                    && maildirs_view(v@).no_duplicates()
            } else {
                &&& post.step() matches MaildirListStep::Read { probe_pending, found: f2 } && !probe_pending
                    && maildirs_view(f2@) == found2
                &&& r matches MaildirCoroutineState::Yielded(MaildirYield::WantsDirRead(v)) && paths_view(v@)
                    == next
            }
        },
        (_, arg) => {
            &&& post.step() is Done
            &&& r == MaildirListOutcome::Complete(Err(MaildirListError::UnexpectedArg(arg)))
        },
    }
}

/// Whether one of `v` is the Maildir at `p`.
fn holds_maildir(v: &Vec<Maildir>, p: &MaildirFsPath) -> (r: bool)
    ensures
        r == maildirs_view(v@).contains(p@),
{
    let mut j: usize = 0;
    while j < v.len()
        invariant
            j <= v@.len(),
            forall|k: int| 0 <= k < j ==> (#[trigger] v@[k])@ != p@,
        decreases v@.len() - j,
    {
        if v[j].path().same(p) {
            assert(maildirs_view(v@)[j as int] == p@);
            return true;
        }
        j = j + 1;
    }
    proof {
        if maildirs_view(v@).contains(p@) {
            let k = choose|k: int| 0 <= k < maildirs_view(v@).len() && maildirs_view(v@)[k] == p@;
            assert(v@[k]@ == p@);
        }
    }
    false
}

/// `v` with each repeated Maildir left out, every Maildir kept at its
/// first place.
fn dedup_maildirs(v: Vec<Maildir>) -> (r: Vec<Maildir>)
    ensures
        maildirs_view(r@) == dedup_views(maildirs_view(v@)),
{
    let ghost s = maildirs_view(v@);
    let mut out: Vec<Maildir> = Vec::new();
    let mut i: usize = 0;
    proof {
        assert(s.take(0) =~= Seq::<Seq<char>>::empty());
        assert(maildirs_view(out@) =~= Seq::<Seq<char>>::empty());
    }
    while i < v.len()
        invariant
            i <= v@.len(),
            s == maildirs_view(v@),
            maildirs_view(out@) == dedup_views(s.take(i as int)),
        decreases v@.len() - i,
    {
        let ghost t = s.take(i + 1);
        assert(t.drop_last() =~= s.take(i as int));
        assert(t.last() == v@[i as int]@);
        proof {
            lemma_dedup_views(s.take(i as int));
        }
        let ghost before = maildirs_view(out@);
        if !holds_maildir(&out, v[i].path()) {
            out.push(v[i].clone());
            assert(maildirs_view(out@) =~= before.push(v@[i as int]@));
        }
        i = i + 1;
    }
    assert(s.take(i as int) =~= s);
    out
}

/// Whether the entry at `path` may be a folder.
fn is_folder(path: &MaildirFsPath, maildirpp: bool) -> (r: bool)
    ensures
        r == folder_path(path@, maildirpp),
{
    match path.file_name() {
        Some(name) => {
            proof {
                reveal_strlit("cur");
                reveal_strlit("new");
                reveal_strlit("tmp");
                assert(CUR@ =~= subdir_name_spec(MaildirSubdir::Cur));
                assert(NEW@ =~= subdir_name_spec(MaildirSubdir::New));
                assert(TMP@ =~= subdir_name_spec(MaildirSubdir::Tmp));
            }
            if str_eq(name, CUR) || str_eq(name, NEW) || str_eq(name, TMP) {
                false
            } else {
                let dotted = name.get_char(0) == '.';
                maildirpp == dotted
            }
        },
        None => false,
    }
}

/// Appends the entries of `ps` that may be folders to `cands`, and to
/// `next` too in the fs layout.
fn push_folders(cands: &mut Vec<MaildirFsPath>, next: &mut Vec<MaildirFsPath>, ps: &Vec<MaildirFsPath>, maildirpp: bool)
    ensures
        paths_view(final(cands)@) == paths_view(old(cands)@) + keep_folders(ps@, maildirpp),
        paths_view(final(next)@) == paths_view(old(next)@) + (if maildirpp {
            Seq::empty()
        } else {
            keep_folders(ps@, maildirpp)
        }),
{
    let ghost c0 = paths_view(cands@);
    let ghost n0 = paths_view(next@);
    let mut i: usize = 0;
    proof {
        assert(ps@.take(0) =~= Seq::<MaildirFsPath>::empty());
        assert(c0 + keep_folders(ps@.take(0), maildirpp) =~= c0);
        assert(n0 + Seq::<Seq<char>>::empty() =~= n0);
    }
    while i < ps.len()
        invariant
            i <= ps@.len(),
            paths_view(cands@) == c0 + keep_folders(ps@.take(i as int), maildirpp),
            paths_view(next@) == n0 + (if maildirpp {
                Seq::empty()
            } else {
                keep_folders(ps@.take(i as int), maildirpp)
            }),
        decreases ps@.len() - i,
    {
        assert(ps@.take(i + 1).drop_last() =~= ps@.take(i as int));
        let ghost cb = paths_view(cands@);
        let ghost nb = paths_view(next@);
        if is_folder(&ps[i], maildirpp) {
            cands.push(ps[i].clone());
            assert(paths_view(cands@) =~= cb.push(ps@[i as int]@));
            if !maildirpp {
                next.push(ps[i].clone());
                assert(paths_view(next@) =~= nb.push(ps@[i as int]@));
            }
        }
        i = i + 1;
        assert(paths_view(cands@) =~= c0 + keep_folders(ps@.take(i as int), maildirpp));
        assert(paths_view(next@) =~= n0 + (if maildirpp {
            Seq::empty()
        } else {
            keep_folders(ps@.take(i as int), maildirpp)
        }));
    }
    assert(ps@.take(i as int) =~= ps@);
}

/// The `cur`, `new` and `tmp` of each of `cands`.
fn markers(cands: &Vec<MaildirFsPath>) -> (r: Vec<MaildirFsPath>)
    ensures
        paths_view(r@) == markers_spec(paths_view(cands@)),
{
    let ghost cs = paths_view(cands@);
    let mut out: Vec<MaildirFsPath> = Vec::new();
    let mut i: usize = 0;
    proof {
        reveal_strlit("cur");
        reveal_strlit("new");
        reveal_strlit("tmp");
        assert(CUR@ =~= subdir_name_spec(MaildirSubdir::Cur));
        assert(NEW@ =~= subdir_name_spec(MaildirSubdir::New));
        assert(TMP@ =~= subdir_name_spec(MaildirSubdir::Tmp));
        assert(cs.take(0) =~= Seq::<Seq<char>>::empty());
        assert(paths_view(out@) =~= Seq::<Seq<char>>::empty());
    }
    while i < cands.len()
        invariant
            i <= cands@.len(),
            cs == paths_view(cands@),
            CUR@ == subdir_name_spec(MaildirSubdir::Cur),
            NEW@ == subdir_name_spec(MaildirSubdir::New),
            TMP@ == subdir_name_spec(MaildirSubdir::Tmp),
            paths_view(out@) == markers_spec(cs.take(i as int)),
        decreases cands@.len() - i,
    {
        assert(cs.take(i + 1).drop_last() =~= cs.take(i as int));
        let ghost before = paths_view(out@);
        let c = &cands[i];
        out.push(c.join(CUR));
        out.push(c.join(NEW));
        out.push(c.join(TMP));
        i = i + 1;
        assert(paths_view(out@) =~= before + seq![
            join_spec(cs[i - 1], subdir_name_spec(MaildirSubdir::Cur)),
            join_spec(cs[i - 1], subdir_name_spec(MaildirSubdir::New)),
            join_spec(cs[i - 1], subdir_name_spec(MaildirSubdir::Tmp)),
        ]);
    }
    assert(cs.take(i as int) =~= cs);
    out
}

/// The paths of `ps` that `m` says are directories.
fn dirs_among(ps: &Vec<MaildirFsPath>, m: &Vec<(MaildirFsPath, bool)>) -> (r: Vec<MaildirFsPath>)
    ensures
        paths_view(r@) == existing_dirs(paths_view(ps@), m@),
{
    let ghost v = paths_view(ps@);
    let mut out: Vec<MaildirFsPath> = Vec::new();
    let mut i: usize = 0;
    proof {
        assert(v.take(0) =~= Seq::<Seq<char>>::empty());
        assert(paths_view(out@) =~= Seq::<Seq<char>>::empty());
    }
    while i < ps.len()
        invariant
            i <= ps@.len(),
            v == paths_view(ps@),
            paths_view(out@) == existing_dirs(v.take(i as int), m@),
        decreases ps@.len() - i,
    {
        assert(v.take(i + 1).drop_last() =~= v.take(i as int));
        let ghost before = paths_view(out@);
        if probe(m, &ps[i]) {
            out.push(ps[i].clone());
            assert(paths_view(out@) =~= before.push(v[i as int]));
        }
        i = i + 1;
    }
    assert(v.take(i as int) =~= v);
    out
}

/// `a` followed by a copy of each of `b`.
fn append_paths(a: Vec<MaildirFsPath>, b: &Vec<MaildirFsPath>) -> (r: Vec<MaildirFsPath>)
    ensures
        paths_view(r@) == paths_view(a@) + paths_view(b@),
{
    let ghost a0 = paths_view(a@);
    let mut out = a;
    let mut i: usize = 0;
    assert(a0 + paths_view(b@).take(0) =~= a0);
    while i < b.len()
        invariant
            i <= b@.len(),
            paths_view(out@) == a0 + paths_view(b@).take(i as int),
        decreases b@.len() - i,
    {
        let ghost before = paths_view(out@);
        let c = b[i].clone();
        assert(c@ == paths_view(b@)[i as int]);
        out.push(c);
        assert(paths_view(out@) =~= before.push(paths_view(b@)[i as int]));
        assert(paths_view(b@).take(i + 1) =~= paths_view(b@).take(i as int).push(paths_view(b@)[i as int]));
        i = i + 1;
        assert(paths_view(out@) =~= a0 + paths_view(b@).take(i as int));
    }
    assert(paths_view(b@).take(i as int) =~= paths_view(b@));
    out
}

impl MaildirList {
    /// Where the machine stands.
    pub closed spec fn step(&self) -> MaildirListStep {
        self.step
    }

    /// Whether the store uses the Maildir++ layout.
    pub closed spec fn maildirpp_spec(&self) -> bool {
        self.maildirpp
    }

    /// Builds a machine listing every Maildir reachable from `store`'s
    /// root, following the store's layout.
    pub fn new(store: &MaildirStore) -> (r: Self)
        ensures
            r.step() matches MaildirListStep::Start { root } && root@ == store.root@,
            r.maildirpp_spec() == store.maildirpp,
    {
        MaildirList { step: MaildirListStep::Start { root: store.root.clone() }, maildirpp: store.maildirpp }
    }

    /// Makes the listing progress with the caller's answer `arg`.
    pub fn resume(&mut self, arg: Option<MaildirReply>) -> (r: MaildirListOutcome)
        ensures
            list_maildirs_resumes(*old(self), arg, *final(self), r),
    {
        let mut step = MaildirListStep::Done;
        core::mem::swap(&mut step, &mut self.step);
        match step {
            MaildirListStep::Start { root } => match arg {
                None => {
                    let mut pending: Vec<MaildirFsPath> = Vec::new();
                    pending.push(root);
                    proof {
                        assert(paths_view(pending@) =~= seq![pending@[0]@]);
                    }
                    self.step = MaildirListStep::Read { probe_pending: true, found: Vec::new() };
                    MaildirCoroutineState::Yielded(MaildirYield::WantsDirRead(pending))
                },
                arg => MaildirCoroutineState::Complete(Err(MaildirListError::UnexpectedArg(arg))),
            },
            MaildirListStep::Read { probe_pending, found } => match arg {
                Some(MaildirReply::DirRead(es)) => {
                    let pp = self.maildirpp;
                    let mut candidates: Vec<MaildirFsPath> = Vec::new();
                    let mut next_pending: Vec<MaildirFsPath> = Vec::new();
                    if probe_pending {
                        let mut i: usize = 0;
                        while i < es.len()
                            invariant
                                i <= es@.len(),
                                candidates@.len() == i,
                                forall|j: int| 0 <= j < i ==> #[trigger] candidates@[j]@ == es@[j].0@,
                            decreases es@.len() - i,
                        {
                            candidates.push(es[i].0.clone());
                            i = i + 1;
                        }
                        assert(paths_view(candidates@) =~= listed_dirs(es@));
                    }
                    let ghost base = paths_view(candidates@);
                    assert(base == (if probe_pending { listed_dirs(es@) } else { Seq::empty() }));
                    let mut i: usize = 0;
                    proof {
                        assert(es@.take(0) =~= Seq::<(MaildirFsPath, Vec<MaildirFsPath>)>::empty());
                        assert(base + children_spec(es@.take(0), pp) =~= base);
                        assert(paths_view(next_pending@) =~= Seq::<Seq<char>>::empty());
                    }
                    while i < es.len()
                        invariant
                            i <= es@.len(),
                            paths_view(candidates@) == base + children_spec(es@.take(i as int), pp),
                            paths_view(next_pending@) == (if pp {
                                Seq::empty()
                            } else {
                                children_spec(es@.take(i as int), pp)
                            }),
                        decreases es@.len() - i,
                    {
                        assert(es@.take(i + 1).drop_last() =~= es@.take(i as int));
                        push_folders(&mut candidates, &mut next_pending, &es[i].1, pp);
                        i = i + 1;
                        assert(paths_view(candidates@) =~= base + children_spec(es@.take(i as int), pp));
                        assert(paths_view(next_pending@) =~= (if pp {
                            Seq::empty()
                        } else {
                            children_spec(es@.take(i as int), pp)
                        }));
                    }
                    assert(es@.take(i as int) =~= es@);
                    if candidates.len() == 0 {
                        proof {
                            lemma_dedup_views(maildirs_view(found@));
                        }
                        MaildirCoroutineState::Complete(Ok(dedup_maildirs(found)))
                    } else {
                        let probes = append_paths(markers(&candidates), &next_pending);
                        self.step = MaildirListStep::Probe { candidates, next_pending, found };
                        MaildirCoroutineState::Yielded(MaildirYield::WantsDirExists(probes))
                    }
                },
                arg => MaildirCoroutineState::Complete(Err(MaildirListError::UnexpectedArg(arg))),
            },
            MaildirListStep::Probe { candidates, next_pending, found } => match arg {
                Some(MaildirReply::DirExists(m)) => {
                    let ghost cs = paths_view(candidates@);
                    let ghost f0 = maildirs_view(found@);
                    let mut found = found;
                    let mut i: usize = 0;
                    proof {
                        reveal_strlit("cur");
                        reveal_strlit("new");
                        reveal_strlit("tmp");
                        assert(CUR@ =~= subdir_name_spec(MaildirSubdir::Cur));
                        assert(NEW@ =~= subdir_name_spec(MaildirSubdir::New));
                        assert(TMP@ =~= subdir_name_spec(MaildirSubdir::Tmp));
                        assert(cs.take(0) =~= Seq::<Seq<char>>::empty());
                        assert(f0 + confirmed_maildirs(cs.take(0), m@) =~= f0);
                    }
                    while i < candidates.len()
                        invariant
                            i <= candidates@.len(),
                            cs == paths_view(candidates@),
                            CUR@ == subdir_name_spec(MaildirSubdir::Cur),
                            NEW@ == subdir_name_spec(MaildirSubdir::New),
                            TMP@ == subdir_name_spec(MaildirSubdir::Tmp),
                            maildirs_view(found@) == f0 + confirmed_maildirs(cs.take(i as int), m@),
                        decreases candidates@.len() - i,
                    {
                        assert(cs.take(i + 1).drop_last() =~= cs.take(i as int));
                        let ghost before = maildirs_view(found@);
                        let c = &candidates[i];
                        let ok = probe(&m, &c.join(CUR)) && probe(&m, &c.join(NEW)) && probe(&m, &c.join(TMP));
                        if ok {
                            found.push(Maildir::from_path(c.clone()));
                            assert(maildirs_view(found@) =~= before.push(cs[i as int]));
                        }
                        i = i + 1;
                        assert(maildirs_view(found@) =~= f0 + confirmed_maildirs(cs.take(i as int), m@));
                    }
                    assert(cs.take(i as int) =~= cs);
                    let next = dirs_among(&next_pending, &m);
                    if next.len() == 0 {
                        proof {
                            lemma_dedup_views(maildirs_view(found@));
                        }
                        MaildirCoroutineState::Complete(Ok(dedup_maildirs(found)))
                    } else {
                        self.step = MaildirListStep::Read { probe_pending: false, found };
                        MaildirCoroutineState::Yielded(MaildirYield::WantsDirRead(next))
                    }
                },
                arg => MaildirCoroutineState::Complete(Err(MaildirListError::UnexpectedArg(arg))),
            },
            MaildirListStep::Done => MaildirCoroutineState::Complete(Err(MaildirListError::UnexpectedArg(arg))),
        }
    }
}

/// An existence reply that tells the truth about the directories `dirs`:
/// it says `true` only of paths in `dirs`.
pub open spec fn existence_truthful(m: Seq<(MaildirFsPath, bool)>, dirs: Set<Seq<char>>) -> bool {
    forall|i: int| 0 <= i < m.len() && (#[trigger] m[i]).1 ==> dirs.contains(m[i].0@)
}

/// Whether `c` holds `cur`, `new` and `tmp` among the directories `dirs`.
pub open spec fn maildir_in(c: Seq<char>, dirs: Set<Seq<char>>) -> bool {
    &&& dirs.contains(join_spec(c, subdir_name_spec(MaildirSubdir::Cur)))
    &&& dirs.contains(join_spec(c, subdir_name_spec(MaildirSubdir::New)))
    &&& dirs.contains(join_spec(c, subdir_name_spec(MaildirSubdir::Tmp)))
}

/// Whether every root of `v` is a Maildir among the directories `dirs`.
pub open spec fn maildirs_in(v: Seq<Seq<char>>, dirs: Set<Seq<char>>) -> bool {
    forall|i: int| 0 <= i < v.len() ==> maildir_in(#[trigger] v[i], dirs)
}

/// The roots of the Maildirs that `l` has found so far.
pub open spec fn list_found(l: MaildirList) -> Seq<Seq<char>> {
    match l.step() {
        MaildirListStep::Read { found, .. } => maildirs_view(found@),
        MaildirListStep::Probe { found, .. } => maildirs_view(found@),
        _ => Seq::empty(),
    }
}

/// The candidates whose `cur`, `new` and `tmp` `l` waits to hear of.
pub open spec fn list_candidates(l: MaildirList) -> Seq<Seq<char>> {
    match l.step() {
        MaildirListStep::Probe { candidates, .. } => paths_view(candidates@),
        _ => Seq::empty(),
    }
}

/// Whether every Maildir that `l` has found so far is a Maildir among
/// the directories `dirs`.
pub open spec fn list_found_in(l: MaildirList, dirs: Set<Seq<char>>) -> bool {
    maildirs_in(list_found(l), dirs)
}

/// An existence reply that answers exactly, after the directories
/// `dirs`, for the `cur`, `new` and `tmp` of each candidate of `cs`.
pub open spec fn existence_exact(m: Seq<(MaildirFsPath, bool)>, cs: Seq<Seq<char>>, dirs: Set<Seq<char>>) -> bool {
    forall|i: int|
        0 <= i < cs.len() ==> (confirmed_maildir(m, #[trigger] cs[i]) <==> maildir_in(cs[i], dirs))
}

proof fn lemma_probe_truthful(m: Seq<(MaildirFsPath, bool)>, p: Seq<char>, dirs: Set<Seq<char>>)
    requires
        existence_truthful(m, dirs),
        probe_spec(m, p),
    ensures
        dirs.contains(p),
    decreases m.len(),
{
    if m[0].0@ != p {
        let t = m.drop_first();
        assert forall|i: int| 0 <= i < t.len() && (#[trigger] t[i]).1 implies dirs.contains(t[i].0@) by {
            assert(t[i] == m[i + 1]);
        }
        lemma_probe_truthful(t, p, dirs);
    }
}

proof fn lemma_confirmed_in(cs: Seq<Seq<char>>, m: Seq<(MaildirFsPath, bool)>, dirs: Set<Seq<char>>)
    requires
        existence_truthful(m, dirs),
    ensures
        maildirs_in(confirmed_maildirs(cs, m), dirs),
    decreases cs.len(),
{
    if cs.len() > 0 {
        let c = cs.last();
        lemma_confirmed_in(cs.drop_last(), m, dirs);
        if confirmed_maildir(m, c) {
            lemma_probe_truthful(m, join_spec(c, subdir_name_spec(MaildirSubdir::Cur)), dirs);
            lemma_probe_truthful(m, join_spec(c, subdir_name_spec(MaildirSubdir::New)), dirs);
            lemma_probe_truthful(m, join_spec(c, subdir_name_spec(MaildirSubdir::Tmp)), dirs);
            let before = confirmed_maildirs(cs.drop_last(), m);
            assert forall|i: int| 0 <= i < before.push(c).len() implies maildir_in(#[trigger] before.push(c)[i], dirs) by {
                if i < before.len() {
                    assert(before.push(c)[i] == before[i]);
                }
            }
        }
    }
}

proof fn lemma_maildirs_in_concat(a: Seq<Seq<char>>, b: Seq<Seq<char>>, dirs: Set<Seq<char>>)
    requires
        maildirs_in(a, dirs),
        maildirs_in(b, dirs),
    ensures
        maildirs_in(a + b, dirs),
{
    assert forall|i: int| 0 <= i < (a + b).len() implies maildir_in(#[trigger] (a + b)[i], dirs) by {
        if i < a.len() {
            assert((a + b)[i] == a[i]);
        } else {
            assert((a + b)[i] == b[i - a.len()]);
        }
    }
}

proof fn lemma_maildirs_in_dedup(s: Seq<Seq<char>>, dirs: Set<Seq<char>>)
    requires
        maildirs_in(s, dirs),
    ensures
        maildirs_in(dedup_views(s), dirs),
{
    lemma_dedup_views(s);
    let d = dedup_views(s);
    assert forall|i: int| 0 <= i < d.len() implies maildir_in(#[trigger] d[i], dirs) by {
        assert(d.contains(d[i]));
        assert(s.contains(d[i]));
        let k = choose|k: int| 0 <= k < s.len() && s[k] == d[i];
        assert(maildir_in(s[k], dirs));
    }
}

/// The listing reports only Maildirs: while every existence reply tells
/// the truth about the directories `dirs`, each step keeps every Maildir
/// found so far among those holding `cur`, `new` and `tmp` in `dirs`,
/// and a listing that completes reports no other. A machine just built
/// has found nothing, so this holds over a whole run.
pub proof fn lemma_list_reports_only_maildirs(
    pre: MaildirList,
    arg: Option<MaildirReply>,
    post: MaildirList,
    r: MaildirListOutcome,
    dirs: Set<Seq<char>>,
)
    requires
        list_maildirs_resumes(pre, arg, post, r),
        list_found_in(pre, dirs),
        arg matches Some(MaildirReply::DirExists(m)) ==> existence_truthful(m@, dirs),
    ensures
        list_found_in(post, dirs),
        r matches MaildirCoroutineState::Complete(Ok(v)) ==> maildirs_in(maildirs_view(v@), dirs),
{
    match (pre.step(), arg) {
        (MaildirListStep::Read { probe_pending, found }, Some(MaildirReply::DirRead(es))) => {
            lemma_maildirs_in_dedup(maildirs_view(found@), dirs);
        },
        (MaildirListStep::Probe { candidates, next_pending, found }, Some(MaildirReply::DirExists(m))) => {
            let cm = confirmed_maildirs(paths_view(candidates@), m@);
            lemma_confirmed_in(paths_view(candidates@), m@, dirs);
            lemma_maildirs_in_concat(maildirs_view(found@), cm, dirs);
            lemma_maildirs_in_dedup(maildirs_view(found@) + cm, dirs);
        },
        _ => {},
    }
}

proof fn lemma_confirmed_complete(cs: Seq<Seq<char>>, m: Seq<(MaildirFsPath, bool)>, dirs: Set<Seq<char>>)
    requires
        existence_exact(m, cs, dirs),
    ensures
        forall|i: int| 0 <= i < cs.len() && maildir_in(cs[i], dirs) ==> #[trigger] confirmed_maildirs(cs, m).contains(cs[i]),
    decreases cs.len(),
{
    if cs.len() > 0 {
        let t = cs.drop_last();
        assert forall|i: int| 0 <= i < t.len() implies (confirmed_maildir(m, #[trigger] t[i]) <==> maildir_in(t[i], dirs)) by {
            assert(t[i] == cs[i]);
        }
        lemma_confirmed_complete(t, m, dirs);
        let before = confirmed_maildirs(t, m);
        assert forall|i: int| 0 <= i < cs.len() && maildir_in(cs[i], dirs) implies #[trigger] confirmed_maildirs(cs, m).contains(cs[i]) by {
            if i < t.len() {
                assert(t[i] == cs[i]);
                assert(before.contains(t[i]));
                let k = choose|k: int| 0 <= k < before.len() && before[k] == t[i];
                if confirmed_maildir(m, cs.last()) {
                    assert(before.push(cs.last())[k] == before[k]);
                }
            } else {
                assert(cs[i] == cs.last());
                assert(confirmed_maildir(m, cs[i]));
                assert(before.push(cs.last())[before.len() as int] == cs.last());
            }
        }
    }
}

/// The listing misses no Maildir among its candidates: when an existence
/// reply answers exactly, after the directories `dirs`, for the `cur`,
/// `new` and `tmp` of each candidate, every candidate holding all three
/// is found, or reported when the listing completes.
pub proof fn lemma_list_misses_no_maildir(
    pre: MaildirList,
    arg: Option<MaildirReply>,
    post: MaildirList,
    r: MaildirListOutcome,
    dirs: Set<Seq<char>>,
)
    requires
        list_maildirs_resumes(pre, arg, post, r),
        pre.step() is Probe,
        arg matches Some(MaildirReply::DirExists(m)) && existence_exact(m@, list_candidates(pre), dirs),
    ensures
        forall|c: Seq<char>|
            #![trigger list_candidates(pre).contains(c)]
            list_candidates(pre).contains(c) && maildir_in(c, dirs) ==> {
                ||| list_found(post).contains(c)
                ||| r matches MaildirCoroutineState::Complete(Ok(v)) && maildirs_view(v@).contains(c)
            },
{
    match (pre.step(), arg) {
        (MaildirListStep::Probe { candidates, next_pending, found }, Some(MaildirReply::DirExists(m))) => {
            let cs = paths_view(candidates@);
            let cm = confirmed_maildirs(cs, m@);
            let f2 = maildirs_view(found@) + cm;
            lemma_confirmed_complete(cs, m@, dirs);
            lemma_dedup_views(f2);
            assert forall|c: Seq<char>| cs.contains(c) && maildir_in(c, dirs) implies f2.contains(c) && dedup_views(f2).contains(c) by {
                let i = choose|i: int| 0 <= i < cs.len() && cs[i] == c;
                assert(cm.contains(cs[i]));
                let k = choose|k: int| 0 <= k < cm.len() && cm[k] == c;
                assert(f2[maildirs_view(found@).len() + k] == c);
            }
        },
        _ => {},
    }
}

/// Every path a listing reply names: the directories it lists and the
/// entries it lists in them.
pub open spec fn read_paths(es: Seq<(MaildirFsPath, Vec<MaildirFsPath>)>) -> Set<Seq<char>> {
    Set::new(
        |p: Seq<char>|
            exists|i: int|
                0 <= i < es.len() && (es[i].0@ == p || exists|j: int| 0 <= j < es[i].1@.len() && (#[trigger] es[i].1@[j])@ == p),
    )
}

/// Every path an existence reply says is a directory.
pub open spec fn said_true(m: Seq<(MaildirFsPath, bool)>) -> Set<Seq<char>> {
    Set::new(|p: Seq<char>| probe_spec(m, p))
}

/// The paths named by the listing replies heard so far, `listed`, with
/// those of `arg`.
pub open spec fn listed_after(listed: Set<Seq<char>>, arg: Option<MaildirReply>) -> Set<Seq<char>> {
    match arg {
        Some(MaildirReply::DirRead(es)) => listed.union(read_paths(es@)),
        _ => listed,
    }
}

/// The paths confirmed as directories by the existence replies heard so
/// far, `confirmed`, with those `arg` confirms.
pub open spec fn confirmed_after(confirmed: Set<Seq<char>>, arg: Option<MaildirReply>) -> Set<Seq<char>> {
    match arg {
        Some(MaildirReply::DirExists(m)) => confirmed.union(said_true(m@)),
        _ => confirmed,
    }
}

/// `c` may stand in a listing of the store rooted at `root`: it is the
/// root, or a path a listing reply named whose name may be a folder.
pub open spec fn listable(c: Seq<char>, root: Seq<char>, pp: bool, listed: Set<Seq<char>>) -> bool {
    c == root || (listed.contains(c) && folder_path(c, pp))
}

/// `c` may be reported: it is listable and the existence replies
/// confirmed its `cur`, `new` and `tmp`.
pub open spec fn reportable(c: Seq<char>, root: Seq<char>, pp: bool, listed: Set<Seq<char>>, confirmed: Set<Seq<char>>) -> bool {
    &&& listable(c, root, pp, listed)
    &&& maildir_in(c, confirmed)
}

/// Every path of `v` is reportable.
pub open spec fn all_reportable(v: Seq<Seq<char>>, root: Seq<char>, pp: bool, listed: Set<Seq<char>>, confirmed: Set<Seq<char>>) -> bool {
    forall|i: int| 0 <= i < v.len() ==> reportable(#[trigger] v[i], root, pp, listed, confirmed)
}

/// What holds of a listing of the store rooted at `root`, in layout
/// `pp`, after replies that named the paths `listed` and confirmed the
/// directories `confirmed`: what it has found is reportable, what it is
/// probing is listable, and in Maildir++ it reads nothing past the root.
pub open spec fn list_run_inv(l: MaildirList, root: Seq<char>, pp: bool, listed: Set<Seq<char>>, confirmed: Set<Seq<char>>) -> bool {
    &&& l.maildirpp_spec() == pp
    &&& match l.step() {
        MaildirListStep::Start { root: r0 } => r0@ == root,
        MaildirListStep::Read { probe_pending, found } => {
            &&& all_reportable(maildirs_view(found@), root, pp, listed, confirmed)
            &&& pp ==> probe_pending
        },
        MaildirListStep::Probe { candidates, next_pending, found } => {
            &&& all_reportable(maildirs_view(found@), root, pp, listed, confirmed)
            &&& forall|i: int| 0 <= i < candidates@.len() ==> listable(#[trigger] paths_view(candidates@)[i], root, pp, listed)
            &&& pp ==> next_pending@.len() == 0
        },
        MaildirListStep::Done => true,
    }
}

/// The reply `arg` answers the question `l` asked: a listing asked of
/// the root lists the root alone.
pub open spec fn answers_root(l: MaildirList, arg: Option<MaildirReply>, root: Seq<char>) -> bool {
    (l.step() matches MaildirListStep::Read { probe_pending, .. } && probe_pending) ==> (arg matches Some(
        MaildirReply::DirRead(es),
    ) ==> forall|i: int| 0 <= i < es@.len() ==> (#[trigger] es@[i]).0@ == root)
}

proof fn lemma_reportable_grows(
    v: Seq<Seq<char>>,
    root: Seq<char>,
    pp: bool,
    l1: Set<Seq<char>>,
    c1: Set<Seq<char>>,
    l2: Set<Seq<char>>,
    c2: Set<Seq<char>>,
)
    requires
        all_reportable(v, root, pp, l1, c1),
        l1.subset_of(l2),
        c1.subset_of(c2),
    ensures
        all_reportable(v, root, pp, l2, c2),
{
    assert forall|i: int| 0 <= i < v.len() implies reportable(#[trigger] v[i], root, pp, l2, c2) by {
        assert(reportable(v[i], root, pp, l1, c1));
    }
}

proof fn lemma_keep_folders_listed(ps: Seq<MaildirFsPath>, pp: bool, k: int)
    requires
        0 <= k < keep_folders(ps, pp).len(),
    ensures
        folder_path(keep_folders(ps, pp)[k], pp),
        exists|j: int| 0 <= j < ps.len() && (#[trigger] ps[j])@ == keep_folders(ps, pp)[k],
    decreases ps.len(),
{
    let t = ps.drop_last();
    let kt = keep_folders(t, pp);
    if folder_path(ps.last()@, pp) && k == kt.len() {
        assert(ps[ps.len() - 1]@ == keep_folders(ps, pp)[k]);
    } else {
        lemma_keep_folders_listed(t, pp, k);
        let j = choose|j: int| 0 <= j < t.len() && (#[trigger] t[j])@ == kt[k];
        assert(ps[j] == t[j]);
    }
}

proof fn lemma_children_listed(es: Seq<(MaildirFsPath, Vec<MaildirFsPath>)>, pp: bool, k: int)
    requires
        0 <= k < children_spec(es, pp).len(),
    ensures
        folder_path(children_spec(es, pp)[k], pp),
        read_paths(es).contains(children_spec(es, pp)[k]),
    decreases es.len(),
{
    let t = es.drop_last();
    let ct = children_spec(t, pp);
    let c = children_spec(es, pp)[k];
    if k < ct.len() {
        lemma_children_listed(t, pp, k);
        assert(c == ct[k]);
        let i = choose|i: int|
            0 <= i < t.len() && (t[i].0@ == c || exists|j: int| 0 <= j < t[i].1@.len() && (#[trigger] t[i].1@[j])@ == c);
        assert(es[i] == t[i]);
    } else {
        let kf = keep_folders(es.last().1@, pp);
        assert(c == kf[k - ct.len()]);
        lemma_keep_folders_listed(es.last().1@, pp, k - ct.len());
        let j = choose|j: int| 0 <= j < es.last().1@.len() && (#[trigger] es.last().1@[j])@ == c;
        assert(es[es.len() - 1].1@[j]@ == c);
    }
}

proof fn lemma_confirmed_members(cs: Seq<Seq<char>>, m: Seq<(MaildirFsPath, bool)>, k: int)
    requires
        0 <= k < confirmed_maildirs(cs, m).len(),
    ensures
        cs.contains(confirmed_maildirs(cs, m)[k]),
        confirmed_maildir(m, confirmed_maildirs(cs, m)[k]),
    decreases cs.len(),
{
    let t = cs.drop_last();
    let ct = confirmed_maildirs(t, m);
    if confirmed_maildir(m, cs.last()) && k == ct.len() {
        assert(cs[cs.len() - 1] == cs.last());
    } else {
        lemma_confirmed_members(t, m, k);
        let j = choose|j: int| 0 <= j < t.len() && t[j] == ct[k];
        assert(cs[j] == t[j]);
    }
}

proof fn lemma_dedup_reportable(s: Seq<Seq<char>>, root: Seq<char>, pp: bool, l: Set<Seq<char>>, c: Set<Seq<char>>)
    requires
        all_reportable(s, root, pp, l, c),
    ensures
        all_reportable(dedup_views(s), root, pp, l, c),
{
    lemma_dedup_views(s);
    let d = dedup_views(s);
    assert forall|i: int| 0 <= i < d.len() implies reportable(#[trigger] d[i], root, pp, l, c) by {
        assert(d.contains(d[i]));
        let k = choose|k: int| 0 <= k < s.len() && s[k] == d[i];
        assert(reportable(s[k], root, pp, l, c));
    }
}

/// What a listing reports, over a whole run: a Maildir of the store
/// rooted at `root` is the root, or a path a listing reply named whose
/// name is none of `cur`, `new`, `tmp` and is dot-prefixed exactly in
/// the Maildir++ layout; the existence replies said its `cur`, `new`
/// and `tmp` exist; and in Maildir++ nothing but the root is read. A
/// machine just built meets the invariant with nothing heard yet, and
/// each step keeps it, as long as the listing asked of the root lists
/// the root alone.
pub proof fn lemma_list_run(
    pre: MaildirList,
    arg: Option<MaildirReply>,
    post: MaildirList,
    r: MaildirListOutcome,
    root: Seq<char>,
    pp: bool,
    listed: Set<Seq<char>>,
    confirmed: Set<Seq<char>>,
)
    requires
        list_maildirs_resumes(pre, arg, post, r),
        list_run_inv(pre, root, pp, listed, confirmed),
        answers_root(pre, arg, root),
    ensures
        list_run_inv(post, root, pp, listed_after(listed, arg), confirmed_after(confirmed, arg)),
        r matches MaildirCoroutineState::Complete(Ok(v)) ==> all_reportable(
            maildirs_view(v@),
            root,
            pp,
            listed_after(listed, arg),
            confirmed_after(confirmed, arg),
        ),
        pp ==> (r matches MaildirCoroutineState::Yielded(MaildirYield::WantsDirRead(v)) ==> paths_view(v@) == seq![root]),
{
    let l2 = listed_after(listed, arg);
    let c2 = confirmed_after(confirmed, arg);
    assert(listed.subset_of(l2));
    assert(confirmed.subset_of(c2));
    match (pre.step(), arg) {
        (MaildirListStep::Read { probe_pending, found }, Some(MaildirReply::DirRead(es))) => {
            lemma_reportable_grows(maildirs_view(found@), root, pp, listed, confirmed, l2, c2);
            lemma_dedup_reportable(maildirs_view(found@), root, pp, l2, c2);
            let children = children_spec(es@, pp);
            let base = if probe_pending { listed_dirs(es@) } else { Seq::empty() };
            let cs = base + children;
            assert forall|i: int| 0 <= i < cs.len() implies listable(#[trigger] cs[i], root, pp, l2) by {
                if i < base.len() {
                    assert(cs[i] == es@[i].0@);
                } else {
                    lemma_children_listed(es@, pp, i - base.len());
                    assert(cs[i] == children[i - base.len()]);
                }
            }
        },
        (MaildirListStep::Probe { candidates, next_pending, found }, Some(MaildirReply::DirExists(m))) => {
            let cs = paths_view(candidates@);
            let cm = confirmed_maildirs(cs, m@);
            lemma_reportable_grows(maildirs_view(found@), root, pp, listed, confirmed, l2, c2);
            assert forall|k: int| 0 <= k < cm.len() implies reportable(#[trigger] cm[k], root, pp, l2, c2) by {
                lemma_confirmed_members(cs, m@, k);
                let i = choose|i: int| 0 <= i < cs.len() && cs[i] == cm[k];
                assert(listable(cs[i], root, pp, listed));
                assert(said_true(m@).contains(join_spec(cm[k], subdir_name_spec(MaildirSubdir::Cur))));
                assert(said_true(m@).contains(join_spec(cm[k], subdir_name_spec(MaildirSubdir::New))));
                assert(said_true(m@).contains(join_spec(cm[k], subdir_name_spec(MaildirSubdir::Tmp))));
            }
            let f2 = maildirs_view(found@) + cm;
            assert forall|k: int| 0 <= k < f2.len() implies reportable(#[trigger] f2[k], root, pp, l2, c2) by {
                if k < maildirs_view(found@).len() {
                    assert(f2[k] == maildirs_view(found@)[k]);
                } else {
                    assert(f2[k] == cm[k - maildirs_view(found@).len()]);
                }
            }
            lemma_dedup_reportable(f2, root, pp, l2, c2);
            if pp {
                assert(paths_view(next_pending@) =~= Seq::<Seq<char>>::empty());
            }
        },
        _ => {},
    }
}

proof fn lemma_keep_folders_contains(ps: Seq<MaildirFsPath>, pp: bool, x: Seq<char>)
    ensures
        keep_folders(ps, pp).contains(x) <==> (paths_view(ps).contains(x) && folder_path(x, pp)),
    decreases ps.len(),
{
    if ps.len() > 0 {
        let t = ps.drop_last();
        lemma_keep_folders_contains(t, pp, x);
        assert(paths_view(ps) =~= paths_view(t).push(ps.last()@));
        let kt = keep_folders(t, pp);
        if folder_path(ps.last()@, pp) {
            assert(kt.push(ps.last()@).contains(x) <==> (kt.contains(x) || x == ps.last()@)) by {
                if kt.push(ps.last()@).contains(x) {
                    let k = choose|k: int| 0 <= k < kt.len() + 1 && kt.push(ps.last()@)[k] == x;
                    if k < kt.len() {
                        assert(kt[k] == x);
                    }
                }
                if kt.contains(x) {
                    let k = choose|k: int| 0 <= k < kt.len() && kt[k] == x;
                    assert(kt.push(ps.last()@)[k] == x);
                }
                if x == ps.last()@ {
                    assert(kt.push(ps.last()@)[kt.len() as int] == x);
                }
            }
        }
        let pt = paths_view(t);
        assert(pt.push(ps.last()@).contains(x) <==> (pt.contains(x) || x == ps.last()@)) by {
            if pt.push(ps.last()@).contains(x) {
                let k = choose|k: int| 0 <= k < pt.len() + 1 && pt.push(ps.last()@)[k] == x;
                if k < pt.len() {
                    assert(pt[k] == x);
                }
            }
            if pt.contains(x) {
                let k = choose|k: int| 0 <= k < pt.len() && pt[k] == x;
                assert(pt.push(ps.last()@)[k] == x);
            }
            if x == ps.last()@ {
                assert(pt.push(ps.last()@)[pt.len() as int] == x);
            }
        }
    }
}

proof fn lemma_markers_hold(cs: Seq<Seq<char>>, i: int)
    requires
        0 <= i < cs.len(),
    ensures
        markers_spec(cs).contains(join_spec(cs[i], subdir_name_spec(MaildirSubdir::Cur))),
        markers_spec(cs).contains(join_spec(cs[i], subdir_name_spec(MaildirSubdir::New))),
        markers_spec(cs).contains(join_spec(cs[i], subdir_name_spec(MaildirSubdir::Tmp))),
    decreases cs.len(),
{
    let t = cs.drop_last();
    let mt = markers_spec(t);
    let tail = seq![
        join_spec(cs.last(), subdir_name_spec(MaildirSubdir::Cur)),
        join_spec(cs.last(), subdir_name_spec(MaildirSubdir::New)),
        join_spec(cs.last(), subdir_name_spec(MaildirSubdir::Tmp)),
    ];
    assert(markers_spec(cs) == mt + tail);
    if i < t.len() {
        lemma_markers_hold(t, i);
        assert(cs[i] == t[i]);
        let a = choose|k: int| 0 <= k < mt.len() && mt[k] == join_spec(t[i], subdir_name_spec(MaildirSubdir::Cur));
        assert((mt + tail)[a] == mt[a]);
        let b = choose|k: int| 0 <= k < mt.len() && mt[k] == join_spec(t[i], subdir_name_spec(MaildirSubdir::New));
        assert((mt + tail)[b] == mt[b]);
        let c = choose|k: int| 0 <= k < mt.len() && mt[k] == join_spec(t[i], subdir_name_spec(MaildirSubdir::Tmp));
        assert((mt + tail)[c] == mt[c]);
    } else {
        assert(cs[i] == cs.last());
        assert((mt + tail)[mt.len() as int] == tail[0]);
        assert((mt + tail)[mt.len() as int + 1] == tail[1]);
        assert((mt + tail)[mt.len() as int + 2] == tail[2]);
    }
}

/// An existence reply that tells the truth about the directories `dirs`
/// for every path of `ps`.
pub open spec fn exact_for(m: Seq<(MaildirFsPath, bool)>, ps: Seq<Seq<char>>, dirs: Set<Seq<char>>) -> bool {
    forall|i: int| 0 <= i < ps.len() ==> (probe_spec(m, #[trigger] ps[i]) <==> dirs.contains(ps[i]))
}

proof fn lemma_exact_confirms(m: Seq<(MaildirFsPath, bool)>, cs: Seq<Seq<char>>, extra: Seq<Seq<char>>, dirs: Set<Seq<char>>)
    requires
        exact_for(m, markers_spec(cs) + extra, dirs),
    ensures
        existence_exact(m, cs, dirs),
{
    let ps = markers_spec(cs) + extra;
    assert forall|i: int| 0 <= i < cs.len() implies (confirmed_maildir(m, #[trigger] cs[i]) <==> maildir_in(cs[i], dirs)) by {
        lemma_markers_hold(cs, i);
        let mk = markers_spec(cs);
        let a = choose|k: int| 0 <= k < mk.len() && mk[k] == join_spec(cs[i], subdir_name_spec(MaildirSubdir::Cur));
        assert(ps[a] == mk[a]);
        let b = choose|k: int| 0 <= k < mk.len() && mk[k] == join_spec(cs[i], subdir_name_spec(MaildirSubdir::New));
        assert(ps[b] == mk[b]);
        let c = choose|k: int| 0 <= k < mk.len() && mk[k] == join_spec(cs[i], subdir_name_spec(MaildirSubdir::Tmp));
        assert(ps[c] == mk[c]);
    }
}

proof fn lemma_exact_no_dirs(m: Seq<(MaildirFsPath, bool)>, ms: Seq<Seq<char>>, cs: Seq<Seq<char>>, dirs: Set<Seq<char>>)
    requires
        exact_for(m, ms + cs, dirs),
        forall|i: int| 0 <= i < cs.len() ==> !dirs.contains(#[trigger] cs[i]),
    ensures
        existing_dirs(cs, m).len() == 0,
    decreases cs.len(),
{
    if cs.len() > 0 {
        let t = cs.drop_last();
        assert(exact_for(m, ms + t, dirs)) by {
            assert forall|i: int| 0 <= i < (ms + t).len() implies (probe_spec(m, #[trigger] (ms + t)[i]) <==> dirs.contains((ms + t)[i])) by {
                if i < ms.len() {
                    assert((ms + t)[i] == (ms + cs)[i]);
                } else {
                    assert((ms + t)[i] == (ms + cs)[i]);
                }
            }
        }
        assert forall|i: int| 0 <= i < t.len() implies !dirs.contains(#[trigger] t[i]) by {
            assert(t[i] == cs[i]);
        }
        lemma_exact_no_dirs(m, ms, t, dirs);
        assert((ms + cs)[ms.len() + cs.len() - 1] == cs.last());
    }
}

proof fn lemma_none_confirmed(cs: Seq<Seq<char>>, m: Seq<(MaildirFsPath, bool)>, dirs: Set<Seq<char>>)
    requires
        existence_exact(m, cs, dirs),
        forall|i: int| 0 <= i < cs.len() ==> !maildir_in(#[trigger] cs[i], dirs),
    ensures
        confirmed_maildirs(cs, m).len() == 0,
    decreases cs.len(),
{
    if cs.len() > 0 {
        let t = cs.drop_last();
        assert forall|i: int| 0 <= i < t.len() implies (confirmed_maildir(m, #[trigger] t[i]) <==> maildir_in(t[i], dirs)) by {
            assert(t[i] == cs[i]);
        }
        assert forall|i: int| 0 <= i < t.len() implies !maildir_in(#[trigger] t[i], dirs) by {
            assert(t[i] == cs[i]);
        }
        lemma_none_confirmed(t, m, dirs);
        assert(!maildir_in(cs[cs.len() - 1], dirs));
    }
}

proof fn lemma_children_from(es: Seq<(MaildirFsPath, Vec<MaildirFsPath>)>, pp: bool, k: int)
    requires
        0 <= k < children_spec(es, pp).len(),
    ensures
        exists|i: int, j: int|
            0 <= i < es.len() && 0 <= j < es[i].1@.len() && (#[trigger] es[i].1@[j])@ == children_spec(es, pp)[k],
    decreases es.len(),
{
    let t = es.drop_last();
    let ct = children_spec(t, pp);
    let c = children_spec(es, pp)[k];
    if k < ct.len() {
        lemma_children_from(t, pp, k);
        assert(c == ct[k]);
        let (i, j) = choose|i: int, j: int| 0 <= i < t.len() && 0 <= j < t[i].1@.len() && (#[trigger] t[i].1@[j])@ == ct[k];
        assert(es[i] == t[i]);
    } else {
        let kf = keep_folders(es.last().1@, pp);
        assert(c == kf[k - ct.len()]);
        lemma_keep_folders_listed(es.last().1@, pp, k - ct.len());
        let j = choose|j: int| 0 <= j < es.last().1@.len() && (#[trigger] es.last().1@[j])@ == c;
        assert(es[es.len() - 1].1@[j]@ == c);
    }
}

/// What the listing of a one-level store reports, `v`: the root and its
/// folder-named children that are Maildirs, each once.
pub open spec fn one_level_result(v: Seq<Seq<char>>, root: Seq<char>, kids: Seq<MaildirFsPath>, dirs: Set<Seq<char>>) -> bool {
    &&& v.no_duplicates()
    &&& forall|x: Seq<char>| #[trigger] v.contains(x) <==> ((x == root || (paths_view(kids).contains(x) && folder_path(x, false)))
        && maildir_in(x, dirs))
}

/// Listing a one-level store reports exactly its Maildirs. In the fs
/// layout, a listing of the store rooted at `root`, whose replies tell
/// the truth about the directories `dirs`, whose root holds the entries
/// `kids`, and whose children hold no folder-named directory or
/// Maildir, reports each of the root and its folder-named children that
/// holds `cur`, `new` and `tmp` in `dirs`, and nothing else. Regular
/// files among the entries, such as a `dovecot-keywords` sidecar, are
/// never read as directories. The listing completes after reading the
/// root's children (`r3`), after reading theirs when they hold no
/// folder-named entry (`r4`), or after probing those (`r5`).
pub proof fn lemma_list_one_level(
    root: Seq<char>,
    kids: Seq<MaildirFsPath>,
    dirs: Set<Seq<char>>,
    l0: MaildirList,
    l1: MaildirList,
    r1: MaildirListOutcome,
    es1: Vec<(MaildirFsPath, Vec<MaildirFsPath>)>,
    l2: MaildirList,
    r2: MaildirListOutcome,
    m1: Vec<(MaildirFsPath, bool)>,
    l3: MaildirList,
    r3: MaildirListOutcome,
    es2: Vec<(MaildirFsPath, Vec<MaildirFsPath>)>,
    l4: MaildirList,
    r4: MaildirListOutcome,
    m2: Vec<(MaildirFsPath, bool)>,
    l5: MaildirList,
    r5: MaildirListOutcome,
)
    requires
        l0.step() matches MaildirListStep::Start { root: r0 } && r0@ == root,
        !l0.maildirpp_spec(),
        list_maildirs_resumes(l0, None, l1, r1),
        es1@.len() == 1,
        es1@[0].0@ == root,
        es1@[0].1@ == kids,
        list_maildirs_resumes(l1, Some(MaildirReply::DirRead(es1)), l2, r2),
        r2 matches MaildirCoroutineState::Yielded(MaildirYield::WantsDirExists(v)) && exact_for(m1@, paths_view(v@), dirs),
        list_maildirs_resumes(l2, Some(MaildirReply::DirExists(m1)), l3, r3),
        forall|i: int, j: int|
            0 <= i < es2@.len() && 0 <= j < es2@[i].1@.len() && folder_path((#[trigger] es2@[i].1@[j])@, false) ==> !dirs.contains(
                es2@[i].1@[j]@,
            ) && !maildir_in(es2@[i].1@[j]@, dirs),
        list_maildirs_resumes(l3, Some(MaildirReply::DirRead(es2)), l4, r4),
        r4 matches MaildirCoroutineState::Yielded(MaildirYield::WantsDirExists(v)) ==> exact_for(m2@, paths_view(v@), dirs),
        list_maildirs_resumes(l4, Some(MaildirReply::DirExists(m2)), l5, r5),
    ensures
        r3 matches MaildirCoroutineState::Complete(Ok(v)) ==> one_level_result(maildirs_view(v@), root, kids, dirs),
        r3 is Yielded ==> (r4 matches MaildirCoroutineState::Complete(Ok(v)) ==> one_level_result(maildirs_view(v@), root, kids, dirs)),
        r3 is Yielded && r4 is Yielded ==> (r5 matches MaildirCoroutineState::Complete(Ok(v)) && one_level_result(
            maildirs_view(v@),
            root,
            kids,
            dirs,
        )),
        r3 is Yielded || r3 matches MaildirCoroutineState::Complete(Ok(_)),
        r3 is Yielded ==> (r4 is Yielded || r4 matches MaildirCoroutineState::Complete(Ok(_))),
{
    let kf = keep_folders(kids, false);
    let es = es1@;
    assert(es.drop_last() =~= Seq::<(MaildirFsPath, Vec<MaildirFsPath>)>::empty());
    assert(es.last() == es[0]);
    assert(children_spec(es.drop_last(), false) =~= Seq::<Seq<char>>::empty());
    assert(children_spec(es, false) == children_spec(es.drop_last(), false) + keep_folders(es.last().1@, false));
    assert(children_spec(es, false) =~= kf);
    assert(listed_dirs(es) =~= seq![root]);
    let cs = seq![root] + kf;
    assert(paths_view(l2.step()->Probe_candidates@) == cs);
    let probes = markers_spec(cs) + kf;
    assert(exact_for(m1@, probes, dirs));
    lemma_exact_confirms(m1@, cs, kf, dirs);
    lemma_confirmed_complete(cs, m1@, dirs);
    let found1 = maildirs_view(l2.step()->Probe_found@) + confirmed_maildirs(cs, m1@);
    assert(maildirs_view(l2.step()->Probe_found@) =~= Seq::<Seq<char>>::empty());
    assert(found1 =~= confirmed_maildirs(cs, m1@));
    // What the first probe finds is exactly the Maildirs among the root
    // and its folder-named children.
    assert forall|x: Seq<char>| #[trigger] found1.contains(x) <==> ((x == root || (paths_view(kids).contains(x) && folder_path(
        x,
        false,
    ))) && maildir_in(x, dirs)) by {
        lemma_keep_folders_contains(kids, false, x);
        assert(cs.contains(x) <==> (x == root || kf.contains(x))) by {
            if cs.contains(x) {
                let k = choose|k: int| 0 <= k < cs.len() && cs[k] == x;
                if k > 0 {
                    assert(kf[k - 1] == x);
                }
            }
            if x == root {
                assert(cs[0] == x);
            }
            if kf.contains(x) {
                let k = choose|k: int| 0 <= k < kf.len() && kf[k] == x;
                assert(cs[k + 1] == x);
            }
        }
        if found1.contains(x) {
            let k = choose|k: int| 0 <= k < found1.len() && found1[k] == x;
            lemma_confirmed_members(cs, m1@, k);
            let i = choose|i: int| 0 <= i < cs.len() && cs[i] == x;
            assert(confirmed_maildir(m1@, cs[i]));
        }
        if (x == root || kf.contains(x)) && maildir_in(x, dirs) {
            let i = choose|i: int| 0 <= i < cs.len() && cs[i] == x;
            assert(confirmed_maildirs(cs, m1@).contains(cs[i]));
        }
    }
    lemma_dedup_views(found1);
    if r3 is Yielded {
        let f3 = l3.step()->Read_found;
        assert(maildirs_view(f3@) == found1);
        let cs2 = children_spec(es2@, false);
        assert forall|k: int| 0 <= k < cs2.len() implies !dirs.contains(#[trigger] cs2[k]) && !maildir_in(cs2[k], dirs) by {
            lemma_children_from(es2@, false, k);
            lemma_children_listed(es2@, false, k);
            let (i, j) = choose|i: int, j: int|
                0 <= i < es2@.len() && 0 <= j < es2@[i].1@.len() && (#[trigger] es2@[i].1@[j])@ == cs2[k];
        }
        if r4 is Yielded {
            assert(paths_view(l4.step()->Probe_candidates@) == cs2);
            assert(paths_view(l4.step()->Probe_next_pending@) == cs2);
            let p2 = markers_spec(cs2) + cs2;
            assert(exact_for(m2@, p2, dirs));
            lemma_exact_confirms(m2@, cs2, cs2, dirs);
            lemma_none_confirmed(cs2, m2@, dirs);
            lemma_exact_no_dirs(m2@, markers_spec(cs2), cs2, dirs);
            assert(found1 + confirmed_maildirs(cs2, m2@) =~= found1);
        }
    }
}

} // verus!
