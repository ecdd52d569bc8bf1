//! State machine fetching a Maildir entry by its id: locates it, then
//! reads its file.

use vstd::prelude::*;

use crate::coroutine::{paths_view, read_spec, take_read, MaildirCoroutineState, MaildirReply, MaildirYield};
use crate::entry::locate::{locate_resumes, LocateOutcome, MaildirEntryLocate, MaildirEntryLocateError};
use crate::entry::MaildirFullEntry;
use crate::flag::parsed_flags;
use crate::maildir::Maildir;
use crate::path::{join_spec, MaildirFsPath};

verus! {

/// Failure causes during a [`MaildirEntryGet`] step.
#[derive(Debug)]
pub enum MaildirEntryGetError {
    /// A reply arrived that does not match the awaited step.
    UnexpectedArg(Option<MaildirReply>),
    /// The inner locate step failed.
    Locate(MaildirEntryLocateError),
}

/// Where a [`MaildirEntryGet`] stands.
#[derive(Debug)]
pub enum GetStep {
    /// Locating the entry.
    Locate(MaildirEntryLocate),
    /// Waiting for the bytes of the located file.
    Read { path: MaildirFsPath },
    /// Finished; any further reply is unexpected.
    Done,
}

/// What one step of [`MaildirEntryGet`] gives.
pub type GetOutcome = MaildirCoroutineState<MaildirYield, Result<MaildirFullEntry, MaildirEntryGetError>>;

/// Locates a Maildir entry by id and reads its contents.
#[derive(Debug)]
pub struct MaildirEntryGet {
    step: GetStep,
}

/// One step of [`MaildirEntryGet`] from `pre` on `arg` leads to `post`
/// and gives `r`.
pub open spec fn get_resumes(
    pre: MaildirEntryGet,
    arg: Option<MaildirReply>,
    post: MaildirEntryGet,
    r: GetOutcome,
) -> bool {
    match pre.step() {
        GetStep::Locate(c) => exists|c2: MaildirEntryLocate, r2: LocateOutcome|
            #[trigger] locate_resumes(c, arg, c2, r2) && match r2 {
                MaildirCoroutineState::Yielded(y) => {
                    &&& post.step() == GetStep::Locate(c2)
                    &&& r == GetOutcome::Yielded(y)
                },
                MaildirCoroutineState::Complete(Err(e)) => {
                    &&& post.step() is Done
                    &&& r == GetOutcome::Complete(Err(MaildirEntryGetError::Locate(e)))
                },
                MaildirCoroutineState::Complete(Ok(o)) => {
                    &&& post.step() matches GetStep::Read { path } && path@ == o.path@
                    &&& r matches MaildirCoroutineState::Yielded(MaildirYield::WantsFileRead(v))
                        && paths_view(v@) == seq![o.path@]
                },
            },
        GetStep::Read { path } => {
            &&& post.step() is Done
            &&& match arg {
                Some(MaildirReply::FileRead(m)) => r matches MaildirCoroutineState::Complete(Ok(e)) && e.path()@
                    == path@ && e.contents()@ == read_spec(m@, path@) && parsed_flags(e.flags()@, path@),
                _ => r == GetOutcome::Complete(Err(MaildirEntryGetError::UnexpectedArg(arg))),
            }
        },
        GetStep::Done => {
            &&& post.step() is Done
            &&& r == GetOutcome::Complete(Err(MaildirEntryGetError::UnexpectedArg(arg)))
        },
    }
}

impl MaildirEntryGet {
    /// Where the machine stands.
    pub closed spec fn step(&self) -> GetStep {
        self.step
    }

    /// The path whose bytes the machine waits for, if it waits for a
    /// read.
    pub fn reading(&self) -> (r: Option<&MaildirFsPath>)
        ensures
            self.step() matches GetStep::Read { path } ==> (r matches Some(p) && p@ == path@),
            !(self.step() is Read) ==> r is None,
    {
        match &self.step {
            GetStep::Read { path } => Some(path),
            _ => None,
        }
    }

    /// Builds a machine fetching the entry `id` of `maildir`.
    pub fn new(maildir: Maildir, id: &str) -> (r: Self)
        ensures
            r.step() matches GetStep::Locate(c) && c.maildir_spec() == maildir@ && c.id_spec() == id@
                && c.step() is Start,
    {
        MaildirEntryGet { step: GetStep::Locate(MaildirEntryLocate::new(maildir, id)) }
    }

    /// Makes the fetch progress with the caller's answer `arg`.
    pub fn resume(&mut self, arg: Option<MaildirReply>) -> (r: GetOutcome)
        ensures
            get_resumes(*old(self), arg, *final(self), r),
    {
        let mut step = GetStep::Done;
        core::mem::swap(&mut step, &mut self.step);
        match step {
            GetStep::Locate(mut c) => {
                let ghost c0 = c;
                let r2 = c.resume(arg);
                let ghost c2 = c;
                let ghost r2g = r2;
                proof {
                    assert(locate_resumes(c0, arg, c2, r2g));
                }
                match r2 {
                    MaildirCoroutineState::Yielded(y) => {
                        self.step = GetStep::Locate(c);
                        MaildirCoroutineState::Yielded(y)
                    },
                    MaildirCoroutineState::Complete(Err(e)) => {
                        MaildirCoroutineState::Complete(Err(MaildirEntryGetError::Locate(e)))
                    },
                    MaildirCoroutineState::Complete(Ok(o)) => {
                        let mut paths: Vec<MaildirFsPath> = Vec::new();
                        paths.push(o.path.clone());
                        proof {
                            assert(paths_view(paths@) =~= seq![o.path@]);
                        }
                        self.step = GetStep::Read { path: o.path };
                        MaildirCoroutineState::Yielded(MaildirYield::WantsFileRead(paths))
                    },
                }
            },
            GetStep::Read { path } => match arg {
                Some(MaildirReply::FileRead(m)) => {
                    let contents = take_read(m, &path);
                    MaildirCoroutineState::Complete(Ok(MaildirFullEntry::from((path, contents))))
                },
                arg => MaildirCoroutineState::Complete(Err(MaildirEntryGetError::UnexpectedArg(arg))),
            },
            GetStep::Done => MaildirCoroutineState::Complete(Err(MaildirEntryGetError::UnexpectedArg(arg))),
        }
    }
}

/// Some entry of `paths` has the id `id`, so a first one does.
proof fn lemma_first_match_exists(paths: Seq<MaildirFsPath>, id: Seq<char>, k: int)
    requires
        0 <= k < paths.len(),
        crate::entry::locate::id_matches(paths[k]@, id),
    ensures
        exists|f: int| crate::entry::locate::is_first_match(paths, id, f),
    decreases k,
{
    if exists|j: int| 0 <= j < k && crate::entry::locate::id_matches(#[trigger] paths[j]@, id) {
        let j = choose|j: int| 0 <= j < k && crate::entry::locate::id_matches(#[trigger] paths[j]@, id);
        lemma_first_match_exists(paths, id, j);
    } else {
        assert(crate::entry::locate::is_first_match(paths, id, k));
    }
}

/// A get after a store reads back what was stored. A store of `body`
/// into `cur` of the Maildir at `root` mints the id `id` and leaves the
/// entry at `path`. A get of `id` in the same Maildir, told that
/// nothing of that id sits in `new` or `tmp`, handed a listing of `cur`
/// that holds `path` and no other entry of that id, and handed for
/// `path` the bytes the store wrote, completes with the entry at `path`:
/// its id is `id` and its bytes are `body`. The id must hold no `/` and
/// the flags must be plain letters, so that the id reads back from the
/// file name.
pub proof fn lemma_get_after_store(
    root: Seq<char>,
    id: Seq<char>,
    path: Seq<char>,
    body: Seq<u8>,
    s0: crate::entry::store::MaildirEntryStore,
    a0: Option<MaildirReply>,
    s1: crate::entry::store::MaildirEntryStore,
    r1: crate::entry::store::EntryStoreOutcome,
    s2: crate::entry::store::MaildirEntryStore,
    r2: crate::entry::store::EntryStoreOutcome,
    s3: crate::entry::store::MaildirEntryStore,
    r3: crate::entry::store::EntryStoreOutcome,
    g0: MaildirEntryGet,
    g1: MaildirEntryGet,
    y1: GetOutcome,
    e: Vec<(MaildirFsPath, bool)>,
    g2: MaildirEntryGet,
    y2: GetOutcome,
    d: Vec<(MaildirFsPath, Vec<MaildirFsPath>)>,
    g3: MaildirEntryGet,
    y3: GetOutcome,
    m: Vec<(MaildirFsPath, Vec<u8>)>,
    g4: MaildirEntryGet,
    y4: GetOutcome,
)
    requires
        s0.maildir_spec() == root,
        s0.subdir_spec() == crate::maildir::MaildirSubdir::Cur,
        crate::flag::plain_letters(s0.flags_spec().letters),
        s0.step() matches crate::entry::store::EntryStoreStep::Mint { contents, .. } && contents@ == body,
        crate::entry::store::entry_store_resumes(s0, a0, s1, r1),
        s1.step() is Create,
        crate::entry::store::entry_store_resumes(s1, Some(MaildirReply::FileCreate), s2, r2),
        crate::entry::store::entry_store_resumes(s2, Some(MaildirReply::Rename), s3, r3),
        r3 matches MaildirCoroutineState::Complete(Ok(o)) && o.id@ == id && o.path@ == path,
        !id.contains('/'),
        g0.step() matches GetStep::Locate(c) && c.maildir_spec() == root && c.id_spec() == id && c.step() is Start,
        get_resumes(g0, None, g1, y1),
        !crate::coroutine::probe_spec(e@, crate::entry::locate::in_subdir(root, crate::maildir::MaildirSubdir::New, id)),
        !crate::coroutine::probe_spec(e@, crate::entry::locate::in_subdir(root, crate::maildir::MaildirSubdir::Tmp, id)),
        get_resumes(g1, Some(MaildirReply::FileExists(e)), g2, y2),
        d@.len() > 0,
        crate::coroutine::paths_view(d@[0].1@).contains(path),
        forall|j: int|
            0 <= j < d@[0].1@.len() && crate::entry::locate::id_matches(#[trigger] d@[0].1@[j]@, id) ==> d@[0].1@[j]@
                == path,
        get_resumes(g2, Some(MaildirReply::DirRead(d)), g3, y3),
        read_spec(m@, path) == body,
        get_resumes(g3, Some(MaildirReply::FileRead(m)), g4, y4),
    ensures
        y4 matches MaildirCoroutineState::Complete(Ok(en)) && en.path()@ == path && crate::entry::entry_id_spec(
            en.path()@,
        ) == Some(id) && en.contents()@ == body,
{
    // The store leaves the entry at its target path in `cur`.
    let flags = s0.flags_spec();
    let (m2, mr) = choose|m2: crate::entry::mint::MaildirIdMint, r2: crate::entry::mint::MintOutcome|
        #[trigger] crate::entry::mint::mint_resumes(
            s0.step()->Mint_mint,
            a0,
            m2,
            r2,
        ) && match r2 {
            MaildirCoroutineState::Yielded(y) => {
                &&& s1.step() matches crate::entry::store::EntryStoreStep::Mint { mint: m3, contents: c3 } && m3 == m2
                    && c3@ == s0.step()->Mint_contents@
                &&& r1 == crate::entry::store::EntryStoreOutcome::Yielded(y)
            },
            MaildirCoroutineState::Complete(Err(a)) => {
                &&& s1.step() is Done
                &&& r1 == crate::entry::store::EntryStoreOutcome::Complete(
                    Err(crate::entry::store::MaildirEntryStoreError::UnexpectedArg(a)),
                )
            },
            MaildirCoroutineState::Complete(Ok(mid)) => {
                let tmp = crate::entry::locate::in_subdir(root, crate::maildir::MaildirSubdir::Tmp, mid@);
                let fin = crate::entry::target_path_spec(root, s0.subdir_spec(), mid@, s0.flags_spec());
                &&& s1.step() matches crate::entry::store::EntryStoreStep::Create { id: i3, tmp_path, final_path }
                    && i3@ == mid@ && tmp_path@ == tmp && final_path@ == fin
                &&& r1 matches MaildirCoroutineState::Yielded(MaildirYield::WantsFileCreate(v))
                    && crate::coroutine::files_view(v@) == seq![(tmp, s0.step()->Mint_contents@)]
            },
        };
    assert(path == crate::entry::target_path_spec(root, crate::maildir::MaildirSubdir::Cur, id, flags));
    let cur = join_spec(root, crate::maildir::subdir_name_spec(crate::maildir::MaildirSubdir::Cur));
    crate::entry::lemma_cur_name_keeps_id(cur, id, flags);
    assert(crate::entry::locate::id_matches(path, id));
    // The get probes `new` and `tmp`, scans `cur`, finds `path` and reads it.
    let c0 = g0.step()->Locate_0;
    let (c1, lr1) = choose|c2: crate::entry::locate::MaildirEntryLocate, r2: crate::entry::locate::LocateOutcome|
        #[trigger] crate::entry::locate::locate_resumes(c0, None, c2, r2) && match r2 {
            MaildirCoroutineState::Yielded(y) => {
                &&& g1.step() == GetStep::Locate(c2)
                &&& y1 == GetOutcome::Yielded(y)
            },
            MaildirCoroutineState::Complete(Err(er)) => {
                &&& g1.step() is Done
                &&& y1 == GetOutcome::Complete(Err(MaildirEntryGetError::Locate(er)))
            },
            MaildirCoroutineState::Complete(Ok(o)) => {
                &&& g1.step() matches GetStep::Read { path } && path@ == o.path@
                &&& y1 matches MaildirCoroutineState::Yielded(MaildirYield::WantsFileRead(v))
                    && paths_view(v@) == seq![o.path@]
            },
        };
    assert(g1.step() == GetStep::Locate(c1));
    let (c2, lr2) = choose|c2: crate::entry::locate::MaildirEntryLocate, r2: crate::entry::locate::LocateOutcome|
        #[trigger] crate::entry::locate::locate_resumes(c1, Some(MaildirReply::FileExists(e)), c2, r2) && match r2 {
            MaildirCoroutineState::Yielded(y) => {
                &&& g2.step() == GetStep::Locate(c2)
                &&& y2 == GetOutcome::Yielded(y)
            },
            MaildirCoroutineState::Complete(Err(er)) => {
                &&& g2.step() is Done
                &&& y2 == GetOutcome::Complete(Err(MaildirEntryGetError::Locate(er)))
            },
            MaildirCoroutineState::Complete(Ok(o)) => {
                &&& g2.step() matches GetStep::Read { path } && path@ == o.path@
                &&& y2 matches MaildirCoroutineState::Yielded(MaildirYield::WantsFileRead(v))
                    && paths_view(v@) == seq![o.path@]
            },
        };
    assert(c2.step() is Scan);
    assert(g2.step() == GetStep::Locate(c2));
    let listing = d@[0].1@;
    let k0 = choose|k: int| 0 <= k < crate::coroutine::paths_view(listing).len() && crate::coroutine::paths_view(listing)[k] == path;
    assert(listing[k0]@ == path);
    lemma_first_match_exists(listing, id, k0);
    let f = crate::entry::locate::first_match(listing, id);
    let fk = choose|fk: int| crate::entry::locate::is_first_match(listing, id, fk);
    crate::entry::locate::lemma_first_match_unique(listing, id, fk);
    assert(listing[f]@ == path);
    let (c3, lr3) = choose|c3: crate::entry::locate::MaildirEntryLocate, r3: crate::entry::locate::LocateOutcome|
        #[trigger] crate::entry::locate::locate_resumes(c2, Some(MaildirReply::DirRead(d)), c3, r3) && match r3 {
            MaildirCoroutineState::Yielded(y) => {
                &&& g3.step() == GetStep::Locate(c3)
                &&& y3 == GetOutcome::Yielded(y)
            },
            MaildirCoroutineState::Complete(Err(er)) => {
                &&& g3.step() is Done
                &&& y3 == GetOutcome::Complete(Err(MaildirEntryGetError::Locate(er)))
            },
            MaildirCoroutineState::Complete(Ok(o)) => {
                &&& g3.step() matches GetStep::Read { path } && path@ == o.path@
                &&& y3 matches MaildirCoroutineState::Yielded(MaildirYield::WantsFileRead(v))
                    && paths_view(v@) == seq![o.path@]
            },
        };
    assert(g3.step() matches GetStep::Read { path: p3 } && p3@ == path);
}

} // verus!
