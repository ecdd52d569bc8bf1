//! The protocol every Maildir state machine speaks: the filesystem
//! work it asks for ([`MaildirYield`]), the answer the caller feeds
//! back ([`MaildirReply`]) and the outcome of one step
//! ([`MaildirCoroutineState`]).
//!
//! Sets and maps of paths travel as vectors in the order the caller
//! or the machine produced them; a lookup takes the first pair whose
//! path matches.

use vstd::prelude::*;

use crate::path::MaildirFsPath;

verus! {

/// Filesystem work a state machine asks its caller to perform.
#[derive(Debug)]
pub enum MaildirYield {
    /// Tell, for each path, whether it is a regular file.
    WantsFileExists(Vec<MaildirFsPath>),
    /// Tell, for each path, whether it is a directory.
    WantsDirExists(Vec<MaildirFsPath>),
    /// List the entries of each directory.
    WantsDirRead(Vec<MaildirFsPath>),
    /// Read each file whole.
    WantsFileRead(Vec<MaildirFsPath>),
    /// Write each file, creating its parent directories.
    WantsFileCreate(Vec<(MaildirFsPath, Vec<u8>)>),
    /// Create each directory and its parents, in order.
    WantsDirCreate(Vec<MaildirFsPath>),
    /// Remove each directory and everything below it.
    WantsDirRemove(Vec<MaildirFsPath>),
    /// Rename each `(from, to)` pair, in order.
    WantsRename(Vec<(MaildirFsPath, MaildirFsPath)>),
    /// Copy each `(from, to)` pair, in order.
    WantsCopy(Vec<(MaildirFsPath, MaildirFsPath)>),
    /// Tell the wall-clock time and the next delivery counter.
    WantsTime,
    /// Tell the process id.
    WantsPid,
    /// Tell the host name.
    WantsHostname,
}

/// The caller's answer to a [`MaildirYield`].
#[derive(Debug)]
pub enum MaildirReply {
    /// Answer to [`MaildirYield::WantsFileExists`].
    FileExists(Vec<(MaildirFsPath, bool)>),
    /// Answer to [`MaildirYield::WantsDirExists`].
    DirExists(Vec<(MaildirFsPath, bool)>),
    /// Answer to [`MaildirYield::WantsDirRead`]: each directory with
    /// the paths of its entries.
    DirRead(Vec<(MaildirFsPath, Vec<MaildirFsPath>)>),
    /// Answer to [`MaildirYield::WantsFileRead`]: each file that could
    /// be read, with its bytes; a file that could not be read is left
    /// out.
    FileRead(Vec<(MaildirFsPath, Vec<u8>)>),
    /// Answer to [`MaildirYield::WantsFileCreate`].
    FileCreate,
    /// Answer to [`MaildirYield::WantsDirCreate`].
    DirCreate,
    /// Answer to [`MaildirYield::WantsDirRemove`].
    DirRemove,
    /// Answer to [`MaildirYield::WantsRename`].
    Rename,
    /// Answer to [`MaildirYield::WantsCopy`].
    Copy,
    /// Answer to [`MaildirYield::WantsTime`]: seconds and nanoseconds
    /// since the epoch, and the value of the process-wide counter that
    /// tells apart names minted within one clock tick.
    Time { secs: u64, nanos: u32, counter: u32 },
    /// Answer to [`MaildirYield::WantsPid`].
    Pid(u32),
    /// Answer to [`MaildirYield::WantsHostname`].
    Hostname(String),
}

/// The outcome of one step: more work wanted, or the final result.
#[derive(Debug)]
pub enum MaildirCoroutineState<Y, R> {
    /// The machine waits for the answer to `Y`.
    Yielded(Y),
    /// The machine is done.
    Complete(R),
}

impl<Y, R> MaildirCoroutineState<Y, R> {
    /// Whether the machine waits for an answer.
    pub fn is_yielded(&self) -> (r: bool)
        ensures
            r == (self is Yielded),
    {
        match self {
            MaildirCoroutineState::Yielded(_) => true,
            MaildirCoroutineState::Complete(_) => false,
        }
    }
}

/// The paths of `v`, as strings.
pub open spec fn paths_view(v: Seq<MaildirFsPath>) -> Seq<Seq<char>> {
    v.map_values(|p: MaildirFsPath| p@)
}

/// The `(from, to)` pairs of `v`, as strings.
pub open spec fn pairs_view(v: Seq<(MaildirFsPath, MaildirFsPath)>) -> Seq<(Seq<char>, Seq<char>)> {
    v.map_values(|p: (MaildirFsPath, MaildirFsPath)| (p.0@, p.1@))
}

/// The `(path, bytes)` pairs of `v`, as strings and byte sequences.
pub open spec fn files_view(v: Seq<(MaildirFsPath, Vec<u8>)>) -> Seq<(Seq<char>, Seq<u8>)> {
    v.map_values(|p: (MaildirFsPath, Vec<u8>)| (p.0@, p.1@))
}

/// `s` with each repeat left out: every text kept at its first place.
pub open spec fn dedup_views(s: Seq<Seq<char>>) -> Seq<Seq<char>>
    decreases s.len(),
{
    if s.len() == 0 {
        Seq::empty()
    } else if s.drop_last().contains(s.last()) {
        dedup_views(s.drop_last())
    } else {
        dedup_views(s.drop_last()).push(s.last())
    }
}

/// Leaving repeats out keeps every text once and no other.
pub proof fn lemma_dedup_views(s: Seq<Seq<char>>)
    ensures
        forall|x: Seq<char>| #[trigger] dedup_views(s).contains(x) <==> s.contains(x),
        dedup_views(s).no_duplicates(),
    decreases s.len(),
{
    if s.len() > 0 {
        let t = s.drop_last();
        lemma_dedup_views(t);
        assert(t.push(s.last()) =~= s);
        assert forall|x: Seq<char>| s.contains(x) <==> (t.contains(x) || x == s.last()) by {
            if s.contains(x) {
                let k = choose|k: int| 0 <= k < s.len() && s[k] == x;
                if k < t.len() {
                    assert(t[k] == x);
                }
            }
            if t.contains(x) {
                let k = choose|k: int| 0 <= k < t.len() && t[k] == x;
                assert(s[k] == x);
            }
            if x == s.last() {
                assert(s[s.len() - 1] == x);
            }
        }
        if !t.contains(s.last()) {
            let d = dedup_views(t);
            let e = d.push(s.last());
            assert forall|x: Seq<char>| #[trigger] e.contains(x) <==> (d.contains(x) || x == s.last()) by {
                if e.contains(x) {
                    let k = choose|k: int| 0 <= k < e.len() && e[k] == x;
                    if k < d.len() {
                        assert(d[k] == x);
                    }
                }
                if d.contains(x) {
                    let k = choose|k: int| 0 <= k < d.len() && d[k] == x;
                    assert(e[k] == x);
                }
                if x == s.last() {
                    assert(e[d.len() as int] == x);
                }
            }
            assert forall|i: int, j: int| 0 <= i < e.len() && 0 <= j < e.len() && i != j implies e[i] != e[j] by {
                if i < d.len() && j < d.len() {
                    assert(e[i] == d[i] && e[j] == d[j]);
                } else if i < d.len() {
                    assert(d.contains(e[i]));
                } else if j < d.len() {
                    assert(d.contains(e[j]));
                }
            }
        }
    }
}

/// The answer an existence reply gives for `p`: the flag of the first
/// pair naming `p`, `false` when none does.
pub open spec fn probe_spec(m: Seq<(MaildirFsPath, bool)>, p: Seq<char>) -> bool
    decreases m.len(),
{
    if m.len() == 0 {
        false
    } else if m[0].0@ == p {
        m[0].1
    } else {
        probe_spec(m.drop_first(), p)
    }
}

/// The bytes a read reply gives for `p`: those of the first pair naming
/// `p`, nothing when none does.
pub open spec fn read_spec(m: Seq<(MaildirFsPath, Vec<u8>)>, p: Seq<char>) -> Seq<u8>
    decreases m.len(),
{
    if m.len() == 0 {
        Seq::empty()
    } else if m[0].0@ == p {
        m[0].1@
    } else {
        read_spec(m.drop_first(), p)
    }
}

/// Whether a read reply gives bytes for `p`.
pub open spec fn read_has(m: Seq<(MaildirFsPath, Vec<u8>)>, p: Seq<char>) -> bool {
    exists|i: int| 0 <= i < m.len() && (#[trigger] m[i]).0@ == p
}

/// Whether a read reply gives bytes for `p`.
pub fn has_read(m: &Vec<(MaildirFsPath, Vec<u8>)>, p: &MaildirFsPath) -> (r: bool)
    ensures
        r == read_has(m@, p@),
{
    let mut i: usize = 0;
    while i < m.len()
        invariant
            i <= m@.len(),
            forall|j: int| 0 <= j < i ==> (#[trigger] m@[j]).0@ != p@,
        decreases m@.len() - i,
    {
        if m[i].0.same(p) {
            assert(m@[i as int].0@ == p@);
            return true;
        }
        i = i + 1;
    }
    false
}

/// The answer an existence reply gives for `p`.
pub fn probe(m: &Vec<(MaildirFsPath, bool)>, p: &MaildirFsPath) -> (r: bool)
    ensures
        r == probe_spec(m@, p@),
{
    let mut i: usize = 0;
    assert(m@.skip(0) =~= m@);
    while i < m.len()
        invariant
            i <= m@.len(),
            probe_spec(m@, p@) == probe_spec(m@.skip(i as int), p@),
        decreases m@.len() - i,
    {
        assert(m@.skip(i as int)[0] == m@[i as int]);
        if m[i].0.same(p) {
            return m[i].1;
        }
        assert(m@.skip(i as int).drop_first() =~= m@.skip(i + 1));
        i = i + 1;
    }
    false
}

/// Takes out of a read reply the bytes it gives for `p`.
pub fn take_read(m: Vec<(MaildirFsPath, Vec<u8>)>, p: &MaildirFsPath) -> (r: Vec<u8>)
    ensures
        r@ == read_spec(m@, p@),
{
    let mut i: usize = 0;
    assert(m@.skip(0) =~= m@);
    while i < m.len()
        invariant
            i <= m@.len(),
            read_spec(m@, p@) == read_spec(m@.skip(i as int), p@),
        ensures
            i < m@.len() ==> m@[i as int].0@ == p@,
        decreases m@.len() - i,
    {
        assert(m@.skip(i as int)[0] == m@[i as int]);
        if m[i].0.same(p) {
            break;
        }
        assert(m@.skip(i as int).drop_first() =~= m@.skip(i + 1));
        i = i + 1;
    }
    if i < m.len() {
        assert(read_spec(m@.skip(i as int), p@) == m@[i as int].1@);
        let mut v = m;
        let pair = v.swap_remove(i);
        pair.1
    } else {
        Vec::new()
    }
}

/// A copy of the bytes a read reply gives for `p`.
pub fn read_copy(m: &Vec<(MaildirFsPath, Vec<u8>)>, p: &MaildirFsPath) -> (r: Vec<u8>)
    ensures
        r@ == read_spec(m@, p@),
{
    let mut i: usize = 0;
    assert(m@.skip(0) =~= m@);
    while i < m.len()
        invariant
            i <= m@.len(),
            read_spec(m@, p@) == read_spec(m@.skip(i as int), p@),
        decreases m@.len() - i,
    {
        assert(m@.skip(i as int)[0] == m@[i as int]);
        if m[i].0.same(p) {
            let bytes = &m[i].1;
            let mut out: Vec<u8> = Vec::new();
            let mut k: usize = 0;
            while k < bytes.len()
                invariant
                    k <= bytes@.len(),
                    out@ == bytes@.take(k as int),
                decreases bytes@.len() - k,
            {
                out.push(bytes[k]);
                k = k + 1;
                assert(out@ =~= bytes@.take(k as int));
            }
            assert(bytes@.take(k as int) =~= bytes@);
            return out;
        }
        assert(m@.skip(i as int).drop_first() =~= m@.skip(i + 1));
        i = i + 1;
    }
    Vec::new()
}

/// Takes out of a listing reply the entries of its first directory,
/// nothing when it names no directory.
pub fn take_first_listing(m: Vec<(MaildirFsPath, Vec<MaildirFsPath>)>) -> (r: Vec<MaildirFsPath>)
    ensures
        r@ == (if m@.len() > 0 { m@[0].1@ } else { Seq::empty() }),
{
    let mut m = m;
    if m.len() == 0 {
        Vec::new()
    } else {
        let (_, entries) = m.swap_remove(0);
        entries
    }
}

} // verus!
