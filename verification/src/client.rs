//! The Maildir client: a store plus the options that decide how custom
//! keywords travel, and the state machines that run each client
//! operation. The caller drives a machine against a filesystem.

use vstd::prelude::*;
use vstd::utf8::encode_utf8;

use crate::coroutine::{
    has_read, pairs_view, paths_view, probe, probe_spec, read_copy, read_has, read_spec, MaildirCoroutineState, MaildirReply,
    MaildirYield,
};
use crate::dovecot::load::{dovecot_load_resumes, sidecar_path, DovecotLoadOutcome, MaildirDovecotLoad, MaildirDovecotLoadError};
use crate::dovecot::store::{DovecotStoreStep, MaildirDovecotStore, MaildirDovecotStoreError};
use crate::dovecot::{alloc_all, allocate_slot, lemma_alloc_keeps, serialize_spec, slot_in, table_map, table_wf, DovecotKeywords};
use crate::entry::store::MaildirEntryStoreError;
use crate::flag::add::{flags_add_resumes, FlagsAddOutcome, FlagsAddStep, MaildirFlagsAdd, MaildirFlagsAddError};
use crate::flag::remove::{flags_remove_resumes, FlagsRemoveOutcome, FlagsRemoveStep, MaildirFlagsRemove, MaildirFlagsRemoveError};
use crate::flag::set::{flags_set_resumes, FlagsSetOutcome, FlagsSetStep, MaildirFlagsSet, MaildirFlagsSetError};
use crate::flag::{flags_wf, header_name_spec, keywords_of, parsed_flags, string_views, FlagsView, KeywordHeader, MaildirFlags};
use crate::path::join_spec;
use crate::entry::headers::{inject_header, inject_header_spec, strip_headers, strip_headers_spec};
use crate::entry::copy::{EntryCopyStep, MaildirEntryCopy};
use crate::entry::get::{get_resumes, GetOutcome, GetStep, MaildirEntryGet, MaildirEntryGetError};
use crate::entry::list::{entries_view, ListStep, MaildirEntryList};
use crate::entry::locate::MaildirEntryLocate;
use crate::entry::relocate::{EntryMoveStep, MaildirEntryMove};
use crate::entry::{MaildirEntry, MaildirFullEntry};
use crate::entry::store::{entry_store_resumes, EntryStoreOutcome, EntryStoreStep, MaildirEntryStore};
use crate::keywords::{
    header_keywords, opt_table, read_flags, read_flags_spec,
    header_value, header_value_spec, keywords_fresh, keywords_resumes, KeywordsOutcome, MaildirKeywordsError,
    MaildirKeywordsResolve,
};
use crate::maildir::create::{maildir_dirs, CreateStep, MaildirCreate};
use crate::maildir::delete::{DeleteStep, MaildirDelete};
use crate::maildir::list::{MaildirList, MaildirListStep};
use crate::maildir::rename::{MaildirRename, RenameStep};
use crate::maildir::{subdir_name_spec, Maildir, MaildirSubdir, CUR, NEW, TMP};
use crate::path::{MaildirFsPath, MaildirPath};
use crate::store::{resolve_spec, MaildirStore};

verus! {

/// Maildir client: a filesystem root with its layout, and how custom
/// keywords are kept.
#[derive(Debug)]
pub struct MaildirClient {
    /// Filesystem root and layout.
    pub store: MaildirStore,
    /// Resolve and persist custom keywords through the
    /// `dovecot-keywords` sidecar.
    pub dovecot_keywords: bool,
    /// Header carrying custom keywords inline with the body.
    pub keywords_header: Option<KeywordHeader>,
    /// Header names dropped from message bytes on read.
    pub strip_headers: Vec<String>,
}

impl MaildirClient {
    /// A client rooted at `root` in the fs layout, keeping no custom
    /// keyword and stripping no header. Set `store.maildirpp` for the
    /// Maildir++ layout.
    pub fn new(root: MaildirFsPath) -> (r: Self)
        ensures
            r.store.root@ == root@,
            !r.store.maildirpp,
            !r.dovecot_keywords,
            r.keywords_header is None,
            r.strip_headers@.len() == 0,
    {
        MaildirClient {
            store: MaildirStore { root, maildirpp: false },
            dovecot_keywords: false,
            keywords_header: None,
            strip_headers: Vec::new(),
        }
    }
}

/// Gives each of `keywords`, in order, its slot in `table`, allocating
/// the lowest free slot to a keyword the table does not name yet, and
/// adds the slot letters to `flags`. A keyword finding the table full is
/// dropped. Returns whether the table gained entries.
pub fn allocate_keyword_letters(table: &mut DovecotKeywords, flags: &mut MaildirFlags, keywords: &Vec<String>) -> (changed: bool)
    ensures
        table_wf(final(table)@),
        table_map(final(table)@) == alloc_all(table_map(old(table)@), string_views(keywords@)),
        flags_wf(final(flags)@),
        final(flags)@.flags == old(flags)@.flags,
        forall|c: char| #[trigger] final(flags)@.letters.contains(c) <==> (old(flags)@.letters.contains(c) || exists|j: int|
            0 <= j < keywords@.len() && slot_in(table_map(final(table)@), keywords@[j]@) == Some(c)),
        changed == (final(table)@.len() != old(table)@.len()),
{
    proof {
        use_type_invariant(&*flags);
        use_type_invariant(&*table);
    }
    let ghost ks = string_views(keywords@);
    let ghost m0 = table_map(table@);
    let ghost f0 = flags@;
    let len_before = table.len();
    let mut i: usize = 0;
    proof {
        assert(ks.take(0) =~= Seq::<Seq<char>>::empty());
    }
    while i < keywords.len()
        invariant
            i <= keywords@.len(),
            ks == string_views(keywords@),
            table_wf(table@),
            flags_wf(flags@),
            flags@.flags == f0.flags,
            len_before == old(table)@.len(),
            m0 == table_map(old(table)@),
            f0 == old(flags)@,
            table_map(table@) == alloc_all(m0, ks.take(i as int)),
            forall|c: char| #[trigger] flags@.letters.contains(c) <==> (f0.letters.contains(c) || exists|j: int|
                0 <= j < i && slot_in(table_map(table@), keywords@[j]@) == Some(c)),
        decreases keywords@.len() - i,
    {
        let ghost mb = table_map(table@);
        let ghost lb = flags@.letters;
        let k = keywords[i].as_str();
        let r = allocate_slot(table, k);
        let ghost ma = table_map(table@);
        match r {
            Some(letter) => {
                let mut one: Vec<char> = Vec::new();
                one.push(letter);
                flags.extend_letters(one);
                assert(one@.contains(letter) ==> one@[0] == letter);
            },
            None => {},
        }
        proof {
            assert(ks.take(i + 1).drop_last() =~= ks.take(i as int));
            assert(ks[i as int] == keywords@[i as int]@);
            assert forall|j: int| 0 <= j < i implies #[trigger] slot_in(ma, keywords@[j]@) == slot_in(mb, keywords@[j]@)
                || (keywords@[j]@ == keywords@[i as int]@ && slot_in(ma, keywords@[j]@) == r) by {
                lemma_alloc_keeps(mb, keywords@[i as int]@, keywords@[j]@);
            }
            lemma_alloc_keeps(mb, keywords@[i as int]@, keywords@[i as int]@);
            assert forall|c: char| #[trigger] flags@.letters.contains(c) <==> (f0.letters.contains(c) || exists|j: int|
                0 <= j < i + 1 && slot_in(ma, keywords@[j]@) == Some(c)) by {
                if flags@.letters.contains(c) {
                    if !f0.letters.contains(c) {
                        if lb.contains(c) {
                            let j = choose|j: int| 0 <= j < i && slot_in(mb, keywords@[j]@) == Some(c);
                            if keywords@[j]@ != keywords@[i as int]@ {
                                assert(slot_in(ma, keywords@[j]@) == Some(c));
                            } else {
                                assert(slot_in(mb, keywords@[i as int]@) is Some);
                                assert(ma == mb);
                                assert(slot_in(ma, keywords@[i as int]@) == Some(c));
                            }
                        } else {
                            assert(r == Some(c));
                            assert(slot_in(ma, keywords@[i as int]@) == Some(c));
                        }
                    }
                }
                if exists|j: int| 0 <= j < i + 1 && slot_in(ma, keywords@[j]@) == Some(c) {
                    let j = choose|j: int| 0 <= j < i + 1 && slot_in(ma, keywords@[j]@) == Some(c);
                    if j == i {
                        assert(r == Some(c));
                    } else if keywords@[j]@ != keywords@[i as int]@ {
                        assert(slot_in(mb, keywords@[j]@) == Some(c));
                        assert(lb.contains(c) || f0.letters.contains(c));
                    } else {
                        assert(slot_in(ma, keywords@[i as int]@) == r);
                    }
                }
            }
        }
        i = i + 1;
    }
    proof {
        assert(ks.take(i as int) =~= ks);
    }
    table.len() != len_before
}

} // verus!

verus! {

/// Failure causes of the client's composite operations.
#[derive(Debug)]
pub enum MaildirClientError {
    /// A reply arrived that does not match the awaited step.
    UnexpectedArg(Option<MaildirReply>),
    /// The resolved path exists but is not a directory.
    NotDir(MaildirFsPath),
    /// One of the `cur`, `new` and `tmp` subdirectories is missing.
    MissingSubdir(MaildirSubdir, MaildirFsPath),
    /// Loading the `dovecot-keywords` table failed.
    MaildirDovecotLoad(MaildirDovecotLoadError),
    /// Writing the `dovecot-keywords` table failed.
    MaildirDovecotStore(MaildirDovecotStoreError),
    /// The flags-add machine failed.
    FlagsAdd(MaildirFlagsAddError),
    /// The flags-remove machine failed.
    FlagsRemove(MaildirFlagsRemoveError),
    /// The flags-set machine failed.
    FlagsSet(MaildirFlagsSetError),
    /// The entry-store machine failed.
    EntryStore(MaildirEntryStoreError),
    /// The entry-get machine failed.
    EntryGet(MaildirEntryGetError),
    /// An entry file could not be read.
    Unreadable(MaildirFsPath),
}

/// The client error a keyword resolution failure stands for.
pub open spec fn keywords_error(e: MaildirKeywordsError) -> MaildirClientError {
    match e {
        MaildirKeywordsError::UnexpectedArg(a) => MaildirClientError::UnexpectedArg(a),
        MaildirKeywordsError::DovecotLoad(l) => MaildirClientError::MaildirDovecotLoad(l),
        MaildirKeywordsError::DovecotStore(s) => MaildirClientError::MaildirDovecotStore(s),
        MaildirKeywordsError::Unreadable(p) => MaildirClientError::Unreadable(p),
    }
}

fn into_client_error(e: MaildirKeywordsError) -> (r: MaildirClientError)
    ensures
        r == keywords_error(e),
{
    match e {
        MaildirKeywordsError::UnexpectedArg(a) => MaildirClientError::UnexpectedArg(a),
        MaildirKeywordsError::DovecotLoad(l) => MaildirClientError::MaildirDovecotLoad(l),
        MaildirKeywordsError::DovecotStore(s) => MaildirClientError::MaildirDovecotStore(s),
        MaildirKeywordsError::Unreadable(p) => MaildirClientError::Unreadable(p),
    }
}

/// Which flag write a [`MaildirClientFlags`] performs.
#[derive(Clone, Copy, Debug, PartialEq, Eq, Structural)]
pub enum FlagsOp {
    /// Add flags.
    Add,
    /// Remove flags.
    Remove,
    /// Replace the flags.
    Replace,
}

/// The flag write machine a [`MaildirClientFlags`] runs once keywords
/// are resolved.
#[derive(Debug)]
pub enum FlagsWrite {
    /// Adding flags.
    Add(MaildirFlagsAdd),
    /// Removing flags.
    Remove(MaildirFlagsRemove),
    /// Replacing the flags.
    Replace(MaildirFlagsSet),
}

/// What one step of a client operation giving nothing back gives.
pub type ClientUnitOutcome = MaildirCoroutineState<MaildirYield, Result<(), MaildirClientError>>;

/// `w` is the freshly built `op` machine on the entry `id` of the
/// Maildir at `root`, with flags `f`.
pub open spec fn write_fresh(w: FlagsWrite, op: FlagsOp, root: Seq<char>, id: Seq<char>, f: FlagsView) -> bool {
    match (op, w) {
        (FlagsOp::Add, FlagsWrite::Add(a)) => a.maildir_spec() == root && a.id_spec() == id && a.flags_spec() == f
            && (a.step() matches FlagsAddStep::Locate(c) && c.maildir_spec() == root && c.id_spec() == id
            && c.step() is Start),
        (FlagsOp::Remove, FlagsWrite::Remove(a)) => a.maildir_spec() == root && a.id_spec() == id && a.flags_spec()
            == f && (a.step() matches FlagsRemoveStep::Locate(c) && c.maildir_spec() == root && c.id_spec() == id
            && c.step() is Start),
        (FlagsOp::Replace, FlagsWrite::Replace(a)) => a.maildir_spec() == root && a.id_spec() == id && a.flags_spec() == f
            && (a.step() matches FlagsSetStep::Locate(c) && c.maildir_spec() == root && c.id_spec() == id
            && c.step() is Start),
        _ => false,
    }
}

/// One step of the flag write `pre` on `arg` leads to `post` and gives
/// `r`, its failures wrapped as client errors.
pub open spec fn write_resumes(pre: FlagsWrite, arg: Option<MaildirReply>, post: FlagsWrite, r: ClientUnitOutcome) -> bool {
    match (pre, post) {
        (FlagsWrite::Add(a), FlagsWrite::Add(a2)) => add_step(a, arg, a2, r),
        (FlagsWrite::Remove(a), FlagsWrite::Remove(a2)) => remove_step(a, arg, a2, r),
        (FlagsWrite::Replace(a), FlagsWrite::Replace(a2)) => set_step(a, arg, a2, r),
        _ => false,
    }
}

/// One step of the flags-add machine `a` on `arg` leads to `a2` and,
/// its failure wrapped, gives `r`.
pub open spec fn add_step(a: MaildirFlagsAdd, arg: Option<MaildirReply>, a2: MaildirFlagsAdd, r: ClientUnitOutcome) -> bool {
    exists|r2: FlagsAddOutcome| #[trigger] flags_add_resumes(a, arg, a2, r2) && add_outcome(r2, r)
}

/// One step of the flags-remove machine `a` on `arg` leads to `a2`
/// and, its failure wrapped, gives `r`.
pub open spec fn remove_step(
    a: MaildirFlagsRemove,
    arg: Option<MaildirReply>,
    a2: MaildirFlagsRemove,
    r: ClientUnitOutcome,
) -> bool {
    exists|r2: FlagsRemoveOutcome| #[trigger] flags_remove_resumes(a, arg, a2, r2) && remove_outcome(r2, r)
}

/// One step of the flags-set machine `a` on `arg` leads to `a2` and,
/// its failure wrapped, gives `r`.
pub open spec fn set_step(a: MaildirFlagsSet, arg: Option<MaildirReply>, a2: MaildirFlagsSet, r: ClientUnitOutcome) -> bool {
    exists|r2: FlagsSetOutcome| #[trigger] flags_set_resumes(a, arg, a2, r2) && set_outcome(r2, r)
}

/// `r` is the flags-add outcome `r2` with its failure wrapped.
pub open spec fn add_outcome(r2: FlagsAddOutcome, r: ClientUnitOutcome) -> bool {
    match r2 {
        MaildirCoroutineState::Yielded(y) => r == ClientUnitOutcome::Yielded(y),
        MaildirCoroutineState::Complete(Ok(())) => r == ClientUnitOutcome::Complete(Ok(())),
        MaildirCoroutineState::Complete(Err(e)) => r == ClientUnitOutcome::Complete(Err(MaildirClientError::FlagsAdd(e))),
    }
}

/// `r` is the flags-remove outcome `r2` with its failure wrapped.
pub open spec fn remove_outcome(r2: FlagsRemoveOutcome, r: ClientUnitOutcome) -> bool {
    match r2 {
        MaildirCoroutineState::Yielded(y) => r == ClientUnitOutcome::Yielded(y),
        MaildirCoroutineState::Complete(Ok(())) => r == ClientUnitOutcome::Complete(Ok(())),
        MaildirCoroutineState::Complete(Err(e)) => r == ClientUnitOutcome::Complete(
            Err(MaildirClientError::FlagsRemove(e)),
        ),
    }
}

/// `r` is the flags-set outcome `r2` with its failure wrapped.
pub open spec fn set_outcome(r2: FlagsSetOutcome, r: ClientUnitOutcome) -> bool {
    match r2 {
        MaildirCoroutineState::Yielded(y) => r == ClientUnitOutcome::Yielded(y),
        MaildirCoroutineState::Complete(Ok(())) => r == ClientUnitOutcome::Complete(Ok(())),
        MaildirCoroutineState::Complete(Err(e)) => r == ClientUnitOutcome::Complete(Err(MaildirClientError::FlagsSet(e))),
    }
}

impl FlagsWrite {
    /// Builds the `op` machine on the entry `id` of `maildir` with
    /// `flags`.
    pub fn new(op: FlagsOp, maildir: Maildir, id: &str, flags: MaildirFlags) -> (r: Self)
        ensures
            write_fresh(r, op, maildir@, id@, flags@),
    {
        match op {
            FlagsOp::Add => FlagsWrite::Add(MaildirFlagsAdd::new(maildir, id, flags)),
            FlagsOp::Remove => FlagsWrite::Remove(MaildirFlagsRemove::new(maildir, id, flags)),
            FlagsOp::Replace => FlagsWrite::Replace(MaildirFlagsSet::new(maildir, id, flags)),
        }
    }

    /// Makes the flag write progress with the caller's answer `arg`,
    /// giving back the machine as it then stands.
    pub fn advance(self, arg: Option<MaildirReply>) -> (r: (FlagsWrite, ClientUnitOutcome))
        ensures
            write_resumes(self, arg, r.0, r.1),
    {
        let ghost s0 = self;
        match self {
            FlagsWrite::Add(mut a) => {
                let ghost a0 = a;
                let r2 = a.resume(arg);
                proof {
                    assert(flags_add_resumes(a0, arg, a, r2));
                }
                let out = match r2 {
                    MaildirCoroutineState::Yielded(y) => MaildirCoroutineState::Yielded(y),
                    MaildirCoroutineState::Complete(Ok(())) => MaildirCoroutineState::Complete(Ok(())),
                    MaildirCoroutineState::Complete(Err(e)) => MaildirCoroutineState::Complete(
                        Err(MaildirClientError::FlagsAdd(e)),
                    ),
                };
                let res = (FlagsWrite::Add(a), out);
                assert(add_step(a0, arg, a, out));
                assert(write_resumes(s0, arg, res.0, res.1));
                res
            },
            FlagsWrite::Remove(mut a) => {
                let ghost a0 = a;
                let r2 = a.resume(arg);
                proof {
                    assert(flags_remove_resumes(a0, arg, a, r2));
                }
                let out = match r2 {
                    MaildirCoroutineState::Yielded(y) => MaildirCoroutineState::Yielded(y),
                    MaildirCoroutineState::Complete(Ok(())) => MaildirCoroutineState::Complete(Ok(())),
                    MaildirCoroutineState::Complete(Err(e)) => MaildirCoroutineState::Complete(
                        Err(MaildirClientError::FlagsRemove(e)),
                    ),
                };
                let res = (FlagsWrite::Remove(a), out);
                assert(remove_step(a0, arg, a, out));
                assert(write_resumes(s0, arg, res.0, res.1));
                res
            },
            FlagsWrite::Replace(mut a) => {
                let ghost a0 = a;
                let r2 = a.resume(arg);
                proof {
                    assert(flags_set_resumes(a0, arg, a, r2));
                }
                let out = match r2 {
                    MaildirCoroutineState::Yielded(y) => MaildirCoroutineState::Yielded(y),
                    MaildirCoroutineState::Complete(Ok(())) => MaildirCoroutineState::Complete(Ok(())),
                    MaildirCoroutineState::Complete(Err(e)) => MaildirCoroutineState::Complete(
                        Err(MaildirClientError::FlagsSet(e)),
                    ),
                };
                let res = (FlagsWrite::Replace(a), out);
                assert(set_step(a0, arg, a, out));
                assert(write_resumes(s0, arg, res.0, res.1));
                res
            },
        }
    }
}

} // verus!

verus! {

/// Where a [`MaildirClientFlags`] stands.
#[derive(Debug)]
pub enum ClientFlagsStep {
    /// Resolving custom keywords into slot letters.
    Resolve(MaildirKeywordsResolve),
    /// Writing the flags.
    Write(FlagsWrite),
    /// Finished; any further reply is unexpected.
    Done,
}

/// A flag write on an entry, custom keywords resolved first through the
/// client's `dovecot-keywords` option.
#[derive(Debug)]
pub struct MaildirClientFlags {
    op: FlagsOp,
    maildir: Maildir,
    id: String,
    step: ClientFlagsStep,
}

/// Once the keywords are resolved into `f`, the flag write is built and
/// its first step gives `r`, leaving the machine at `post`.
pub open spec fn write_starts(pre: MaildirClientFlags, f: FlagsView, post: ClientFlagsStep, r: ClientUnitOutcome) -> bool {
    exists|w1: FlagsWrite, w2: FlagsWrite|
        #[trigger] write_fresh(w1, pre.op_spec(), pre.maildir_spec(), pre.id_spec(), f) && #[trigger] write_resumes(
            w1,
            None,
            w2,
            r,
        ) && post == (if r is Yielded {
            ClientFlagsStep::Write(w2)
        } else {
            ClientFlagsStep::Done
        })
}

/// One step of the keyword resolution `res` on `arg` leads to `res2`
/// giving `r2`, and the whole machine then stands at `post` and gives
/// `r`.
pub open spec fn resolve_continues(
    pre: MaildirClientFlags,
    res: MaildirKeywordsResolve,
    arg: Option<MaildirReply>,
    post: ClientFlagsStep,
    r: ClientUnitOutcome,
) -> bool {
    exists|res2: MaildirKeywordsResolve, r2: KeywordsOutcome|
        #[trigger] keywords_resumes(res, arg, res2, r2) && match r2 {
            MaildirCoroutineState::Yielded(y) => post == ClientFlagsStep::Resolve(res2) && r == ClientUnitOutcome::Yielded(y),
            MaildirCoroutineState::Complete(Err(e)) => post is Done && r == ClientUnitOutcome::Complete(
                Err(keywords_error(e)),
            ),
            MaildirCoroutineState::Complete(Ok(f)) => write_starts(pre, f@, post, r),
        }
}

/// One step of the flag write `w` on `arg` gives `r` and leaves the
/// machine at `post`.
pub open spec fn write_continues(w: FlagsWrite, arg: Option<MaildirReply>, post: ClientFlagsStep, r: ClientUnitOutcome) -> bool {
    exists|w2: FlagsWrite|
        #[trigger] write_resumes(w, arg, w2, r) && post == (if r is Yielded {
            ClientFlagsStep::Write(w2)
        } else {
            ClientFlagsStep::Done
        })
}

/// One step of [`MaildirClientFlags`] from `pre` on `arg` leads to
/// `post` and gives `r`.
pub open spec fn client_flags_resumes(
    pre: MaildirClientFlags,
    arg: Option<MaildirReply>,
    post: MaildirClientFlags,
    r: ClientUnitOutcome,
) -> bool {
    &&& post.op_spec() == pre.op_spec()
    &&& post.maildir_spec() == pre.maildir_spec()
    &&& post.id_spec() == pre.id_spec()
    &&& match pre.step() {
        ClientFlagsStep::Resolve(res) => resolve_continues(pre, res, arg, post.step(), r),
        ClientFlagsStep::Write(w) => write_continues(w, arg, post.step(), r),
        ClientFlagsStep::Done => {
            &&& post.step() is Done
            &&& r == ClientUnitOutcome::Complete(Err(MaildirClientError::UnexpectedArg(arg)))
        },
    }
}

impl MaildirClientFlags {
    /// The write performed.
    pub closed spec fn op_spec(&self) -> FlagsOp {
        self.op
    }

    /// The Maildir holding the entry.
    pub closed spec fn maildir_spec(&self) -> Seq<char> {
        self.maildir@
    }

    /// The id of the entry.
    pub closed spec fn id_spec(&self) -> Seq<char> {
        self.id@
    }

    /// Where the machine stands.
    pub closed spec fn step(&self) -> ClientFlagsStep {
        self.step
    }

    /// Builds a machine performing `op` with `flags` on the entry `id`
    /// of `maildir`; with `dovecot` set, custom keywords are resolved
    /// into slot letters first, else they are dropped.
    pub fn new(op: FlagsOp, maildir: Maildir, id: &str, flags: MaildirFlags, dovecot: bool) -> (r: Self)
        ensures
            r.op_spec() == op,
            r.maildir_spec() == maildir@,
            r.id_spec() == id@,
            r.step() matches ClientFlagsStep::Resolve(res) && res.maildir_spec() == maildir@ && keywords_fresh(
                res,
                dovecot,
                flags@,
            ),
    {
        proof { use_type_invariant(&flags); }
        let mut flags = flags;
        let keywords = flags.drain_keywords();
        assert(string_views(keywords@).len() == keywords@.len());
        let res = MaildirKeywordsResolve::new(&maildir, dovecot, flags, keywords);
        MaildirClientFlags { op, maildir, id: id.to_owned(), step: ClientFlagsStep::Resolve(res) }
    }

    /// Makes the operation progress with the caller's answer `arg`.
    pub fn resume(&mut self, arg: Option<MaildirReply>) -> (r: ClientUnitOutcome)
        ensures
            client_flags_resumes(*old(self), arg, *final(self), r),
    {
        let ghost pre = *self;
        let mut step = ClientFlagsStep::Done;
        core::mem::swap(&mut step, &mut self.step);
        match step {
            ClientFlagsStep::Resolve(mut res) => {
                let ghost res0 = res;
                let r2 = res.resume(arg);
                proof {
                    assert(keywords_resumes(res0, arg, res, r2));
                }
                match r2 {
                    MaildirCoroutineState::Yielded(y) => {
                        self.step = ClientFlagsStep::Resolve(res);
                        MaildirCoroutineState::Yielded(y)
                    },
                    MaildirCoroutineState::Complete(Err(e)) => MaildirCoroutineState::Complete(Err(into_client_error(e))),
                    MaildirCoroutineState::Complete(Ok(f)) => {
                        let w1 = FlagsWrite::new(self.op, self.maildir.clone(), self.id.as_str(), f);
                        let ghost w1g = w1;
                        let (w2, r3) = w1.advance(None);
                        proof {
                            assert(write_fresh(w1g, pre.op_spec(), pre.maildir_spec(), pre.id_spec(), f@));
                            assert(write_resumes(w1g, None, w2, r3));
                        }
                        if r3.is_yielded() {
                            self.step = ClientFlagsStep::Write(w2);
                        }
                        proof {
                            assert(write_starts(pre, f@, self.step, r3));
                        }
                        r3
                    },
                }
            },
            ClientFlagsStep::Write(w) => {
                let (w2, r3) = w.advance(arg);
                if r3.is_yielded() {
                    self.step = ClientFlagsStep::Write(w2);
                }
                r3
            },
            ClientFlagsStep::Done => MaildirCoroutineState::Complete(Err(MaildirClientError::UnexpectedArg(arg))),
        }
    }
}

} // verus!

verus! {

/// The bytes stored for `contents` carrying the keywords `ks`: with a
/// keywords header configured and some keyword it can carry, the header
/// is put first; otherwise the bytes are unchanged.
pub open spec fn stored_contents(header: Option<KeywordHeader>, ks: Seq<Seq<char>>, contents: Seq<u8>) -> Seq<u8> {
    match header {
        Some(h) => match header_value_spec(h, ks) {
            Some(v) => inject_header_spec(contents, header_name_spec(h), v),
            None => contents,
        },
        None => contents,
    }
}

/// Where a [`MaildirClientStore`] stands.
#[derive(Debug)]
pub enum ClientStoreStep {
    /// Resolving custom keywords into slot letters.
    Resolve { res: MaildirKeywordsResolve, subdir: MaildirSubdir, contents: Vec<u8> },
    /// Delivering the entry.
    Deliver(MaildirEntryStore),
    /// Finished; any further reply is unexpected.
    Done,
}

/// What one step of [`MaildirClientStore`] gives: the id and path of the
/// stored entry once done.
pub type ClientStoreOutcome = MaildirCoroutineState<MaildirYield, Result<(String, MaildirFsPath), MaildirClientError>>;

/// Stores a new entry, custom keywords carried by the client's header
/// and `dovecot-keywords` options.
#[derive(Debug)]
pub struct MaildirClientStore {
    maildir: Maildir,
    step: ClientStoreStep,
}

/// `r` is the delivery outcome `r3` with its failure wrapped.
pub open spec fn deliver_outcome(r3: EntryStoreOutcome, r: ClientStoreOutcome) -> bool {
    match r3 {
        MaildirCoroutineState::Yielded(y) => r == ClientStoreOutcome::Yielded(y),
        MaildirCoroutineState::Complete(Ok(o)) => r matches MaildirCoroutineState::Complete(Ok((id, p))) && id@
            == o.id@ && p@ == o.path@,
        MaildirCoroutineState::Complete(Err(e)) => r == ClientStoreOutcome::Complete(
            Err(MaildirClientError::EntryStore(e)),
        ),
    }
}

/// One step of the delivery `s` on `arg` gives `r` and leaves the
/// machine at `post`.
pub open spec fn deliver_continues(s: MaildirEntryStore, arg: Option<MaildirReply>, post: ClientStoreStep, r: ClientStoreOutcome) -> bool {
    exists|s2: MaildirEntryStore, r3: EntryStoreOutcome|
        #[trigger] entry_store_resumes(s, arg, s2, r3) && deliver_outcome(r3, r) && post == (if r3 is Yielded {
            ClientStoreStep::Deliver(s2)
        } else {
            ClientStoreStep::Done
        })
}

/// Once the keywords are resolved into `f`, the delivery of `contents`
/// in `subdir` of the Maildir at `root` is built and its first step
/// gives `r`, leaving the machine at `post`.
pub open spec fn deliver_starts(
    root: Seq<char>,
    subdir: MaildirSubdir,
    f: FlagsView,
    contents: Seq<u8>,
    post: ClientStoreStep,
    r: ClientStoreOutcome,
) -> bool {
    exists|s1: MaildirEntryStore|
        #![trigger s1.maildir_spec(), s1.flags_spec()]
        s1.maildir_spec() == root && s1.subdir_spec() == subdir && s1.flags_spec() == f && (s1.step() matches EntryStoreStep::Mint {
            mint,
            contents: c,
        } && mint.step() is Start && c@ == contents) && deliver_continues(s1, None, post, r)
}

/// One step of the keyword resolution `res` on `arg`, the whole store
/// then standing at `post` and giving `r`.
pub open spec fn store_resolve_continues(
    root: Seq<char>,
    res: MaildirKeywordsResolve,
    subdir: MaildirSubdir,
    contents: Seq<u8>,
    arg: Option<MaildirReply>,
    post: ClientStoreStep,
    r: ClientStoreOutcome,
) -> bool {
    exists|res2: MaildirKeywordsResolve, r2: KeywordsOutcome|
        #[trigger] keywords_resumes(res, arg, res2, r2) && match r2 {
            MaildirCoroutineState::Yielded(y) => (post matches ClientStoreStep::Resolve { res: res3, subdir: d3, contents: c3 }
                && res3 == res2 && d3 == subdir && c3@ == contents) && r == ClientStoreOutcome::Yielded(y),
            MaildirCoroutineState::Complete(Err(e)) => post is Done && r == ClientStoreOutcome::Complete(
                Err(keywords_error(e)),
            ),
            MaildirCoroutineState::Complete(Ok(f)) => deliver_starts(root, subdir, f@, contents, post, r),
        }
}

/// One step of [`MaildirClientStore`] from `pre` on `arg` leads to
/// `post` and gives `r`.
pub open spec fn client_store_resumes(
    pre: MaildirClientStore,
    arg: Option<MaildirReply>,
    post: MaildirClientStore,
    r: ClientStoreOutcome,
) -> bool {
    &&& post.maildir_spec() == pre.maildir_spec()
    &&& match pre.step() {
        ClientStoreStep::Resolve { res, subdir, contents } => store_resolve_continues(
            pre.maildir_spec(),
            res,
            subdir,
            contents@,
            arg,
            post.step(),
            r,
        ),
        ClientStoreStep::Deliver(s) => deliver_continues(s, arg, post.step(), r),
        ClientStoreStep::Done => {
            &&& post.step() is Done
            &&& r == ClientStoreOutcome::Complete(Err(MaildirClientError::UnexpectedArg(arg)))
        },
    }
}

fn deliver_step(s: MaildirEntryStore, arg: Option<MaildirReply>) -> (r: (ClientStoreStep, ClientStoreOutcome))
    ensures
        deliver_continues(s, arg, r.0, r.1),
{
    let mut s = s;
    let ghost s0 = s;
    let r3 = s.resume(arg);
    let ghost r3g = r3;
    proof {
        assert(entry_store_resumes(s0, arg, s, r3));
    }
    let res = match r3 {
        MaildirCoroutineState::Yielded(y) => (ClientStoreStep::Deliver(s), MaildirCoroutineState::Yielded(y)),
        MaildirCoroutineState::Complete(Ok(o)) => (ClientStoreStep::Done, MaildirCoroutineState::Complete(Ok((o.id, o.path)))),
        MaildirCoroutineState::Complete(Err(e)) => (
            ClientStoreStep::Done,
            MaildirCoroutineState::Complete(Err(MaildirClientError::EntryStore(e))),
        ),
    };
    assert(deliver_outcome(r3g, res.1));
    res
}

impl MaildirClientStore {
    /// The Maildir stored into.
    pub closed spec fn maildir_spec(&self) -> Seq<char> {
        self.maildir@
    }

    /// Where the machine stands.
    pub closed spec fn step(&self) -> ClientStoreStep {
        self.step
    }

    /// Builds a machine storing `contents` in `subdir` of `maildir` with
    /// `flags`. Custom keywords go into `header` when one is given (those
    /// holding its separator are left out, as they would read back as
    /// several), and into slot letters when `dovecot` is set.
    pub fn new(
        maildir: Maildir,
        subdir: MaildirSubdir,
        flags: MaildirFlags,
        contents: Vec<u8>,
        header: Option<KeywordHeader>,
        dovecot: bool,
    ) -> (r: Self)
        ensures
            r.maildir_spec() == maildir@,
            r.step() matches ClientStoreStep::Resolve { res, subdir: d, contents: c } && res.maildir_spec() == maildir@
                && keywords_fresh(res, dovecot, flags@) && d == subdir && c@ == stored_contents(
                header,
                keywords_of(flags@.flags),
                contents@,
            ),
    {
        proof { use_type_invariant(&flags); }
        let mut flags = flags;
        let keywords = flags.drain_keywords();
        let contents = match header {
            Some(h) => match header_value(h, &keywords) {
                Some(value) => inject_header(contents.as_slice(), h.header_name(), value.as_str()),
                None => contents,
            },
            None => contents,
        };
        assert(string_views(keywords@).len() == keywords@.len());
        let res = MaildirKeywordsResolve::new(&maildir, dovecot, flags, keywords);
        MaildirClientStore { maildir, step: ClientStoreStep::Resolve { res, subdir, contents } }
    }

    /// Makes the store progress with the caller's answer `arg`.
    pub fn resume(&mut self, arg: Option<MaildirReply>) -> (r: ClientStoreOutcome)
        ensures
            client_store_resumes(*old(self), arg, *final(self), r),
    {
        let mut step = ClientStoreStep::Done;
        core::mem::swap(&mut step, &mut self.step);
        match step {
            ClientStoreStep::Resolve { mut res, subdir, contents } => {
                let ghost res0 = res;
                let ghost cv = contents@;
                let r2 = res.resume(arg);
                proof {
                    assert(keywords_resumes(res0, arg, res, r2));
                }
                match r2 {
                    MaildirCoroutineState::Yielded(y) => {
                        self.step = ClientStoreStep::Resolve { res, subdir, contents };
                        MaildirCoroutineState::Yielded(y)
                    },
                    MaildirCoroutineState::Complete(Err(e)) => MaildirCoroutineState::Complete(Err(into_client_error(e))),
                    MaildirCoroutineState::Complete(Ok(f)) => {
                        let s1 = MaildirEntryStore::new(self.maildir.clone(), subdir, f, contents);
                        let ghost s1g = s1;
                        let (st, out) = deliver_step(s1, None);
                        proof {
                            assert(deliver_continues(s1g, None, st, out));
                            assert(deliver_starts(self.maildir@, subdir, s1g.flags_spec(), cv, st, out));
                        }
                        self.step = st;
                        out
                    },
                }
            },
            ClientStoreStep::Deliver(s) => {
                let (st, out) = deliver_step(s, arg);
                self.step = st;
                out
            },
            ClientStoreStep::Done => MaildirCoroutineState::Complete(Err(MaildirClientError::UnexpectedArg(arg))),
        }
    }
}

} // verus!

verus! {

/// Where a [`MaildirLoad`] stands.
#[derive(Debug)]
pub enum LoadStep {
    /// Nothing asked yet.
    Start,
    /// Waiting for which of the Maildir directories exist.
    Probe,
    /// Finished; any further reply is unexpected.
    Done,
}

/// What one step of [`MaildirLoad`] gives.
pub type LoadOutcome = MaildirCoroutineState<MaildirYield, Result<Maildir, MaildirClientError>>;

/// Opens an existing Maildir: checks that its root and its `cur`, `new`
/// and `tmp` subdirectories are directories.
#[derive(Debug)]
pub struct MaildirLoad {
    root: MaildirFsPath,
    step: LoadStep,
}

/// The first of `cur`, `new`, `tmp` that `m` reports missing under
/// `root`, if any.
pub open spec fn missing_subdir(m: Seq<(MaildirFsPath, bool)>, root: Seq<char>) -> Option<MaildirSubdir> {
    if !probe_spec(m, join_spec(root, subdir_name_spec(MaildirSubdir::Cur))) {
        Some(MaildirSubdir::Cur)
    } else if !probe_spec(m, join_spec(root, subdir_name_spec(MaildirSubdir::New))) {
        Some(MaildirSubdir::New)
    } else if !probe_spec(m, join_spec(root, subdir_name_spec(MaildirSubdir::Tmp))) {
        Some(MaildirSubdir::Tmp)
    } else {
        None
    }
}

/// One step of [`MaildirLoad`] from `pre` on `arg` leads to `post` and
/// gives `r`.
pub open spec fn load_resumes(pre: MaildirLoad, arg: Option<MaildirReply>, post: MaildirLoad, r: LoadOutcome) -> bool {
    let root = pre.root_spec();
    &&& post.root_spec() == root
    &&& match (pre.step(), arg) {
        (LoadStep::Start, None) => {
            &&& post.step() is Probe
            &&& r matches MaildirCoroutineState::Yielded(MaildirYield::WantsDirExists(v)) && paths_view(v@)
                == maildir_dirs(root)
        },
        (LoadStep::Probe, Some(MaildirReply::DirExists(m))) => {
            &&& post.step() is Done
            &&& if !probe_spec(m@, root) {
                r matches MaildirCoroutineState::Complete(Err(MaildirClientError::NotDir(p))) && p@ == root
            } else {
                match missing_subdir(m@, root) {
                    Some(s) => r matches MaildirCoroutineState::Complete(Err(MaildirClientError::MissingSubdir(t, p)))
                        && t == s && p@ == root,
                    None => r matches MaildirCoroutineState::Complete(Ok(md)) && md@ == root,
                }
            }
        },
        (_, arg) => {
            &&& post.step() is Done
            &&& r == LoadOutcome::Complete(Err(MaildirClientError::UnexpectedArg(arg)))
        },
    }
}

impl MaildirLoad {
    /// The root checked.
    pub closed spec fn root_spec(&self) -> Seq<char> {
        self.root@
    }

    /// Where the machine stands.
    pub closed spec fn step(&self) -> LoadStep {
        self.step
    }

    /// Builds a machine opening the Maildir at `root`.
    pub fn new(root: MaildirFsPath) -> (r: Self)
        ensures
            r.root_spec() == root@,
            r.step() is Start,
    {
        MaildirLoad { root, step: LoadStep::Start }
    }

    /// Makes the load progress with the caller's answer `arg`.
    pub fn resume(&mut self, arg: Option<MaildirReply>) -> (r: LoadOutcome)
        ensures
            load_resumes(*old(self), arg, *final(self), r),
    {
        let mut step = LoadStep::Done;
        core::mem::swap(&mut step, &mut self.step);
        proof {
            reveal_strlit("cur");
            reveal_strlit("new");
            reveal_strlit("tmp");
            assert(CUR@ =~= subdir_name_spec(MaildirSubdir::Cur));
            assert(NEW@ =~= subdir_name_spec(MaildirSubdir::New));
            assert(TMP@ =~= subdir_name_spec(MaildirSubdir::Tmp));
        }
        match step {
            LoadStep::Start => match arg {
                None => {
                    let mut dirs: Vec<MaildirFsPath> = Vec::new();
                    dirs.push(self.root.clone());
                    dirs.push(self.root.join(CUR));
                    dirs.push(self.root.join(NEW));
                    dirs.push(self.root.join(TMP));
                    proof {
                        assert(paths_view(dirs@) =~= maildir_dirs(self.root@));
                    }
                    self.step = LoadStep::Probe;
                    MaildirCoroutineState::Yielded(MaildirYield::WantsDirExists(dirs))
                },
                arg => MaildirCoroutineState::Complete(Err(MaildirClientError::UnexpectedArg(arg))),
            },
            LoadStep::Probe => match arg {
                Some(MaildirReply::DirExists(m)) => {
                    if !probe(&m, &self.root) {
                        MaildirCoroutineState::Complete(Err(MaildirClientError::NotDir(self.root.clone())))
                    } else if !probe(&m, &self.root.join(CUR)) {
                        MaildirCoroutineState::Complete(
                            Err(MaildirClientError::MissingSubdir(MaildirSubdir::Cur, self.root.clone())),
                        )
                    } else if !probe(&m, &self.root.join(NEW)) {
                        MaildirCoroutineState::Complete(
                            Err(MaildirClientError::MissingSubdir(MaildirSubdir::New, self.root.clone())),
                        )
                    } else if !probe(&m, &self.root.join(TMP)) {
                        MaildirCoroutineState::Complete(
                            Err(MaildirClientError::MissingSubdir(MaildirSubdir::Tmp, self.root.clone())),
                        )
                    } else {
                        MaildirCoroutineState::Complete(Ok(Maildir::from_path(self.root.clone())))
                    }
                },
                arg => MaildirCoroutineState::Complete(Err(MaildirClientError::UnexpectedArg(arg))),
            },
            LoadStep::Done => MaildirCoroutineState::Complete(Err(MaildirClientError::UnexpectedArg(arg))),
        }
    }
}

/// `e2` is the entry `e` with its flags read through the slot map `t`
/// and the keywords header `h`.
pub open spec fn entry_resolved(e2: MaildirFullEntry, e: MaildirFullEntry, t: Option<Map<char, Seq<char>>>, h: Option<KeywordHeader>) -> bool {
    &&& e2.path()@ == e.path()@
    &&& e2.contents()@ == e.contents()@
    &&& read_flags_spec(e2.flags()@, e.path()@, t, header_keywords(h, e.contents()@))
}

/// The entry `e` with its flags read through `table` and the keywords
/// header `header`.
fn resolve_entry(e: MaildirFullEntry, table: &Option<DovecotKeywords>, header: Option<KeywordHeader>) -> (r: MaildirFullEntry)
    ensures
        entry_resolved(r, e, opt_table(*table), header),
{
    if let Some(t) = table {
        proof { use_type_invariant(t); }
    }
    let flags = read_flags(e.path(), e.contents().as_slice(), table, header);
    let path = e.path().clone();
    let contents = e.into_contents();
    MaildirFullEntry::with_flags(path, contents, flags)
}

/// Where a [`MaildirClientGet`] stands.
#[derive(Debug)]
pub enum ClientGetStep {
    /// Fetching the entry.
    Get(MaildirEntryGet),
    /// Loading the slot table of the Maildir for the fetched `entry`.
    Table { load: MaildirDovecotLoad, entry: MaildirFullEntry },
    /// Finished; any further reply is unexpected.
    Done,
}

/// What one step of [`MaildirClientGet`] gives.
pub type ClientGetOutcome = MaildirCoroutineState<MaildirYield, Result<MaildirFullEntry, MaildirClientError>>;

/// Fetches an entry by id and gives it the custom keywords its Maildir
/// spells, through the `dovecot-keywords` table and through the keywords
/// header.
#[derive(Debug)]
pub struct MaildirClientGet {
    maildir: Maildir,
    dovecot: bool,
    header: Option<KeywordHeader>,
    step: ClientGetStep,
}

/// Fetching with `g` on `arg` leads `pre` to `post` and gives `r`.
pub open spec fn fetch_continues(
    pre: MaildirClientGet,
    g: MaildirEntryGet,
    arg: Option<MaildirReply>,
    post: MaildirClientGet,
    r: ClientGetOutcome,
) -> bool {
    match unread_located(g, arg) {
        Some(p) => {
            &&& post.step() is Done
            &&& r matches MaildirCoroutineState::Complete(Err(MaildirClientError::Unreadable(q))) && q@ == p
        },
        None => fetch_steps(pre, g, arg, post, r),
    }
}

/// The located file that the read reply `arg` gives no bytes for, when
/// `g` waits for that read.
pub open spec fn unread_located(g: MaildirEntryGet, arg: Option<MaildirReply>) -> Option<Seq<char>> {
    match (g.step(), arg) {
        (GetStep::Read { path }, Some(MaildirReply::FileRead(m))) => if read_has(m@, path@) {
            None
        } else {
            Some(path@)
        },
        _ => None,
    }
}

/// Fetching with `g` on a reply it can use leads `pre` to `post` and
/// gives `r`.
pub open spec fn fetch_steps(
    pre: MaildirClientGet,
    g: MaildirEntryGet,
    arg: Option<MaildirReply>,
    post: MaildirClientGet,
    r: ClientGetOutcome,
) -> bool {
    exists|g2: MaildirEntryGet, r2: GetOutcome|
        #[trigger] get_resumes(g, arg, g2, r2) && match r2 {
            MaildirCoroutineState::Yielded(y) => {
                &&& post.step() matches ClientGetStep::Get(g3) && g3 == g2
                &&& r == ClientGetOutcome::Yielded(y)
            },
            MaildirCoroutineState::Complete(Err(e)) => {
                &&& post.step() is Done
                &&& r == ClientGetOutcome::Complete(Err(MaildirClientError::EntryGet(e)))
            },
            MaildirCoroutineState::Complete(Ok(e)) => if pre.dovecot_spec() {
                &&& post.step() matches ClientGetStep::Table { load, entry } && entry == e && load.path_spec()
                    == sidecar_path(pre.maildir_spec()) && load.step() is Probe
                &&& r matches MaildirCoroutineState::Yielded(MaildirYield::WantsFileExists(v)) && paths_view(v@)
                    == seq![sidecar_path(pre.maildir_spec())]
            } else {
                &&& post.step() is Done
                &&& r matches MaildirCoroutineState::Complete(Ok(e2)) && entry_resolved(e2, e, None, pre.header_spec())
            },
        }
}

/// Loading the slot table with `load` for `entry` on `arg` leads `pre`
/// to `post` and gives `r`: a table the read reply gives no bytes for
/// reads as empty.
pub open spec fn get_table_continues(
    pre: MaildirClientGet,
    load: MaildirDovecotLoad,
    entry: MaildirFullEntry,
    arg: Option<MaildirReply>,
    post: MaildirClientGet,
    r: ClientGetOutcome,
) -> bool {
    exists|l2: MaildirDovecotLoad, r2: DovecotLoadOutcome|
        #[trigger] dovecot_load_resumes(load, arg, l2, r2) && match r2 {
            MaildirCoroutineState::Yielded(y) => {
                &&& post.step() matches ClientGetStep::Table { load: l3, entry: e3 } && l3 == l2 && e3 == entry
                &&& r == ClientGetOutcome::Yielded(y)
            },
            MaildirCoroutineState::Complete(Ok(t)) => {
                &&& post.step() is Done
                &&& r matches MaildirCoroutineState::Complete(Ok(e2)) && entry_resolved(
                    e2,
                    entry,
                    Some(table_map(t@)),
                    pre.header_spec(),
                )
            },
            MaildirCoroutineState::Complete(Err(MaildirDovecotLoadError::UnexpectedArg(a))) => {
                &&& post.step() is Done
                &&& r == ClientGetOutcome::Complete(Err(MaildirClientError::UnexpectedArg(a)))
            },
        }
}

/// One step of [`MaildirClientGet`] from `pre` on `arg` leads to `post`
/// and gives `r`.
pub open spec fn client_get_resumes(pre: MaildirClientGet, arg: Option<MaildirReply>, post: MaildirClientGet, r: ClientGetOutcome) -> bool {
    &&& post.maildir_spec() == pre.maildir_spec()
    &&& post.dovecot_spec() == pre.dovecot_spec()
    &&& post.header_spec() == pre.header_spec()
    &&& match pre.step() {
        ClientGetStep::Get(g) => fetch_continues(pre, g, arg, post, r),
        ClientGetStep::Table { load, entry } => get_table_continues(pre, load, entry, arg, post, r),
        ClientGetStep::Done => {
            &&& post.step() is Done
            &&& r == ClientGetOutcome::Complete(Err(MaildirClientError::UnexpectedArg(arg)))
        },
    }
}

impl MaildirClientGet {
    /// The Maildir the entry is fetched from.
    pub closed spec fn maildir_spec(&self) -> Seq<char> {
        self.maildir@
    }

    /// Whether slot letters resolve through the `dovecot-keywords`
    /// table.
    pub closed spec fn dovecot_spec(&self) -> bool {
        self.dovecot
    }

    /// The header custom keywords are read from.
    pub closed spec fn header_spec(&self) -> Option<KeywordHeader> {
        self.header
    }

    /// Where the machine stands.
    pub closed spec fn step(&self) -> ClientGetStep {
        self.step
    }

    /// Builds a machine fetching the entry `id` of `maildir`, resolving
    /// slot letters through the Maildir's table when `dovecot` is set
    /// and reading keywords from `header` when it is set.
    pub fn new(maildir: Maildir, id: &str, dovecot: bool, header: Option<KeywordHeader>) -> (r: Self)
        ensures
            r.maildir_spec() == maildir@,
            r.dovecot_spec() == dovecot,
            r.header_spec() == header,
            r.step() matches ClientGetStep::Get(g) && (g.step() matches GetStep::Locate(c) && c.maildir_spec()
                == maildir@ && c.id_spec() == id@ && c.step() is Start),
    {
        let get = MaildirEntryGet::new(maildir.clone(), id);
        MaildirClientGet { maildir, dovecot, header, step: ClientGetStep::Get(get) }
    }

    /// Makes the fetch progress with the caller's answer `arg`.
    pub fn resume(&mut self, arg: Option<MaildirReply>) -> (r: ClientGetOutcome)
        ensures
            client_get_resumes(*old(self), arg, *final(self), r),
    {
        let ghost pre = *old(self);
        let mut step = ClientGetStep::Done;
        core::mem::swap(&mut step, &mut self.step);
        match step {
            ClientGetStep::Get(mut g) => {
                let ghost g0 = g;
                let missing = match (g.reading(), &arg) {
                    (Some(path), Some(MaildirReply::FileRead(m))) => if has_read(m, path) {
                        None
                    } else {
                        Some(path.clone())
                    },
                    _ => None,
                };
                if let Some(path) = missing {
                    let r = MaildirCoroutineState::Complete(Err(MaildirClientError::Unreadable(path)));
                    assert(fetch_continues(pre, g0, arg, *self, r));
                    return r;
                }
                assert(unread_located(g0, arg) is None);
                let r2 = g.resume(arg);
                let ghost g2 = g;
                let ghost r2g = r2;
                proof {
                    assert(get_resumes(g0, arg, g2, r2g));
                }
                match r2 {
                    MaildirCoroutineState::Yielded(y) => {
                        self.step = ClientGetStep::Get(g);
                        let r = MaildirCoroutineState::Yielded(y);
                        assert(fetch_continues(pre, g0, arg, *self, r));
                        r
                    },
                    MaildirCoroutineState::Complete(Err(e)) => {
                        let r = MaildirCoroutineState::Complete(Err(MaildirClientError::EntryGet(e)));
                        assert(fetch_continues(pre, g0, arg, *self, r));
                        r
                    },
                    MaildirCoroutineState::Complete(Ok(e)) => {
                        if self.dovecot {
                            let mut load = MaildirDovecotLoad::new(&self.maildir);
                            let ghost l0 = load;
                            let r3 = load.resume(None);
                            proof {
                                assert(dovecot_load_resumes(l0, None, load, r3));
                            }
                            match r3 {
                                MaildirCoroutineState::Yielded(y) => {
                                    self.step = ClientGetStep::Table { load, entry: e };
                                    let r = MaildirCoroutineState::Yielded(y);
                                    assert(fetch_continues(pre, g0, arg, *self, r));
                                    r
                                },
                                MaildirCoroutineState::Complete(_) => {
                                    assert(false);
                                    MaildirCoroutineState::Complete(Err(MaildirClientError::UnexpectedArg(None)))
                                },
                            }
                        } else {
                            let r = MaildirCoroutineState::Complete(Ok(resolve_entry(e, &None, self.header)));
                            assert(fetch_continues(pre, g0, arg, *self, r));
                            r
                        }
                    },
                }
            },
            ClientGetStep::Table { mut load, entry } => {
                let ghost l0 = load;
                let ghost e0 = entry;
                let r2 = load.resume(arg);
                let ghost l2 = load;
                let ghost r2g = r2;
                proof {
                    assert(dovecot_load_resumes(l0, arg, l2, r2g));
                }
                match r2 {
                    MaildirCoroutineState::Yielded(y) => {
                        self.step = ClientGetStep::Table { load, entry };
                        let r = MaildirCoroutineState::Yielded(y);
                        assert(get_table_continues(pre, l0, e0, arg, *self, r));
                        r
                    },
                    MaildirCoroutineState::Complete(Ok(t)) => {
                        let table = Some(t);
                        let r = MaildirCoroutineState::Complete(Ok(resolve_entry(entry, &table, self.header)));
                        assert(get_table_continues(pre, l0, e0, arg, *self, r));
                        r
                    },
                    MaildirCoroutineState::Complete(Err(MaildirDovecotLoadError::UnexpectedArg(a))) => {
                        let r = MaildirCoroutineState::Complete(Err(MaildirClientError::UnexpectedArg(a)));
                        assert(get_table_continues(pre, l0, e0, arg, *self, r));
                        r
                    },
                }
            },
            ClientGetStep::Done => MaildirCoroutineState::Complete(Err(MaildirClientError::UnexpectedArg(arg))),
        }
    }
}

/// Where a [`MaildirEntriesRead`] stands.
#[derive(Debug)]
pub enum ReadStep {
    /// Nothing asked yet.
    Start,
    /// Loading the slot table of the Maildir.
    Table { load: MaildirDovecotLoad },
    /// Waiting for the bytes of the entries; slot letters resolve
    /// through `table` when there is one.
    Read { table: Option<DovecotKeywords> },
    /// Finished; any further reply is unexpected.
    Done,
}

/// What one step of [`MaildirEntriesRead`] gives.
pub type ReadOutcome = MaildirCoroutineState<MaildirYield, Result<Vec<MaildirFullEntry>, MaildirClientError>>;

/// Reads entries whole: drops the configured header fields, and gives
/// each entry the custom keywords its Maildir spells, through the
/// `dovecot-keywords` table and through the keywords header.
#[derive(Debug)]
pub struct MaildirEntriesRead {
    maildir: Maildir,
    paths: Vec<MaildirFsPath>,
    strip: Vec<String>,
    dovecot: bool,
    header: Option<KeywordHeader>,
    step: ReadStep,
}

/// The bytes kept of an entry read as `bytes`: the header fields named
/// by `strip` are dropped, when there are any.
pub open spec fn kept_bytes(bytes: Seq<u8>, strip: Seq<String>) -> Seq<u8> {
    if strip.len() == 0 {
        bytes
    } else {
        strip_headers_spec(bytes, strip)
    }
}

/// `v` holds, for each of `paths` in order, the entry read there from
/// the reply `m`: its bytes less the header fields named by `strip`,
/// its flags read through the slot map `table` and the keywords header
/// `h`.
pub open spec fn entries_read(
    v: Seq<MaildirFullEntry>,
    paths: Seq<MaildirFsPath>,
    m: Seq<(MaildirFsPath, Vec<u8>)>,
    strip: Seq<String>,
    table: Option<Map<char, Seq<char>>>,
    h: Option<KeywordHeader>,
) -> bool {
    &&& v.len() == paths.len()
    &&& forall|i: int|
        0 <= i < v.len() ==> (#[trigger] v[i]).path()@ == paths[i]@ && v[i].contents()@ == kept_bytes(
            read_spec(m, paths[i]@),
            strip,
        ) && read_flags_spec(v[i].flags()@, paths[i]@, table, header_keywords(h, read_spec(m, paths[i]@)))
}

/// The first of `paths` the read reply `m` gives no bytes for.
pub open spec fn first_unread(paths: Seq<MaildirFsPath>, m: Seq<(MaildirFsPath, Vec<u8>)>) -> Option<Seq<char>>
    decreases paths.len(),
{
    if paths.len() == 0 {
        None
    } else if !read_has(m, paths[0]@) {
        Some(paths[0]@)
    } else {
        first_unread(paths.drop_first(), m)
    }
}

/// `post` waits for the bytes of the entries of `pre`, to be resolved
/// through the slot map `t`, and `r` asks for them.
pub open spec fn read_asked(pre: MaildirEntriesRead, t: Option<Map<char, Seq<char>>>, post: MaildirEntriesRead, r: ReadOutcome) -> bool {
    &&& post.step() matches ReadStep::Read { table } && opt_table(table) == t
    &&& r matches MaildirCoroutineState::Yielded(MaildirYield::WantsFileRead(v)) && paths_view(v@) == paths_view(
        pre.paths_spec(),
    )
}

/// Loading the slot table with `load` on `arg` leads `pre` to `post`
/// and gives `r`: a table the read reply gives no bytes for reads as
/// empty.
pub open spec fn table_continues(
    pre: MaildirEntriesRead,
    load: MaildirDovecotLoad,
    arg: Option<MaildirReply>,
    post: MaildirEntriesRead,
    r: ReadOutcome,
) -> bool {
    exists|l2: MaildirDovecotLoad, r2: DovecotLoadOutcome|
        #[trigger] dovecot_load_resumes(load, arg, l2, r2) && match r2 {
            MaildirCoroutineState::Yielded(y) => {
                &&& post.step() matches ReadStep::Table { load: l3 } && l3 == l2
                &&& r == ReadOutcome::Yielded(y)
            },
            MaildirCoroutineState::Complete(Ok(t)) => read_asked(pre, Some(table_map(t@)), post, r),
            MaildirCoroutineState::Complete(Err(MaildirDovecotLoadError::UnexpectedArg(a))) => {
                &&& post.step() is Done
                &&& r == ReadOutcome::Complete(Err(MaildirClientError::UnexpectedArg(a)))
            },
        }
}

/// One step of [`MaildirEntriesRead`] from `pre` on `arg` leads to
/// `post` and gives `r`.
pub open spec fn entries_read_resumes(
    pre: MaildirEntriesRead,
    arg: Option<MaildirReply>,
    post: MaildirEntriesRead,
    r: ReadOutcome,
) -> bool {
    &&& post.maildir_spec() == pre.maildir_spec()
    &&& post.paths_spec() == pre.paths_spec()
    &&& post.strip_spec() == pre.strip_spec()
    &&& post.dovecot_spec() == pre.dovecot_spec()
    &&& post.header_spec() == pre.header_spec()
    &&& match (pre.step(), arg) {
        (ReadStep::Start, None) => if pre.dovecot_spec() {
            &&& post.step() matches ReadStep::Table { load } && load.path_spec() == sidecar_path(pre.maildir_spec())
                && load.step() is Probe
            &&& r matches MaildirCoroutineState::Yielded(MaildirYield::WantsFileExists(v)) && paths_view(v@)
                == seq![sidecar_path(pre.maildir_spec())]
        } else {
            read_asked(pre, None, post, r)
        },
        (ReadStep::Table { load }, arg) => table_continues(pre, load, arg, post, r),
        (ReadStep::Read { table }, Some(MaildirReply::FileRead(m))) => {
            &&& post.step() is Done
            &&& match first_unread(pre.paths_spec(), m@) {
                Some(p) => r matches MaildirCoroutineState::Complete(Err(MaildirClientError::Unreadable(q))) && q@ == p,
                None => r matches MaildirCoroutineState::Complete(Ok(v)) && entries_read(
                    v@,
                    pre.paths_spec(),
                    m@,
                    pre.strip_spec(),
                    opt_table(table),
                    pre.header_spec(),
                ),
            }
        },
        (_, arg) => {
            &&& post.step() is Done
            &&& r == ReadOutcome::Complete(Err(MaildirClientError::UnexpectedArg(arg)))
        },
    }
}

impl MaildirEntriesRead {
    /// A table kept for resolving is well formed.
    #[verifier::type_invariant]
    spec fn inv(&self) -> bool {
        self.step matches ReadStep::Read { table: Some(t) } ==> table_wf(t@)
    }

    /// The Maildir the entries belong to.
    pub closed spec fn maildir_spec(&self) -> Seq<char> {
        self.maildir@
    }

    /// The paths read.
    pub closed spec fn paths_spec(&self) -> Seq<MaildirFsPath> {
        self.paths@
    }

    /// The header names dropped.
    pub closed spec fn strip_spec(&self) -> Seq<String> {
        self.strip@
    }

    /// Whether slot letters resolve through the `dovecot-keywords`
    /// table.
    pub closed spec fn dovecot_spec(&self) -> bool {
        self.dovecot
    }

    /// The header custom keywords are read from.
    pub closed spec fn header_spec(&self) -> Option<KeywordHeader> {
        self.header
    }

    /// Where the machine stands.
    pub closed spec fn step(&self) -> ReadStep {
        self.step
    }

    /// Builds a machine reading `entries` of `maildir`, dropping the
    /// header fields named by `strip`, resolving slot letters through
    /// the Maildir's table when `dovecot` is set and reading keywords
    /// from `header` when it is set.
    pub fn new(maildir: &Maildir, entries: &Vec<MaildirEntry>, strip: &Vec<String>, dovecot: bool, header: Option<KeywordHeader>) -> (r: Self)
        ensures
            r.step() is Start,
            r.maildir_spec() == maildir@,
            paths_view(r.paths_spec()) == entries_view(entries@),
            r.strip_spec().len() == strip@.len(),
            forall|i: int| 0 <= i < strip@.len() ==> (#[trigger] r.strip_spec()[i])@ == strip@[i]@,
            r.dovecot_spec() == dovecot,
            r.header_spec() == header,
    {
        let mut paths: Vec<MaildirFsPath> = Vec::new();
        let mut i: usize = 0;
        while i < entries.len()
            invariant
                i <= entries@.len(),
                paths@.len() == i,
                forall|j: int| 0 <= j < i ==> #[trigger] paths@[j]@ == entries@[j].path()@,
            decreases entries@.len() - i,
        {
            paths.push(entries[i].path().clone());
            i = i + 1;
        }
        assert(paths_view(paths@) =~= entries_view(entries@));
        let mut names: Vec<String> = Vec::new();
        let mut k: usize = 0;
        while k < strip.len()
            invariant
                k <= strip@.len(),
                names@.len() == k,
                forall|j: int| 0 <= j < k ==> #[trigger] names@[j]@ == strip@[j]@,
            decreases strip@.len() - k,
        {
            names.push(strip[k].as_str().to_owned());
            k = k + 1;
        }
        MaildirEntriesRead { maildir: maildir.clone(), paths, strip: names, dovecot, header, step: ReadStep::Start }
    }

    /// Asks for the bytes of the entries, to be resolved through
    /// `table`.
    fn ask_read(&mut self, table: Option<DovecotKeywords>) -> (r: ReadOutcome)
        ensures
            final(self).maildir_spec() == old(self).maildir_spec(),
            final(self).paths_spec() == old(self).paths_spec(),
            final(self).strip_spec() == old(self).strip_spec(),
            final(self).dovecot_spec() == old(self).dovecot_spec(),
            final(self).header_spec() == old(self).header_spec(),
            read_asked(*old(self), opt_table(table), *final(self), r),
    {
        if let Some(t) = &table {
            proof { use_type_invariant(t); }
        }
        let mut v: Vec<MaildirFsPath> = Vec::new();
        let mut i: usize = 0;
        while i < self.paths.len()
            invariant
                i <= self.paths@.len(),
                v@.len() == i,
                forall|j: int| 0 <= j < i ==> #[trigger] v@[j]@ == self.paths@[j]@,
            decreases self.paths@.len() - i,
        {
            v.push(self.paths[i].clone());
            i = i + 1;
        }
        assert(paths_view(v@) =~= paths_view(self.paths@));
        self.step = ReadStep::Read { table };
        MaildirCoroutineState::Yielded(MaildirYield::WantsFileRead(v))
    }

    /// Makes the read progress with the caller's answer `arg`.
    #[verifier::loop_isolation(false)]
    pub fn resume(&mut self, arg: Option<MaildirReply>) -> (r: ReadOutcome)
        ensures
            entries_read_resumes(*old(self), arg, *final(self), r),
    {
        let mut step = ReadStep::Done;
        proof {
            use_type_invariant(&*self);
        }
        core::mem::swap(&mut step, &mut self.step);
        match step {
            ReadStep::Start => match arg {
                None => {
                    if self.dovecot {
                        let mut load = MaildirDovecotLoad::new(&self.maildir);
                        let ghost l0 = load;
                        let r2 = load.resume(None);
                        proof {
                            assert(dovecot_load_resumes(l0, None, load, r2));
                        }
                        match r2 {
                            MaildirCoroutineState::Yielded(y) => {
                                self.step = ReadStep::Table { load };
                                MaildirCoroutineState::Yielded(y)
                            },
                            MaildirCoroutineState::Complete(_) => {
                                assert(false);
                                MaildirCoroutineState::Complete(Err(MaildirClientError::UnexpectedArg(None)))
                            },
                        }
                    } else {
                        self.ask_read(None)
                    }
                },
                arg => MaildirCoroutineState::Complete(Err(MaildirClientError::UnexpectedArg(arg))),
            },
            ReadStep::Table { mut load } => {
                let ghost l0 = load;
                let ghost pre = *old(self);
                let r2 = load.resume(arg);
                let ghost l2 = load;
                let ghost r2g = r2;
                proof {
                    assert(dovecot_load_resumes(l0, arg, l2, r2g));
                }
                match r2 {
                    MaildirCoroutineState::Yielded(y) => {
                        self.step = ReadStep::Table { load };
                        let r = MaildirCoroutineState::Yielded(y);
                        assert(table_continues(pre, l0, arg, *self, r));
                        r
                    },
                    MaildirCoroutineState::Complete(Ok(t)) => {
                        let r = self.ask_read(Some(t));
                        assert(table_continues(pre, l0, arg, *self, r));
                        r
                    },
                    MaildirCoroutineState::Complete(Err(MaildirDovecotLoadError::UnexpectedArg(a))) => {
                        let r = MaildirCoroutineState::Complete(Err(MaildirClientError::UnexpectedArg(a)));
                        assert(table_continues(pre, l0, arg, *self, r));
                        r
                    },
                }
            },
            ReadStep::Read { table } => match arg {
                Some(MaildirReply::FileRead(m)) => {
                    let mut out: Vec<MaildirFullEntry> = Vec::new();
                    let mut i: usize = 0;
                    let ghost ps = self.paths@;
                    proof {
                        assert(ps.skip(0) =~= ps);
                    }
                    while i < self.paths.len()
                        invariant
                            i <= self.paths@.len(),
                            ps == self.paths@,
                            table matches Some(t) ==> table_wf(t@),
                            out@.len() == i,
                            first_unread(ps, m@) == first_unread(ps.skip(i as int), m@),
                            forall|j: int|
                                0 <= j < i ==> (#[trigger] out@[j]).path()@ == ps[j]@ && out@[j].contents()@
                                    == kept_bytes(read_spec(m@, ps[j]@), self.strip@) && read_flags_spec(
                                    out@[j].flags()@,
                                    ps[j]@,
                                    opt_table(table),
                                    header_keywords(self.header, read_spec(m@, ps[j]@)),
                                ),
                        decreases self.paths@.len() - i,
                    {
                        assert(ps.skip(i as int)[0] == ps[i as int]);
                        if !has_read(&m, &self.paths[i]) {
                            return MaildirCoroutineState::Complete(Err(MaildirClientError::Unreadable(self.paths[i].clone())));
                        }
                        assert(ps.skip(i as int).drop_first() =~= ps.skip(i + 1));
                        let bytes = read_copy(&m, &self.paths[i]);
                        let flags = read_flags(&self.paths[i], bytes.as_slice(), &table, self.header);
                        let kept = if self.strip.len() == 0 {
                            bytes
                        } else {
                            strip_headers(bytes.as_slice(), &self.strip)
                        };
                        out.push(MaildirFullEntry::with_flags(self.paths[i].clone(), kept, flags));
                        i = i + 1;
                    }
                    assert(ps.skip(i as int) =~= Seq::<MaildirFsPath>::empty());
                    MaildirCoroutineState::Complete(Ok(out))
                },
                arg => MaildirCoroutineState::Complete(Err(MaildirClientError::UnexpectedArg(arg))),
            },
            ReadStep::Done => MaildirCoroutineState::Complete(Err(MaildirClientError::UnexpectedArg(arg))),
        }
    }
}

} // verus!

verus! {

/// The client operations, each given as the state machine that runs it.
impl MaildirClient {
    /// Loads the `dovecot-keywords` table of `maildir`.
    pub fn load_dovecot_keywords(&self, maildir: &Maildir) -> (r: MaildirDovecotLoad)
        ensures
            r.path_spec() == sidecar_path(maildir@),
            r.step() is Start,
    {
        MaildirDovecotLoad::new(maildir)
    }

    /// Writes `table` as the `dovecot-keywords` table of `maildir`.
    pub fn store_dovecot_keywords(&self, maildir: &Maildir, table: &DovecotKeywords) -> (r: MaildirDovecotStore)
        ensures
            r.step() matches DovecotStoreStep::Start { path, payload } && path@ == sidecar_path(maildir@)
                && payload@ == encode_utf8(serialize_spec(table@)),
    {
        MaildirDovecotStore::new(maildir, table)
    }

    /// Opens the existing Maildir `name` resolves to in the store,
    /// checking its `cur`, `new` and `tmp` subdirectories.
    pub fn load_maildir(&self, name: &MaildirPath) -> (r: MaildirLoad)
        ensures
            r.root_spec() == resolve_spec(self.store.root@, self.store.maildirpp, name@),
            r.step() is Start,
    {
        MaildirLoad::new(self.store.resolve(name))
    }

    /// Creates the Maildir `name` resolves to in the store.
    pub fn create_maildir(&self, name: MaildirPath) -> (r: MaildirCreate)
        ensures
            r.step() matches CreateStep::Start { paths }
                && paths_view(paths@) == maildir_dirs(resolve_spec(self.store.root@, self.store.maildirpp, name@)),
    {
        MaildirCreate::new(&self.store, name)
    }

    /// Deletes the Maildir `name` resolves to in the store.
    pub fn delete_maildir(&self, name: MaildirPath) -> (r: MaildirDelete)
        ensures
            r.step() matches DeleteStep::Start { paths }
                && paths_view(paths@) == seq![resolve_spec(self.store.root@, self.store.maildirpp, name@)],
    {
        MaildirDelete::new(&self.store, name)
    }

    /// Lists the Maildirs under the store root, following its layout.
    pub fn list_maildirs(&self) -> (r: MaildirList)
        ensures
            r.step() matches MaildirListStep::Start { root } && root@ == self.store.root@,
            r.maildirpp_spec() == self.store.maildirpp,
    {
        MaildirList::new(&self.store)
    }

    /// Renames the Maildir `from` to `to`, both resolved in the store.
    pub fn rename_maildir(&self, from: MaildirPath, to: MaildirPath) -> (r: MaildirRename)
        ensures
            r.step() matches RenameStep::Start { pairs } && pairs_view(pairs@) == seq![
                (
                    resolve_spec(self.store.root@, self.store.maildirpp, from@),
                    resolve_spec(self.store.root@, self.store.maildirpp, to@),
                ),
            ],
    {
        MaildirRename::new(&self.store, from, to)
    }

    /// Adds `flags` to the entry `id` of `maildir`, custom keywords
    /// resolved through the `dovecot-keywords` option.
    pub fn add_flags(&self, maildir: Maildir, id: &str, flags: MaildirFlags) -> (r: MaildirClientFlags)
        ensures
            r.op_spec() == FlagsOp::Add,
            r.maildir_spec() == maildir@,
            r.id_spec() == id@,
            r.step() matches ClientFlagsStep::Resolve(res) && res.maildir_spec() == maildir@ && keywords_fresh(
                res,
                self.dovecot_keywords,
                flags@,
            ),
    {
        proof { use_type_invariant(&flags); }
        MaildirClientFlags::new(FlagsOp::Add, maildir, id, flags, self.dovecot_keywords)
    }

    /// Removes `flags` from the entry `id` of `maildir`, custom keywords
    /// resolved through the `dovecot-keywords` option.
    pub fn remove_flags(&self, maildir: Maildir, id: &str, flags: MaildirFlags) -> (r: MaildirClientFlags)
        ensures
            r.op_spec() == FlagsOp::Remove,
            r.maildir_spec() == maildir@,
            r.id_spec() == id@,
            r.step() matches ClientFlagsStep::Resolve(res) && res.maildir_spec() == maildir@ && keywords_fresh(
                res,
                self.dovecot_keywords,
                flags@,
            ),
    {
        proof { use_type_invariant(&flags); }
        MaildirClientFlags::new(FlagsOp::Remove, maildir, id, flags, self.dovecot_keywords)
    }

    /// Gives the entry `id` of `maildir` exactly `flags`, custom keywords
    /// resolved through the `dovecot-keywords` option.
    pub fn set_flags(&self, maildir: Maildir, id: &str, flags: MaildirFlags) -> (r: MaildirClientFlags)
        ensures
            r.op_spec() == FlagsOp::Replace,
            r.maildir_spec() == maildir@,
            r.id_spec() == id@,
            r.step() matches ClientFlagsStep::Resolve(res) && res.maildir_spec() == maildir@ && keywords_fresh(
                res,
                self.dovecot_keywords,
                flags@,
            ),
    {
        proof { use_type_invariant(&flags); }
        MaildirClientFlags::new(FlagsOp::Replace, maildir, id, flags, self.dovecot_keywords)
    }

    /// Locates the entry `id` of `maildir`.
    pub fn locate(&self, maildir: Maildir, id: &str) -> (r: MaildirEntryLocate)
        ensures
            r.maildir_spec() == maildir@,
            r.id_spec() == id@,
            r.step() is Start,
    {
        MaildirEntryLocate::new(maildir, id)
    }

    /// Reads the entry `id` of `maildir`, resolving its custom keywords
    /// through the `dovecot_keywords` and `keywords_header` options.
    pub fn get(&self, maildir: Maildir, id: &str) -> (r: MaildirClientGet)
        ensures
            r.maildir_spec() == maildir@,
            r.dovecot_spec() == self.dovecot_keywords,
            r.header_spec() == self.keywords_header,
            r.step() matches ClientGetStep::Get(g) && (g.step() matches GetStep::Locate(c) && c.maildir_spec()
                == maildir@ && c.id_spec() == id@ && c.step() is Start),
    {
        MaildirClientGet::new(maildir, id, self.dovecot_keywords, self.keywords_header)
    }

    /// Lists the entries of `maildir`, bodies not read.
    pub fn list_entries(&self, maildir: Maildir) -> (r: MaildirEntryList)
        ensures
            r.step() matches ListStep::Start { maildir: m } && m@ == maildir@,
    {
        MaildirEntryList::new(maildir)
    }

    /// Reads `entry` of `maildir` whole, dropping the header fields
    /// named by `strip_headers` and resolving its custom keywords
    /// through the `dovecot_keywords` and `keywords_header` options.
    pub fn read_entry(&self, maildir: &Maildir, entry: &MaildirEntry) -> (r: MaildirEntriesRead)
        ensures
            r.step() is Start,
            r.maildir_spec() == maildir@,
            paths_view(r.paths_spec()) == seq![entry.path()@],
            r.strip_spec().len() == self.strip_headers@.len(),
            forall|i: int| 0 <= i < self.strip_headers@.len() ==> (#[trigger] r.strip_spec()[i])@
                == self.strip_headers@[i]@,
            r.dovecot_spec() == self.dovecot_keywords,
            r.header_spec() == self.keywords_header,
    {
        let mut one: Vec<MaildirEntry> = Vec::new();
        one.push(entry.clone());
        assert(entries_view(one@) =~= seq![entry.path()@]);
        MaildirEntriesRead::new(maildir, &one, &self.strip_headers, self.dovecot_keywords, self.keywords_header)
    }

    /// Reads `entries` of `maildir` whole, in order, dropping the header
    /// fields named by `strip_headers` and resolving custom keywords
    /// through the `dovecot_keywords` and `keywords_header` options.
    pub fn read_entries(&self, maildir: &Maildir, entries: &Vec<MaildirEntry>) -> (r: MaildirEntriesRead)
        ensures
            r.step() is Start,
            r.maildir_spec() == maildir@,
            paths_view(r.paths_spec()) == entries_view(entries@),
            r.strip_spec().len() == self.strip_headers@.len(),
            forall|i: int| 0 <= i < self.strip_headers@.len() ==> (#[trigger] r.strip_spec()[i])@
                == self.strip_headers@[i]@,
            r.dovecot_spec() == self.dovecot_keywords,
            r.header_spec() == self.keywords_header,
    {
        MaildirEntriesRead::new(maildir, entries, &self.strip_headers, self.dovecot_keywords, self.keywords_header)
    }

    /// Stores `contents` as a new entry in `subdir` of `maildir` with
    /// `flags`, custom keywords carried by the `keywords_header` and
    /// `dovecot_keywords` options.
    pub fn store(&self, maildir: Maildir, subdir: MaildirSubdir, flags: MaildirFlags, contents: Vec<u8>) -> (r: MaildirClientStore)
        ensures
            r.maildir_spec() == maildir@,
            r.step() matches ClientStoreStep::Resolve { res, subdir: d, contents: c } && res.maildir_spec() == maildir@
                && keywords_fresh(res, self.dovecot_keywords, flags@) && d == subdir && c@ == stored_contents(
                self.keywords_header,
                keywords_of(flags@.flags),
                contents@,
            ),
    {
        proof { use_type_invariant(&flags); }
        MaildirClientStore::new(maildir, subdir, flags, contents, self.keywords_header, self.dovecot_keywords)
    }

    /// Copies the entry `id` of `source` into `target`.
    pub fn copy(&self, id: &str, source: Maildir, target: Maildir, target_subdir: Option<MaildirSubdir>) -> (r: MaildirEntryCopy)
        ensures
            r.target_spec() == target@,
            r.target_subdir_spec() == target_subdir,
            r.step() matches EntryCopyStep::Locate(c) && c.maildir_spec() == source@ && c.id_spec() == id@
                && c.step() is Start,
    {
        MaildirEntryCopy::new(id, source, target, target_subdir)
    }

    /// Moves the entry `id` of `source` into `target`.
    pub fn move_entry(&self, id: &str, source: Maildir, target: Maildir, target_subdir: Option<MaildirSubdir>) -> (r: MaildirEntryMove)
        ensures
            r.target_spec() == target@,
            r.target_subdir_spec() == target_subdir,
            r.step() matches EntryMoveStep::Locate(c) && c.maildir_spec() == source@ && c.id_spec() == id@
                && c.step() is Start,
    {
        MaildirEntryMove::new(id, source, target, target_subdir)
    }
}

} // verus!
