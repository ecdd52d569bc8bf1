//! State machine writing the `dovecot-keywords` slot table at the root
//! of a Maildir.

use vstd::prelude::*;
use vstd::utf8::encode_utf8;

use crate::coroutine::{files_view, MaildirCoroutineState, MaildirReply, MaildirYield};
use crate::dovecot::load::{sidecar_file, sidecar_path};
use crate::dovecot::{serialize_dovecot_keywords, serialize_spec, DovecotKeywords};
use crate::maildir::Maildir;
use crate::path::MaildirFsPath;

verus! {

/// Failure causes during a [`MaildirDovecotStore`] step.
#[derive(Debug)]
pub enum MaildirDovecotStoreError {
    /// A reply arrived that does not match the awaited step.
    UnexpectedArg(Option<MaildirReply>),
}

/// Where a [`MaildirDovecotStore`] stands.
#[derive(Debug)]
pub enum DovecotStoreStep {
    /// Nothing asked yet; the file to write.
    Start { path: MaildirFsPath, payload: Vec<u8> },
    /// Waiting for the file to be written.
    Write,
    /// Finished; any further reply is unexpected.
    Done,
}

/// What one step of [`MaildirDovecotStore`] gives.
pub type DovecotStoreOutcome = MaildirCoroutineState<MaildirYield, Result<(), MaildirDovecotStoreError>>;

/// Persists the `dovecot-keywords` slot table at the root of a Maildir.
#[derive(Debug)]
pub struct MaildirDovecotStore {
    step: DovecotStoreStep,
}

/// One step of [`MaildirDovecotStore`] from `pre` on `arg` leads to
/// `post` and gives `r`.
pub open spec fn dovecot_store_resumes(
    pre: MaildirDovecotStore,
    arg: Option<MaildirReply>,
    post: MaildirDovecotStore,
    r: DovecotStoreOutcome,
) -> bool {
    match (pre.step(), arg) {
        (DovecotStoreStep::Start { path, payload }, None) => {
            &&& post.step() is Write
            &&& r matches MaildirCoroutineState::Yielded(MaildirYield::WantsFileCreate(v)) && files_view(v@)
                == seq![(path@, payload@)]
        },
        (DovecotStoreStep::Write, Some(MaildirReply::FileCreate)) => {
            &&& post.step() is Done
            &&& r == DovecotStoreOutcome::Complete(Ok(()))
        },
        (_, arg) => {
            &&& post.step() is Done
            &&& r == DovecotStoreOutcome::Complete(Err(MaildirDovecotStoreError::UnexpectedArg(arg)))
        },
    }
}

impl MaildirDovecotStore {
    /// Where the machine stands.
    pub closed spec fn step(&self) -> DovecotStoreStep {
        self.step
    }

    /// Builds a machine writing `table` as the sidecar of `maildir`, in
    /// UTF-8.
    pub fn new(maildir: &Maildir, table: &DovecotKeywords) -> (r: Self)
        ensures
            r.step() matches DovecotStoreStep::Start { path, payload } && path@ == sidecar_path(maildir@)
                && payload@ == encode_utf8(serialize_spec(table@)),
    {
        let path = maildir.path().join(sidecar_file());
        let text = serialize_dovecot_keywords(table);
        let payload = text.as_str().as_bytes_vec();
        MaildirDovecotStore { step: DovecotStoreStep::Start { path, payload } }
    }

    /// Makes the write progress with the caller's answer `arg`.
    pub fn resume(&mut self, arg: Option<MaildirReply>) -> (r: DovecotStoreOutcome)
        ensures
            dovecot_store_resumes(*old(self), arg, *final(self), r),
    {
        let mut step = DovecotStoreStep::Done;
        core::mem::swap(&mut step, &mut self.step);
        match step {
            DovecotStoreStep::Start { path, payload } => match arg {
                None => {
                    let mut files: Vec<(MaildirFsPath, Vec<u8>)> = Vec::new();
                    let ghost pv = path@;
                    let ghost bv = payload@;
                    files.push((path, payload));
                    proof {
                        assert(files_view(files@) =~= seq![(pv, bv)]);
                    }
                    self.step = DovecotStoreStep::Write;
                    MaildirCoroutineState::Yielded(MaildirYield::WantsFileCreate(files))
                },
                arg => MaildirCoroutineState::Complete(Err(MaildirDovecotStoreError::UnexpectedArg(arg))),
            },
            DovecotStoreStep::Write => match arg {
                Some(MaildirReply::FileCreate) => MaildirCoroutineState::Complete(Ok(())),
                arg => MaildirCoroutineState::Complete(Err(MaildirDovecotStoreError::UnexpectedArg(arg))),
            },
            DovecotStoreStep::Done => MaildirCoroutineState::Complete(Err(MaildirDovecotStoreError::UnexpectedArg(arg))),
        }
    }
}

} // verus!

verus! {

/// What the store machine writes, the load machine reads back as the
/// same table: for a table whose letters are slot letters and whose
/// names survive the line format, decoding and parsing the written
/// sidecar gives the table's map.
pub proof fn lemma_store_then_load(v: Seq<(char, Seq<char>)>)
    requires
        forall|i: int| 0 <= i < v.len() ==> 'a' <= #[trigger] v[i].0 && v[i].0 <= 'z',
        forall|i: int| 0 <= i < v.len() ==> crate::dovecot::sidecar_name(#[trigger] v[i].1),
    ensures
        crate::dovecot::parse_spec(crate::dovecot::load::stored_text(encode_utf8(serialize_spec(v))))
            == crate::dovecot::table_map(v),
{
    vstd::utf8::encode_utf8_valid_utf8(serialize_spec(v));
    vstd::utf8::encode_utf8_decode_utf8(serialize_spec(v));
    crate::dovecot::lemma_serialize_then_parse(v);
}

/// Loading after storing gives the stored table back. The store machine
/// for `table`, built for the Maildir at `root`, asks to write the
/// sidecar; a load machine for the same Maildir, told that the sidecar
/// exists and handed the bytes that write put there, completes with a
/// table naming the same slots. The letters must be slot letters and
/// the names must survive the line format, as for
/// [`lemma_store_then_load`].
pub proof fn lemma_load_after_store(
    root: Seq<char>,
    table: Seq<(char, Seq<char>)>,
    s0: MaildirDovecotStore,
    s1: MaildirDovecotStore,
    rs: DovecotStoreOutcome,
    l0: crate::dovecot::load::MaildirDovecotLoad,
    l1: crate::dovecot::load::MaildirDovecotLoad,
    r1: crate::dovecot::load::DovecotLoadOutcome,
    e: Vec<(MaildirFsPath, bool)>,
    l2: crate::dovecot::load::MaildirDovecotLoad,
    r2: crate::dovecot::load::DovecotLoadOutcome,
    m: Vec<(MaildirFsPath, Vec<u8>)>,
    l3: crate::dovecot::load::MaildirDovecotLoad,
    r3: crate::dovecot::load::DovecotLoadOutcome,
)
    requires
        forall|i: int| 0 <= i < table.len() ==> 'a' <= #[trigger] table[i].0 && table[i].0 <= 'z',
        forall|i: int| 0 <= i < table.len() ==> crate::dovecot::sidecar_name(#[trigger] table[i].1),
        s0.step() matches DovecotStoreStep::Start { path, payload } && path@ == sidecar_path(root) && payload@
            == encode_utf8(serialize_spec(table)),
        dovecot_store_resumes(s0, None, s1, rs),
        l0.path_spec() == sidecar_path(root),
        l0.step() is Start,
        crate::dovecot::load::dovecot_load_resumes(l0, None, l1, r1),
        crate::coroutine::probe_spec(e@, sidecar_path(root)),
        crate::dovecot::load::dovecot_load_resumes(l1, Some(MaildirReply::FileExists(e)), l2, r2),
        rs matches MaildirCoroutineState::Yielded(MaildirYield::WantsFileCreate(v)) && crate::coroutine::read_spec(
            m@,
            sidecar_path(root),
        ) == files_view(v@)[0].1,
        crate::dovecot::load::dovecot_load_resumes(l2, Some(MaildirReply::FileRead(m)), l3, r3),
    ensures
        r3 matches MaildirCoroutineState::Complete(Ok(t)) && crate::dovecot::table_map(t@) == crate::dovecot::table_map(
            table,
        ),
{
    lemma_store_then_load(table);
}

/// A Maildir without a sidecar loads an empty table: told that the
/// sidecar does not exist, the load machine completes with no slot.
pub proof fn lemma_missing_sidecar_loads_empty(
    l1: crate::dovecot::load::MaildirDovecotLoad,
    e: Vec<(MaildirFsPath, bool)>,
    l2: crate::dovecot::load::MaildirDovecotLoad,
    r2: crate::dovecot::load::DovecotLoadOutcome,
)
    requires
        l1.step() is Probe,
        !crate::coroutine::probe_spec(e@, l1.path_spec()),
        crate::dovecot::load::dovecot_load_resumes(l1, Some(MaildirReply::FileExists(e)), l2, r2),
    ensures
        r2 matches MaildirCoroutineState::Complete(Ok(t)) && crate::dovecot::table_map(t@) == Map::<
            char,
            Seq<char>,
        >::empty(),
{
    if let MaildirCoroutineState::Complete(Ok(t)) = r2 {
        assert(crate::dovecot::table_map(t@) =~= Map::<char, Seq<char>>::empty());
    }
}

} // verus!
