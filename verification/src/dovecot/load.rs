//! State machine reading the `dovecot-keywords` slot table at the root
//! of a Maildir. A missing file reads as an empty table, and so does a
//! read reply that gives no bytes for it.

use vstd::prelude::*;
use vstd::utf8::{decode_utf8, valid_utf8};

use crate::coroutine::{paths_view, probe, probe_spec, read_has, read_spec, take_read, MaildirCoroutineState, MaildirReply, MaildirYield};
use crate::dovecot::{parse_dovecot_keywords, parse_spec, table_map, table_wf, DovecotKeywords};
use crate::maildir::Maildir;
use crate::path::{join_spec, MaildirFsPath};
use crate::text::decode_text;

verus! {

/// Name of the sidecar file holding the slot table.
pub const FILENAME: &'static str = "dovecot-keywords";

/// The name of the sidecar file, as characters.
pub open spec fn sidecar_file_spec() -> Seq<char> {
    seq!['d', 'o', 'v', 'e', 'c', 'o', 't', '-', 'k', 'e', 'y', 'w', 'o', 'r', 'd', 's']
}

/// The path of the sidecar of the Maildir rooted at `root`.
pub open spec fn sidecar_path(root: Seq<char>) -> Seq<char> {
    join_spec(root, sidecar_file_spec())
}

/// The text stored in `bytes`: their UTF-8 decoding, or nothing when
/// they are not valid UTF-8.
pub open spec fn stored_text(bytes: Seq<u8>) -> Seq<char> {
    if valid_utf8(bytes) {
        decode_utf8(bytes)
    } else {
        Seq::empty()
    }
}

/// Returns `FILENAME` with its characters known.
pub fn sidecar_file() -> (r: &'static str)
    ensures
        r@ == sidecar_file_spec(),
{
    proof {
        reveal_strlit("dovecot-keywords");
    }
    FILENAME
}

/// Failure causes during a [`MaildirDovecotLoad`] step.
#[derive(Debug)]
pub enum MaildirDovecotLoadError {
    /// A reply arrived that does not match the awaited step.
    UnexpectedArg(Option<MaildirReply>),
}

/// Where a [`MaildirDovecotLoad`] stands.
#[derive(Debug)]
pub enum DovecotLoadStep {
    /// Nothing asked yet.
    Start,
    /// Waiting for whether the sidecar exists.
    Probe,
    /// Waiting for the bytes of the sidecar.
    Read,
    /// Finished; any further reply is unexpected.
    Done,
}

/// What one step of [`MaildirDovecotLoad`] gives.
pub type DovecotLoadOutcome = MaildirCoroutineState<MaildirYield, Result<DovecotKeywords, MaildirDovecotLoadError>>;

/// Loads the `dovecot-keywords` slot table of a Maildir.
#[derive(Debug)]
pub struct MaildirDovecotLoad {
    path: MaildirFsPath,
    step: DovecotLoadStep,
}

/// One step of [`MaildirDovecotLoad`] from `pre` on `arg` leads to
/// `post` and gives `r`.
pub open spec fn dovecot_load_resumes(
    pre: MaildirDovecotLoad,
    arg: Option<MaildirReply>,
    post: MaildirDovecotLoad,
    r: DovecotLoadOutcome,
) -> bool {
    let path = pre.path_spec();
    &&& post.path_spec() == path
    &&& match (pre.step(), arg) {
        (DovecotLoadStep::Start, None) => {
            &&& post.step() is Probe
            &&& r matches MaildirCoroutineState::Yielded(MaildirYield::WantsFileExists(v)) && paths_view(v@)
                == seq![path]
        },
        (DovecotLoadStep::Probe, Some(MaildirReply::FileExists(m))) => {
            if probe_spec(m@, path) {
                &&& post.step() is Read
                &&& r matches MaildirCoroutineState::Yielded(MaildirYield::WantsFileRead(v)) && paths_view(v@)
                    == seq![path]
            } else {
                &&& post.step() is Done
                &&& r matches MaildirCoroutineState::Complete(Ok(t)) && t@.len() == 0
            }
        },
        (DovecotLoadStep::Read, Some(MaildirReply::FileRead(m))) => {
            &&& post.step() is Done
            &&& r matches MaildirCoroutineState::Complete(Ok(t)) && table_wf(t@) && table_map(t@) == parse_spec(
                stored_text(read_spec(m@, path)),
            )
        },
        (_, arg) => {
            &&& post.step() is Done
            &&& r == DovecotLoadOutcome::Complete(Err(MaildirDovecotLoadError::UnexpectedArg(arg)))
        },
    }
}

/// The sidecar that the read reply `arg` gives no bytes for, when `l`
/// waits for that read.
pub open spec fn unread_sidecar(l: MaildirDovecotLoad, arg: Option<MaildirReply>) -> Option<Seq<char>> {
    match (l.step(), arg) {
        (DovecotLoadStep::Read, Some(MaildirReply::FileRead(m))) => if read_has(m@, l.path_spec()) {
            None
        } else {
            Some(l.path_spec())
        },
        _ => None,
    }
}

impl MaildirDovecotLoad {
    /// The path of the sidecar read.
    pub closed spec fn path_spec(&self) -> Seq<char> {
        self.path@
    }

    /// Where the machine stands.
    pub closed spec fn step(&self) -> DovecotLoadStep {
        self.step
    }

    /// The path of the sidecar, if the machine waits for its bytes.
    pub fn reading(&self) -> (r: Option<&MaildirFsPath>)
        ensures
            self.step() is Read ==> (r matches Some(p) && p@ == self.path_spec()),
            !(self.step() is Read) ==> r is None,
    {
        match self.step {
            DovecotLoadStep::Read => Some(&self.path),
            _ => None,
        }
    }

    /// Builds a machine loading the slot table of `maildir`.
    pub fn new(maildir: &Maildir) -> (r: Self)
        ensures
            r.path_spec() == sidecar_path(maildir@),
            r.step() is Start,
    {
        MaildirDovecotLoad { path: maildir.path().join(sidecar_file()), step: DovecotLoadStep::Start }
    }

    /// Makes the load progress with the caller's answer `arg`.
    pub fn resume(&mut self, arg: Option<MaildirReply>) -> (r: DovecotLoadOutcome)
        ensures
            dovecot_load_resumes(*old(self), arg, *final(self), r),
    {
        let mut step = DovecotLoadStep::Done;
        core::mem::swap(&mut step, &mut self.step);
        match step {
            DovecotLoadStep::Start => match arg {
                None => {
                    let mut paths: Vec<MaildirFsPath> = Vec::new();
                    paths.push(self.path.clone());
                    proof {
                        assert(paths_view(paths@) =~= seq![self.path@]);
                    }
                    self.step = DovecotLoadStep::Probe;
                    MaildirCoroutineState::Yielded(MaildirYield::WantsFileExists(paths))
                },
                arg => MaildirCoroutineState::Complete(Err(MaildirDovecotLoadError::UnexpectedArg(arg))),
            },
            DovecotLoadStep::Probe => match arg {
                Some(MaildirReply::FileExists(m)) => {
                    if !probe(&m, &self.path) {
                        MaildirCoroutineState::Complete(Ok(DovecotKeywords::new()))
                    } else {
                        let mut paths: Vec<MaildirFsPath> = Vec::new();
                        paths.push(self.path.clone());
                        proof {
                            assert(paths_view(paths@) =~= seq![self.path@]);
                        }
                        self.step = DovecotLoadStep::Read;
                        MaildirCoroutineState::Yielded(MaildirYield::WantsFileRead(paths))
                    }
                },
                arg => MaildirCoroutineState::Complete(Err(MaildirDovecotLoadError::UnexpectedArg(arg))),
            },
            DovecotLoadStep::Read => match arg {
                Some(MaildirReply::FileRead(m)) => {
                    let bytes = take_read(m, &self.path);
                    let table = match decode_text(bytes.as_slice()) {
                        Some(text) => parse_dovecot_keywords(text),
                        None => parse_dovecot_keywords(""),
                    };
                    proof {
                        reveal_strlit("");
                    }
                    MaildirCoroutineState::Complete(Ok(table))
                },
                arg => MaildirCoroutineState::Complete(Err(MaildirDovecotLoadError::UnexpectedArg(arg))),
            },
            DovecotLoadStep::Done => MaildirCoroutineState::Complete(Err(MaildirDovecotLoadError::UnexpectedArg(arg))),
        }
    }
}

} // verus!
