//! State machine gathering what a fresh Maildir unique name is made of
//! (clock, delivery counter, process id, host name) and minting it.

use vstd::prelude::*;

use crate::coroutine::{MaildirCoroutineState, MaildirReply, MaildirYield};
use crate::entry::{mint_id, mint_id_spec};

verus! {

/// Where a [`MaildirIdMint`] stands.
#[derive(Debug)]
pub enum MintStep {
    /// Nothing asked yet.
    Start,
    /// Waiting for the clock and the delivery counter.
    Time,
    /// Waiting for the process id.
    Pid { secs: u64, nanos: u32, counter: u32 },
    /// Waiting for the host name.
    Hostname { secs: u64, nanos: u32, counter: u32, pid: u32 },
    /// Finished; any further reply is unexpected.
    Done,
}

/// What one step of [`MaildirIdMint`] gives: the minted name, or the
/// reply that did not fit.
pub type MintOutcome = MaildirCoroutineState<MaildirYield, Result<String, Option<MaildirReply>>>;

/// Asks for the clock, the process id and the host name, in that
/// order, and mints the unique name
/// `{secs}.#{counter:x}M{nanos}P{pid}.{hostname}`.
#[derive(Debug)]
pub struct MaildirIdMint {
    step: MintStep,
}

/// One step of [`MaildirIdMint`] from `pre` on `arg` leads to `post`
/// and gives `r`.
pub open spec fn mint_resumes(pre: MaildirIdMint, arg: Option<MaildirReply>, post: MaildirIdMint, r: MintOutcome) -> bool {
    match (pre.step(), arg) {
        (MintStep::Start, None) => {
            &&& post.step() is Time
            &&& r == MintOutcome::Yielded(MaildirYield::WantsTime)
        },
        (MintStep::Time, Some(MaildirReply::Time { secs, nanos, counter })) => {
            &&& post.step() == MintStep::Pid { secs, nanos, counter }
            &&& r == MintOutcome::Yielded(MaildirYield::WantsPid)
        },
        (MintStep::Pid { secs, nanos, counter }, Some(MaildirReply::Pid(pid))) => {
            &&& post.step() == MintStep::Hostname { secs, nanos, counter, pid }
            &&& r == MintOutcome::Yielded(MaildirYield::WantsHostname)
        },
        (MintStep::Hostname { secs, nanos, counter, pid }, Some(MaildirReply::Hostname(host))) => {
            &&& post.step() is Done
            &&& r matches MaildirCoroutineState::Complete(Ok(id)) && id@ == mint_id_spec(
                secs,
                nanos,
                counter,
                pid,
                host@,
            )
        },
        (_, arg) => {
            &&& post.step() is Done
            &&& r == MintOutcome::Complete(Err(arg))
        },
    }
}

impl MaildirIdMint {
    /// Where the machine stands.
    pub closed spec fn step(&self) -> MintStep {
        self.step
    }

    /// Builds a machine that has asked nothing yet.
    pub fn new() -> (r: Self)
        ensures
            r.step() is Start,
    {
        MaildirIdMint { step: MintStep::Start }
    }

    /// Builds a machine that has just asked for the clock.
    pub fn asked_time() -> (r: Self)
        ensures
            r.step() is Time,
    {
        MaildirIdMint { step: MintStep::Time }
    }

    /// Makes the minting progress with the caller's answer `arg`.
    pub fn resume(&mut self, arg: Option<MaildirReply>) -> (r: MintOutcome)
        ensures
            mint_resumes(*old(self), arg, *final(self), r),
    {
        let mut step = MintStep::Done;
        core::mem::swap(&mut step, &mut self.step);
        match step {
            MintStep::Start => match arg {
                None => {
                    self.step = MintStep::Time;
                    MaildirCoroutineState::Yielded(MaildirYield::WantsTime)
                },
                arg => MaildirCoroutineState::Complete(Err(arg)),
            },
            MintStep::Time => match arg {
                Some(MaildirReply::Time { secs, nanos, counter }) => {
                    self.step = MintStep::Pid { secs, nanos, counter };
                    MaildirCoroutineState::Yielded(MaildirYield::WantsPid)
                },
                arg => MaildirCoroutineState::Complete(Err(arg)),
            },
            MintStep::Pid { secs, nanos, counter } => match arg {
                Some(MaildirReply::Pid(pid)) => {
                    self.step = MintStep::Hostname { secs, nanos, counter, pid };
                    MaildirCoroutineState::Yielded(MaildirYield::WantsHostname)
                },
                arg => MaildirCoroutineState::Complete(Err(arg)),
            },
            MintStep::Hostname { secs, nanos, counter, pid } => match arg {
                Some(MaildirReply::Hostname(host)) => {
                    MaildirCoroutineState::Complete(Ok(mint_id(secs, nanos, counter, pid, host.as_str())))
                },
                arg => MaildirCoroutineState::Complete(Err(arg)),
            },
            MintStep::Done => MaildirCoroutineState::Complete(Err(arg)),
        }
    }
}

} // verus!
