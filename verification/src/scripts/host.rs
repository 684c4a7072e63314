//! The run of a script on one host, as a state machine: connect, run the
//! steps in order (unless aborted), drain the last command's exit code when
//! the recipe needs it, then close. The caller does the I/O each answer asks
//! for and hands back what came of it; every error shown is redacted with
//! the secrets sent so far.
use vstd::prelude::*;
use crate::scripts::runner::{drain_from, needs_final_drain, phase_of, step_phase};
use crate::scripts::types::Step;
use crate::subst::redact::{redact_secrets, redact_spec, values_view};

verus! {

/// A progress report: phase, step index and number of steps.
#[derive(Debug, Clone, PartialEq, Eq)]
pub struct Progress {
    pub phase: &'static str,
    pub step_index: u32,
    pub total_steps: u32,
}

/// What the caller does next.
#[derive(Debug, Clone, PartialEq, Eq)]
pub enum HostNext {
    /// Ask [`HostRun::next_step`] what comes next.
    Continue,
    /// Run step `i`, then report with [`HostRun::on_step`].
    Execute(usize),
    /// Print the end marker and read the last exit code, then report with
    /// [`HostRun::on_drain`].
    Drain,
    /// Close the channel and the connection. When `ok`, the host is done
    /// with exit code `exit`; else it failed (the error was reported).
    Close { ok: bool, exit: Option<i32> },
    /// Nothing to close (the connection never opened): the host failed.
    Finish,
}

/// One answer of the machine: what to report, then what to do.
#[derive(Debug, Clone, PartialEq, Eq)]
pub struct HostStep {
    pub progress: Option<Progress>,
    /// An error to report, redacted, with the step it happened at.
    pub error: Option<(String, Option<u32>)>,
    pub next: HostNext,
}

/// How a step ended.
#[derive(Debug, Clone, Copy, PartialEq, Eq, Structural)]
pub enum StepFlow {
    /// Go on with the next step.
    Continue,
    /// The step closed the connection: no more steps.
    Disconnected,
}

/// Where the run of a host stands.
#[derive(Debug, Clone, Copy, PartialEq, Eq, Structural)]
pub enum HostStage {
    Connecting,
    Stepping,
    Draining,
    Closed,
}

/// The run of a script on a host.
pub struct HostRun {
    steps: Vec<Step>,
    total: u32,
    next: usize,
    stage: HostStage,
    last_exit: Option<i32>,
}

pub open spec fn msg_aborted() -> Seq<char> {
    "Ejecución cancelada"@
}

impl HostRun {
    pub closed spec fn steps_spec(&self) -> Seq<Step> {
        self.steps@
    }

    pub closed spec fn next_spec(&self) -> nat {
        self.next as nat
    }

    pub closed spec fn stage_spec(&self) -> HostStage {
        self.stage
    }

    pub closed spec fn last_exit_spec(&self) -> Option<i32> {
        self.last_exit
    }

    pub closed spec fn total_spec(&self) -> u32 {
        self.total
    }

    /// The machine's own consistency.
    pub open spec fn wf(&self) -> bool {
        &&& self.next_spec() <= self.steps_spec().len()
        &&& self.total_spec() == self.steps_spec().len()
    }

    /// A run of `steps`, about to connect.
    pub fn new(steps: Vec<Step>) -> (r: Self)
        requires
            steps@.len() <= u32::MAX,
        ensures
            r.wf(),
            r.steps_spec() == steps@,
            r.next_spec() == 0,
            r.stage_spec() == HostStage::Connecting,
            r.last_exit_spec() is None,
    {
        let total = steps.len() as u32;
        HostRun { steps, total, next: 0, stage: HostStage::Connecting, last_exit: None }
    }

    /// The exit code captured last (by a `waitPrompt` or the final drain).
    pub fn last_exit(&self) -> (r: Option<i32>)
        ensures
            r == self.last_exit_spec(),
    {
        self.last_exit
    }

    /// Where the run stands.
    pub fn stage(&self) -> (r: HostStage)
        ensures
            r == self.stage_spec(),
    {
        self.stage
    }

    fn progress(&self, phase: &'static str, step_index: u32) -> (r: Progress)
        ensures
            r.phase == phase && r.step_index == step_index && r.total_steps == self.total_spec(),
    {
        Progress { phase, step_index, total_steps: self.total }
    }

    /// The report before connecting.
    pub fn start(&self) -> (r: Progress)
        ensures
            r.phase@ == "connecting"@ && r.step_index == 0 && r.total_steps == self.total_spec(),
    {
        self.progress("connecting", 0)
    }

    /// The connection was tried: on failure the host fails (nothing to
    /// close); else the steps begin.
    pub fn on_connect(&mut self, result: Result<(), String>, secrets: &[String]) -> (r: HostStep)
        requires
            old(self).wf(),
            old(self).stage_spec() == HostStage::Connecting,
        ensures
            final(self).wf(),
            final(self).steps_spec() == old(self).steps_spec(),
            final(self).next_spec() == old(self).next_spec(),
            final(self).last_exit_spec() == old(self).last_exit_spec(),
            match result {
                Ok(()) => {
                    &&& final(self).stage_spec() == HostStage::Stepping
                    &&& r.error is None
                    &&& r.next == HostNext::Continue
                    &&& r.progress matches Some(p) && p.phase@ == "connected"@ && p.step_index == 0
                        && p.total_steps == old(self).total_spec()
                },
                Err(e) => {
                    &&& final(self).stage_spec() == HostStage::Closed
                    &&& r.progress is None
                    &&& r.next == HostNext::Finish
                    &&& r.error matches Some((m, None)) && m@ == redact_spec(e@, values_view(secrets@))
                },
            },
    {
        match result {
            Ok(()) => {
                self.stage = HostStage::Stepping;
                HostStep { progress: Some(self.progress("connected", 0)), error: None, next: HostNext::Continue }
            },
            Err(e) => {
                self.stage = HostStage::Closed;
                HostStep {
                    progress: None,
                    error: Some((redact_secrets(e.as_str(), secrets), None)),
                    next: HostNext::Finish,
                }
            },
        }
    }

    /// What comes next while stepping: the next step (unless the run or the
    /// host was aborted), or, after the last one, the final drain when the
    /// recipe needs it, else closing.
    pub fn next_step(&mut self, canceled: bool) -> (r: HostStep)
        requires
            old(self).wf(),
            old(self).stage_spec() == HostStage::Stepping,
        ensures
            final(self).wf(),
            final(self).steps_spec() == old(self).steps_spec(),
            final(self).next_spec() == old(self).next_spec(),
            final(self).last_exit_spec() == old(self).last_exit_spec(),
            ({
                let i = old(self).next_spec();
                let steps = old(self).steps_spec();
                if i < steps.len() {
                    if canceled {
                        &&& final(self).stage_spec() == HostStage::Closed
                        &&& r.progress is None
                        &&& r.error matches Some((m, Some(k))) && m@ == msg_aborted() && k == i
                        &&& r.next == (HostNext::Close { ok: false, exit: old(self).last_exit_spec() })
                    } else {
                        &&& final(self).stage_spec() == HostStage::Stepping
                        &&& r.error is None
                        &&& r.progress matches Some(p) && p.phase@ == phase_of(steps[i as int]) && p.step_index
                            == i && p.total_steps == old(self).total_spec()
                        &&& r.next == HostNext::Execute(i as usize)
                    }
                } else if drain_from(steps, 0, false) {
                    &&& final(self).stage_spec() == HostStage::Draining
                    &&& r.error is None
                    &&& r.progress matches Some(p) && p.phase@ == "draining"@ && p.step_index == (if old(
                        self,
                    ).total_spec() == 0 {
                        0
                    } else {
                        old(self).total_spec() - 1
                    }) && p.total_steps == old(self).total_spec()
                    &&& r.next == HostNext::Drain
                } else {
                    &&& final(self).stage_spec() == HostStage::Closed
                    &&& r.error is None && r.progress is None
                    &&& r.next == (HostNext::Close { ok: true, exit: old(self).last_exit_spec() })
                }
            }),
    {
        if self.next < self.steps.len() {
            let i = self.next;
            if canceled {
                self.stage = HostStage::Closed;
                let mut m = String::new();
                crate::text::push_str(&mut m, "Ejecución cancelada");
                return HostStep {
                    progress: None,
                    error: Some((m, Some(i as u32))),
                    next: HostNext::Close { ok: false, exit: self.last_exit },
                };
            }
            let phase = step_phase(&self.steps[i]);
            return HostStep { progress: Some(self.progress(phase, i as u32)), error: None, next: HostNext::Execute(i) };
        }
        if needs_final_drain(self.steps.as_slice()) {
            self.stage = HostStage::Draining;
            let idx = if self.total == 0 {
                0
            } else {
                self.total - 1
            };
            return HostStep { progress: Some(self.progress("draining", idx)), error: None, next: HostNext::Drain };
        }
        self.stage = HostStage::Closed;
        HostStep { progress: None, error: None, next: HostNext::Close { ok: true, exit: self.last_exit } }
    }

    /// A step ended: with `Continue` the next one follows (`exit` is the
    /// code it captured, if any); a disconnection ends the steps; an error
    /// fails the host at that step.
    pub fn on_step(&mut self, result: Result<(StepFlow, Option<i32>), String>, secrets: &[String]) -> (r: HostStep)
        requires
            old(self).wf(),
            old(self).stage_spec() == HostStage::Stepping,
            old(self).next_spec() < old(self).steps_spec().len(),
        ensures
            final(self).wf(),
            final(self).steps_spec() == old(self).steps_spec(),
            r.progress is None,
            match result {
                Ok((flow, exit)) => {
                    &&& final(self).stage_spec() == HostStage::Stepping
                    &&& r.error is None && r.next == HostNext::Continue
                    &&& final(self).last_exit_spec() == (if exit is Some {
                        exit
                    } else {
                        old(self).last_exit_spec()
                    })
                    &&& final(self).next_spec() == (if flow == StepFlow::Continue {
                        old(self).next_spec() + 1
                    } else {
                        old(self).steps_spec().len()
                    })
                },
                Err(e) => {
                    &&& final(self).stage_spec() == HostStage::Closed
                    &&& final(self).next_spec() == old(self).next_spec()
                    &&& final(self).last_exit_spec() == old(self).last_exit_spec()
                    &&& r.error matches Some((m, Some(k))) && m@ == redact_spec(e@, values_view(secrets@)) && k
                        == old(self).next_spec()
                    &&& r.next == (HostNext::Close { ok: false, exit: old(self).last_exit_spec() })
                },
            },
    {
        match result {
            Ok((flow, exit)) => {
                if exit.is_some() {
                    self.last_exit = exit;
                }
                match flow {
                    StepFlow::Continue => {
                        self.next = self.next + 1;
                    },
                    StepFlow::Disconnected => {
                        self.next = self.steps.len();
                    },
                }
                HostStep { progress: None, error: None, next: HostNext::Continue }
            },
            Err(e) => {
                self.stage = HostStage::Closed;
                let i = self.next as u32;
                HostStep {
                    progress: None,
                    error: Some((redact_secrets(e.as_str(), secrets), Some(i))),
                    next: HostNext::Close { ok: false, exit: self.last_exit },
                }
            },
        }
    }

    /// The final drain ended: its code (when it read one) becomes the last
    /// exit code and the host is done; an error fails the host.
    pub fn on_drain(&mut self, result: Result<Option<i32>, String>, secrets: &[String]) -> (r: HostStep)
        requires
            old(self).wf(),
            old(self).stage_spec() == HostStage::Draining,
        ensures
            final(self).wf(),
            final(self).steps_spec() == old(self).steps_spec(),
            final(self).next_spec() == old(self).next_spec(),
            final(self).stage_spec() == HostStage::Closed,
            r.progress is None,
            match result {
                Ok(code) => {
                    &&& final(self).last_exit_spec() == (if code is Some {
                        code
                    } else {
                        old(self).last_exit_spec()
                    })
                    &&& r.error is None
                    &&& r.next == (HostNext::Close { ok: true, exit: final(self).last_exit_spec() })
                },
                Err(e) => {
                    &&& final(self).last_exit_spec() == old(self).last_exit_spec()
                    &&& r.error matches Some((m, None)) && m@ == redact_spec(e@, values_view(secrets@))
                    &&& r.next == (HostNext::Close { ok: false, exit: old(self).last_exit_spec() })
                },
            },
    {
        self.stage = HostStage::Closed;
        match result {
            Ok(code) => {
                if code.is_some() {
                    self.last_exit = code;
                }
                HostStep { progress: None, error: None, next: HostNext::Close { ok: true, exit: self.last_exit } }
            },
            Err(e) => HostStep {
                progress: None,
                error: Some((redact_secrets(e.as_str(), secrets), None)),
                next: HostNext::Close { ok: false, exit: self.last_exit },
            },
        }
    }

    /// The report of a host that ended well.
    pub fn done(&self) -> (r: Progress)
        ensures
            r.phase@ == "done"@ && r.step_index == self.total_spec() && r.total_steps == self.total_spec(),
    {
        self.progress("done", self.total)
    }
}

} // verus!
