//! Readiness: telling "the process exists" apart from "the thing is serving".
//!
//! Readiness is judged from data already collected: the ports the process
//! tree listens on and the retained log text. Nothing here performs I/O.
use vstd::prelude::*;

use crate::manifest::HealthProbe;
use crate::text::{contains_seq, str_contains, str_lowercase, to_lowercase};

verus! {

/// The verdict for one project at one instant.
#[derive(Debug, Clone, Copy, PartialEq, Eq, Structural)]
pub enum Readiness {
    /// Confirmed serving: the declared signal was observed.
    Ready,
    /// Expected to become ready but has not yet; still starting.
    Waiting,
    /// Nothing to check. Not a problem, and never shown as a failure.
    Unknown,
}

impl Readiness {
    /// The value for the `healthy` field of a running state: `Unknown` says
    /// nothing rather than claiming a health nobody verified.
    pub fn as_healthy(self) -> (r: Option<bool>)
        ensures
            r == match self {
                Readiness::Ready => Some(true),
                Readiness::Waiting => Some(false),
                Readiness::Unknown => None::<bool>,
            },
    {
        match self {
            Readiness::Ready => Some(true),
            Readiness::Waiting => Some(false),
            Readiness::Unknown => None,
        }
    }
}

/// The readiness a probe, the declared ports, the listening ports and the log
/// text give.
///
/// A log probe looks for its text in the log, ignoring case, and ignores
/// ports. Otherwise a process tree listening on any port is serving (declared
/// ports are guesses); with nothing bound it is still starting if ports were
/// declared, and there is nothing to judge if none were.
pub open spec fn readiness_spec(
    probe: Option<HealthProbe>,
    declared: Seq<u16>,
    listening: Seq<u16>,
    log: Seq<char>,
) -> Readiness {
    match probe {
        Some(HealthProbe::LogContains { text }) => {
            if contains_seq(str_lowercase(log), str_lowercase(text@)) {
                Readiness::Ready
            } else {
                Readiness::Waiting
            }
        },
        _ => {
            if listening.len() > 0 {
                Readiness::Ready
            } else if declared.len() > 0 {
                Readiness::Waiting
            } else {
                Readiness::Unknown
            }
        },
    }
}

/// Whether `v` holds `x`.
fn holds_port(v: &[u16], x: u16) -> (r: bool)
    ensures
        r == v@.contains(x),
{
    let mut i: usize = 0;
    while i < v.len()
        invariant
            i <= v.len(),
            forall|k: int| 0 <= k < i ==> v@[k] != x,
        decreases v.len() - i,
    {
        if v[i] == x {
            return true;
        }
        i += 1;
    }
    false
}

/// Evaluates readiness from data already collected.
pub fn evaluate(
    probe: Option<&HealthProbe>,
    declared_ports: &[u16],
    listening: &[u16],
    log_text: &str,
) -> (r: Readiness)
    ensures
        r == readiness_spec(
            match probe {
                Some(p) => Some(*p),
                None => None,
            },
            declared_ports@,
            listening@,
            log_text@,
        ),
{
    match probe {
        Some(HealthProbe::LogContains { text }) => {
            let log = to_lowercase(log_text);
            let wanted = to_lowercase(text.as_str());
            if str_contains(log.as_str(), wanted.as_str()) {
                Readiness::Ready
            } else {
                Readiness::Waiting
            }
        },
        _ => {
            if declared_ports.len() == 0 {
                return if listening.len() == 0 {
                    Readiness::Unknown
                } else {
                    Readiness::Ready
                };
            }
            let mut any_declared_bound = false;
            let mut i: usize = 0;
            while i < declared_ports.len()
                invariant
                    i <= declared_ports.len(),
                    any_declared_bound ==> listening@.len() > 0,
                decreases declared_ports.len() - i,
            {
                if holds_port(listening, declared_ports[i]) {
                    any_declared_bound = true;
                }
                i += 1;
            }
            if any_declared_bound {
                Readiness::Ready
            } else if listening.len() == 0 {
                Readiness::Waiting
            } else {
                Readiness::Ready
            }
        },
    }
}

} // verus!
