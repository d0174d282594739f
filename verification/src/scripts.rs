//! The admin scripts that can be run on an HDRI: their kinds, their results, and what a
//! request for them queues.
//!
//! Times are milliseconds on a monotonic clock.
use vstd::prelude::*;
use crate::asset::RowKey;

verus! {

#[derive(Debug, Clone, Copy, PartialEq, Eq, Hash, Structural)]
pub enum ScriptKind {
    Normalize,
    Render,
}

impl ScriptKind {
    pub fn label(self) -> (r: &'static str)
        ensures
            r@ == (if self == ScriptKind::Normalize { "Normalize"@ } else { "Render"@ }),
    {
        match self {
            ScriptKind::Normalize => "Normalize",
            ScriptKind::Render => "Render",
        }
    }

    pub fn success_label(self) -> (r: &'static str)
        ensures
            r@ == (if self == ScriptKind::Normalize { "Normalized"@ } else { "Rendered"@ }),
    {
        match self {
            ScriptKind::Normalize => "Normalized",
            ScriptKind::Render => "Rendered",
        }
    }

    pub fn failed_label(self) -> (r: &'static str)
        ensures
            r@ == (if self == ScriptKind::Normalize {
                "Normalize failed"@
            } else {
                "Render failed"@
            }),
    {
        match self {
            ScriptKind::Normalize => "Normalize failed",
            ScriptKind::Render => "Render failed",
        }
    }
}

/// One script of one asset row.
#[derive(Debug, Clone, PartialEq, Eq, Hash)]
pub struct ScriptKey {
    pub row: RowKey,
    pub kind: ScriptKind,
}

#[derive(Debug, Clone, Copy, PartialEq, Eq, Structural)]
pub enum ScriptRunStatus {
    Succeeded,
    Failed,
    /// Not run, because a script it depends on failed.
    Blocked,
}

/// How a script run ended.
#[derive(Debug, Clone)]
pub struct ScriptRun {
    pub kind: ScriptKind,
    pub status: ScriptRunStatus,
    pub output: String,
    pub started_at: u64,
    pub finished_at: u64,
}

impl ScriptRun {
    pub fn succeeded(kind: ScriptKind, output: String, started_at: u64, finished_at: u64) -> (r: ScriptRun)
        ensures
            r.kind == kind && r.status == ScriptRunStatus::Succeeded && r.output@ == output@
                && r.started_at == started_at && r.finished_at == finished_at,
    {
        ScriptRun { kind, status: ScriptRunStatus::Succeeded, output, started_at, finished_at }
    }

    pub fn failed(kind: ScriptKind, output: String, started_at: u64, finished_at: u64) -> (r: ScriptRun)
        ensures
            r.kind == kind && r.status == ScriptRunStatus::Failed && r.output@ == output@
                && r.started_at == started_at && r.finished_at == finished_at,
    {
        ScriptRun { kind, status: ScriptRunStatus::Failed, output, started_at, finished_at }
    }

    /// A run that never started: it starts and ends at `now`.
    pub fn blocked(kind: ScriptKind, output: String, now: u64) -> (r: ScriptRun)
        ensures
            r.kind == kind && r.status == ScriptRunStatus::Blocked && r.output@ == output@
                && r.started_at == now && r.finished_at == now,
    {
        ScriptRun { kind, status: ScriptRunStatus::Blocked, output, started_at: now, finished_at: now }
    }

    pub fn succeeded_flag(&self) -> (r: bool)
        ensures
            r == (self.status == ScriptRunStatus::Succeeded),
    {
        match self.status {
            ScriptRunStatus::Succeeded => true,
            _ => false,
        }
    }
}

/// What the row's script menu offers.
#[derive(Debug, Clone, Copy, PartialEq, Eq, Structural)]
pub enum ScriptAction {
    Normalize,
    Render,
    NormalizeAndRender,
}

pub open spec fn action_kinds(a: ScriptAction) -> Seq<ScriptKind> {
    match a {
        ScriptAction::Normalize => seq![ScriptKind::Normalize],
        ScriptAction::Render => seq![ScriptKind::Render],
        ScriptAction::NormalizeAndRender => seq![ScriptKind::Normalize, ScriptKind::Render],
    }
}

impl ScriptAction {
    /// The scripts the action runs, in order: each after the one before it succeeded.
    pub fn kinds(self) -> (r: Vec<ScriptKind>)
        ensures
            r@ == action_kinds(self),
    {
        let mut v: Vec<ScriptKind> = Vec::new();
        match self {
            ScriptAction::Normalize => v.push(ScriptKind::Normalize),
            ScriptAction::Render => v.push(ScriptKind::Render),
            ScriptAction::NormalizeAndRender => {
                v.push(ScriptKind::Normalize);
                v.push(ScriptKind::Render);
            },
        }
        assert(v@ =~= action_kinds(self));
        v
    }
}

/// What the script output dialog shows about a script.
#[derive(Debug, Clone, Copy, PartialEq, Eq, Structural)]
pub enum DialogState {
    Running(ScriptKind),
    /// Succeeded, taking this many whole seconds.
    Succeeded(ScriptKind, u64),
    Failed(ScriptKind),
    Blocked(ScriptKind),
}

impl DialogState {
    pub fn kind(&self) -> (r: ScriptKind)
        ensures
            r == match *self {
                DialogState::Running(k) => k,
                DialogState::Succeeded(k, _) => k,
                DialogState::Failed(k) => k,
                DialogState::Blocked(k) => k,
            },
    {
        match *self {
            DialogState::Running(kind) | DialogState::Succeeded(kind, _) | DialogState::Failed(kind)
            | DialogState::Blocked(kind) => kind,
        }
    }
}

/// How long a script ran, as the output dialog shows it.
pub fn format_duration(secs: u64) -> (r: String)
    ensures
        r@ == crate::status_text::duration_text(secs as nat),
{
    crate::status_text::fmt_duration(secs)
}

} // verus!
