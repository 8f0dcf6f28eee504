//! The logging policy: levels, per-module overrides, and the decision
//! whether one record is emitted.
//!
//! Only the policy lives here; the embedding program formats and prints the
//! records it is told to emit.

use vstd::prelude::*;

use crate::config::LogLevel;

verus! {

/// One per-module override: records whose target starts with `name` use
/// `level` instead of the default.
#[derive(Debug)]
pub struct ModuleLevel {
    pub name: String,
    pub level: LogLevel,
}

/// The logging policy of the server.
#[derive(Debug)]
pub struct Logger {
    /// The level used where no override matches.
    pub default_level: LogLevel,
    /// The overrides, first match wins.
    pub module_levels: Vec<ModuleLevel>,
    /// Whether thread names are included in the output.
    pub threads: bool,
    /// Whether records go to stderr rather than stdout.
    pub stderr: bool,
    /// Whether metric records are emitted at all.
    pub metrics: bool,
}

/// The override that applies to a target, searching from index `i` on.
pub open spec fn first_match_from(levels: Seq<ModuleLevel>, target: Seq<char>, i: int) -> Option<
    LogLevel,
>
    decreases levels.len() - i,
{
    if i < 0 || i >= levels.len() {
        None
    } else if crate::names::is_prefix(levels[i].name@, target) {
        Some(levels[i].level)
    } else {
        first_match_from(levels, target, i + 1)
    }
}

impl Logger {
    /// The level that applies to a target: the first matching override,
    /// else the default.
    pub open spec fn spec_level_for(self, target: Seq<char>) -> LogLevel {
        match first_match_from(self.module_levels@, target, 0) {
            Some(l) => l,
            None => self.default_level,
        }
    }

    /// Whether a record of the given level and target is emitted.
    pub open spec fn spec_enabled(self, level: LogLevel, target: Seq<char>) -> bool {
        level.spec_rank() <= self.spec_level_for(target).spec_rank() && (self.metrics || target
            != "metrics"@)
    }

    /// The policy the server starts from: everything at `Trace`, metrics
    /// on, thread names off, output to stdout.
    pub fn new() -> (r: Logger)
        ensures
            r.default_level == LogLevel::Trace,
            r.module_levels@ == Seq::<ModuleLevel>::empty(),
            r.threads == false,
            r.stderr == false,
            r.metrics == true,
    {
        Logger {
            default_level: LogLevel::Trace,
            module_levels: Vec::new(),
            threads: false,
            stderr: false,
            metrics: true,
        }
    }

    /// The policy with another default level.
    pub fn with_level(self, level: LogLevel) -> (r: Logger)
        ensures
            r.default_level == level,
            r.module_levels@ == self.module_levels@,
            r.threads == self.threads,
            r.stderr == self.stderr,
            r.metrics == self.metrics,
    {
        Logger { default_level: level, ..self }
    }

    /// The policy with metric records switched on or off.
    pub fn with_metrics(self, metrics: bool) -> (r: Logger)
        ensures
            r.metrics == metrics,
            r.default_level == self.default_level,
            r.module_levels@ == self.module_levels@,
            r.threads == self.threads,
            r.stderr == self.stderr,
    {
        Logger { metrics, ..self }
    }

    /// The policy with thread names switched on or off.
    pub fn with_thread(self, threads: bool) -> (r: Logger)
        ensures
            r.threads == threads,
            r.default_level == self.default_level,
            r.module_levels@ == self.module_levels@,
            r.stderr == self.stderr,
            r.metrics == self.metrics,
    {
        Logger { threads, ..self }
    }

    /// The policy with the output stream switched.
    pub fn with_stderr(self, stderr: bool) -> (r: Logger)
        ensures
            r.stderr == stderr,
            r.default_level == self.default_level,
            r.module_levels@ == self.module_levels@,
            r.threads == self.threads,
            r.metrics == self.metrics,
    {
        Logger { stderr, ..self }
    }

    /// The most verbose level any record can be emitted at: the maximum of
    /// the default and every override.
    pub fn max_level(&self) -> (r: LogLevel)
        ensures
            r.spec_rank() >= self.default_level.spec_rank(),
            forall|i: int|
                0 <= i < self.module_levels@.len() ==> (#[trigger] self.module_levels@[i]).level.spec_rank()
                    <= r.spec_rank(),
            r == self.default_level || (exists|i: int|
                0 <= i < self.module_levels@.len() && (#[trigger] self.module_levels@[i]).level
                    == r),
    {
        let mut best = self.default_level;
        let mut i: usize = 0;
        while i < self.module_levels.len()
            invariant
                0 <= i <= self.module_levels@.len(),
                best.spec_rank() >= self.default_level.spec_rank(),
                forall|j: int|
                    0 <= j < i ==> (#[trigger] self.module_levels@[j]).level.spec_rank()
                        <= best.spec_rank(),
                best == self.default_level || (exists|j: int|
                    0 <= j < self.module_levels@.len() && (#[trigger] self.module_levels@[j]).level
                        == best),
            decreases self.module_levels@.len() - i,
        {
            let l = self.module_levels[i].level;
            if l.rank() > best.rank() {
                best = l;
            }
            i += 1;
        }
        best
    }

    /// Whether a record of the given level and target is emitted under
    /// this policy.
    pub fn enabled(&self, level: LogLevel, target: &str) -> (r: bool)
        ensures
            r == self.spec_enabled(level, target@),
    {
        let mut i: usize = 0;
        let mut effective = self.default_level;
        let mut matched = false;
        while i < self.module_levels.len()
            invariant
                0 <= i <= self.module_levels@.len(),
                !matched ==> first_match_from(self.module_levels@, target@, 0) == first_match_from(
                    self.module_levels@,
                    target@,
                    i as int,
                ),
                !matched ==> effective == self.default_level,
                matched ==> first_match_from(self.module_levels@, target@, 0) == Some(effective),
            decreases self.module_levels@.len() - i,
        {
            if !matched {
                if crate::names::str_starts_with(target, self.module_levels[i].name.as_str()) {
                    effective = self.module_levels[i].level;
                    matched = true;
                }
            }
            i += 1;
        }
        let level_ok = level.rank() <= effective.rank();
        let target_is_metrics = crate::names::str_eq(target, "metrics");
        level_ok && (self.metrics || !target_is_metrics)
    }
}

} // verus!
