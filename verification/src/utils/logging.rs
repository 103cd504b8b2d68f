//! Records of what an analysis did and how far a long operation has come.
//! Writing them out is left to the caller.

use crate::text::{decimal, decimal_string};
use vstd::prelude::*;
use vstd::string::StringExecFns;

verus! {

/// How grave a record is.
#[derive(Debug, Clone, Copy, PartialEq, Eq, Structural)]
pub enum LogLevel {
    Error,
    Warn,
    Info,
}

/// The level of a record that counts `errors` errors and `warnings`
/// warnings: an error where it counts errors, a warning where it counts
/// warnings and no error, else information.
pub open spec fn level_of(errors: usize, warnings: usize) -> LogLevel {
    if errors > 0 {
        LogLevel::Error
    } else if warnings > 0 {
        LogLevel::Warn
    } else {
        LogLevel::Info
    }
}

/// The line that reports the record, `duration` being its duration as it
/// is to be written.
pub open spec fn message_of(l: AnalysisLog, duration: Seq<char>) -> Seq<char> {
    let head = l.operation@ + " completed for "@ + l.file@ + " in "@ + duration + " - "@
        + decimal(l.symbols_found as nat);
    match level_of(l.errors, l.warnings) {
        LogLevel::Error => head + " symbols, "@ + decimal(l.errors as nat) + " errors, "@
            + decimal(l.warnings as nat) + " warnings"@,
        LogLevel::Warn => head + " symbols, "@ + decimal(l.warnings as nat) + " warnings"@,
        LogLevel::Info => head + " symbols processed"@,
    }
}

/// What one operation on one file did. The duration is in nanoseconds.
#[derive(Debug, Clone, PartialEq)]
pub struct AnalysisLog {
    pub operation: String,
    pub file: String,
    pub duration: u128,
    pub symbols_found: usize,
    pub errors: usize,
    pub warnings: usize,
}

impl AnalysisLog {
    /// A record of `operation` on `file` with nothing counted yet.
    pub fn new(operation: &str, file: &str) -> (r: AnalysisLog)
        ensures
            r.operation@ == operation@,
            r.file@ == file@,
            r.duration == 0,
            r.symbols_found == 0,
            r.errors == 0,
            r.warnings == 0,
    {
        AnalysisLog {
            operation: operation.to_owned(),
            file: file.to_owned(),
            duration: 0,
            symbols_found: 0,
            errors: 0,
            warnings: 0,
        }
    }

    /// The level at which the record is to be written.
    pub fn level(&self) -> (r: LogLevel)
        ensures
            r == level_of(self.errors, self.warnings),
    {
        if self.errors > 0 {
            LogLevel::Error
        } else if self.warnings > 0 {
            LogLevel::Warn
        } else {
            LogLevel::Info
        }
    }

    /// The line that reports the record, `duration` being its duration as
    /// it is to be written.
    pub fn message(&self, duration: &str) -> (r: String)
        ensures
            r@ == message_of(*self, duration@),
    {
        let mut out = self.operation.clone();
        out.append(" completed for ");
        out.append(self.file.as_str());
        out.append(" in ");
        out.append(duration);
        out.append(" - ");
        out.append(decimal_string(self.symbols_found as u64).as_str());
        match self.level() {
            LogLevel::Error => {
                out.append(" symbols, ");
                out.append(decimal_string(self.errors as u64).as_str());
                out.append(" errors, ");
                out.append(decimal_string(self.warnings as u64).as_str());
                out.append(" warnings");
            },
            LogLevel::Warn => {
                out.append(" symbols, ");
                out.append(decimal_string(self.warnings as u64).as_str());
                out.append(" warnings");
            },
            LogLevel::Info => {
                out.append(" symbols processed");
            },
        }
        out
    }

    /// The record with the duration set.
    pub fn with_duration(self, duration: u128) -> (r: AnalysisLog)
        ensures
            r == (AnalysisLog { duration, ..self }),
    {
        let mut log = self;
        log.duration = duration;
        log
    }

    /// The record with the number of symbols set.
    pub fn with_symbols(self, count: usize) -> (r: AnalysisLog)
        ensures
            r == (AnalysisLog { symbols_found: count, ..self }),
    {
        let mut log = self;
        log.symbols_found = count;
        log
    }

    /// The record with the number of errors set.
    pub fn with_errors(self, count: usize) -> (r: AnalysisLog)
        ensures
            r == (AnalysisLog { errors: count, ..self }),
    {
        let mut log = self;
        log.errors = count;
        log
    }

    /// The record with the number of warnings set.
    pub fn with_warnings(self, count: usize) -> (r: AnalysisLog)
        ensures
            r == (AnalysisLog { warnings: count, ..self }),
    {
        let mut log = self;
        log.warnings = count;
        log
    }
}

/// How far a long operation has come.
#[derive(Debug, Clone, PartialEq)]
pub struct ProgressLogger {
    pub operation: String,
    pub total: usize,
    pub current: usize,
}

impl ProgressLogger {
    /// Progress of `operation` over `total` items, none done yet.
    pub fn new(operation: &str, total: usize) -> (r: ProgressLogger)
        ensures
            r.operation@ == operation@,
            r.total == total,
            r.current == 0,
    {
        ProgressLogger { operation: operation.to_owned(), total, current: 0 }
    }

    /// Sets the number of items done.
    pub fn update(&mut self, processed: usize)
        ensures
            *final(self) == (ProgressLogger { current: processed, ..*old(self) }),
    {
        self.current = processed;
    }

    /// Counts one more item as done. The count stops at the largest number
    /// its type holds.
    pub fn increment(&mut self)
        ensures
            *final(self) == (ProgressLogger {
                current: if old(self).current == usize::MAX {
                    usize::MAX
                } else {
                    (old(self).current + 1) as usize
                },
                ..*old(self)
            }),
    {
        if self.current < usize::MAX {
            self.current = self.current + 1;
        }
    }

    /// Whether every item is done.
    pub fn is_complete(&self) -> (b: bool)
        ensures
            b == (self.current >= self.total),
    {
        self.current >= self.total
    }
}

/// A logger that writes under the name of a module.
#[derive(Debug, Clone, PartialEq)]
pub struct ModuleLogger {
    pub module: String,
}

/// A logger for the module `module_name`.
pub fn create_module_logger(module_name: &str) -> (r: ModuleLogger)
    ensures
        r.module@ == module_name@,
{
    ModuleLogger { module: module_name.to_owned() }
}

} // verus!
