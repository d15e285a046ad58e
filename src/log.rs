//! Log levels: parsing a level name, printing it, and ordering levels.

use vstd::prelude::*;
use vstd::string::StringSliceAdditionalSpecFns;

verus! {

/// Severity of a log line; a line is shown when its level is at most the
/// configured one.
#[derive(Clone, Copy, Debug, PartialEq, Eq, Structural)]
pub enum Level {
    Error,
    Warn,
    Info,
    Debug,
    Trace,
}

/// `true` when the two byte strings are equal.
pub fn bytes_equal(a: &[u8], b: &[u8]) -> (r: bool)
    ensures
        r == (a@ == b@),
{
    if a.len() != b.len() {
        return false;
    }
    let mut i: usize = 0;
    while i < a.len()
        invariant
            a@.len() == b@.len(),
            i <= a@.len(),
            forall|j: int| 0 <= j < i ==> a@[j] == b@[j],
        decreases a@.len() - i,
    {
        if a[i] != b[i] {
            return false;
        }
        i += 1;
    }
    assert(a@ =~= b@);
    true
}

/// The level a configuration name selects: one of the five lower-case
/// names, and `Info` for anything else.
pub open spec fn spec_level_of(name: Seq<u8>) -> Level {
    if name == seq![101u8, 114, 114, 111, 114] {
        Level::Error
    } else if name == seq![119u8, 97, 114, 110] {
        Level::Warn
    } else if name == seq![105u8, 110, 102, 111] {
        Level::Info
    } else if name == seq![100u8, 101, 98, 117, 103] {
        Level::Debug
    } else if name == seq![116u8, 114, 97, 99, 101] {
        Level::Trace
    } else {
        Level::Info
    }
}

/// Rank of a level: 1 for `Error` up to 5 for `Trace`.
pub open spec fn spec_rank(l: Level) -> i32 {
    match l {
        Level::Error => 1,
        Level::Warn => 2,
        Level::Info => 3,
        Level::Debug => 4,
        Level::Trace => 5,
    }
}

impl Level {
    /// Parses a level name ("error", "warn", "info", "debug", "trace");
    /// any other name gives `Info`.
    pub fn from_str(level: &str) -> (r: Level)
        ensures
            r == spec_level_of(level.spec_bytes()),
    {
        let b = level.as_bytes();
        let error: Vec<u8> = vec![101u8, 114, 114, 111, 114];
        let warn: Vec<u8> = vec![119u8, 97, 114, 110];
        let info: Vec<u8> = vec![105u8, 110, 102, 111];
        let debug: Vec<u8> = vec![100u8, 101, 98, 117, 103];
        let trace: Vec<u8> = vec![116u8, 114, 97, 99, 101];
        assert(error@ =~= seq![101u8, 114, 114, 111, 114]);
        assert(warn@ =~= seq![119u8, 97, 114, 110]);
        assert(info@ =~= seq![105u8, 110, 102, 111]);
        assert(debug@ =~= seq![100u8, 101, 98, 117, 103]);
        assert(trace@ =~= seq![116u8, 114, 97, 99, 101]);
        if bytes_equal(b, error.as_slice()) {
            Level::Error
        } else if bytes_equal(b, warn.as_slice()) {
            Level::Warn
        } else if bytes_equal(b, info.as_slice()) {
            Level::Info
        } else if bytes_equal(b, debug.as_slice()) {
            Level::Debug
        } else if bytes_equal(b, trace.as_slice()) {
            Level::Trace
        } else {
            Level::Info
        }
    }

    /// Upper-case name of the level, as printed in a log line.
    pub fn to_str(&self) -> (r: &'static str)
        ensures
            *self == Level::Error ==> r@ == "ERROR"@,
            *self == Level::Warn ==> r@ == "WARN"@,
            *self == Level::Info ==> r@ == "INFO"@,
            *self == Level::Debug ==> r@ == "DEBUG"@,
            *self == Level::Trace ==> r@ == "TRACE"@,
    {
        match self {
            Level::Error => "ERROR",
            Level::Warn => "WARN",
            Level::Info => "INFO",
            Level::Debug => "DEBUG",
            Level::Trace => "TRACE",
        }
    }

    /// Rank of the level: 1 for `Error` up to 5 for `Trace`.
    pub fn to_i32(&self) -> (r: i32)
        ensures
            r == spec_rank(*self),
    {
        match self {
            Level::Error => 1,
            Level::Warn => 2,
            Level::Info => 3,
            Level::Debug => 4,
            Level::Trace => 5,
        }
    }

    /// `true` when a line of level `self` is shown under the configured
    /// level `configured`.
    pub fn enabled_under(&self, configured: &Level) -> (r: bool)
        ensures
            r == (spec_rank(*self) <= spec_rank(*configured)),
    {
        self.to_i32() <= configured.to_i32()
    }
}

/// ANSI colour code that a line of the given level is printed in.
pub fn color_code(level: &Level) -> (r: u8)
    ensures
        *level == Level::Error ==> r == 31,
        *level == Level::Warn ==> r == 33,
        *level == Level::Info ==> r == 34,
        *level == Level::Debug ==> r == 32,
        *level == Level::Trace ==> r == 90,
{
    match level {
        Level::Error => 31,
        Level::Warn => 33,
        Level::Info => 34,
        Level::Debug => 32,
        Level::Trace => 90,
    }
}

} // verus!
