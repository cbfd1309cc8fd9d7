//! A log file's lines, for when the screen cannot be printed to.
//!
//! Each line is a time of day, a level, a module and a message. Opening the
//! file, the switch that turns logging on, and the clock belong to the
//! caller; what a line says is decided here.

use crate::text::{law_padded_spells_the_number, padded, push_padded, spelled};
use vstd::prelude::*;

verus! {

#[derive(Debug, Clone, Copy, PartialEq, Eq, Structural)]
pub enum Level {
    Info,
    Warn,
    Error,
}

/// A level's name, padded to one width so the module column lines up down
/// the file.
pub open spec fn level_name(level: Level) -> Seq<char> {
    match level {
        Level::Info => "INFO "@,
        Level::Warn => "WARN "@,
        Level::Error => "ERROR"@,
    }
}

impl Level {
    /// The level as it is written in the log.
    pub fn name(self) -> (n: &'static str)
        ensures
            n@ == level_name(self),
    {
        match self {
            Level::Info => "INFO ",
            Level::Warn => "WARN ",
            Level::Error => "ERROR",
        }
    }
}

/// The time of day `secs` seconds and `millis` milliseconds after midnight
/// of the epoch, as `HH:MM:SS.mmm`: the date is the log file's own, and a
/// session does not span days.
pub open spec fn spec_timestamp(secs: u64, millis: u32) -> Seq<char> {
    padded(((secs / 3600) % 24) as nat, 2) + seq![':'] + padded(((secs / 60) % 60) as nat, 2) + seq![':']
        + padded((secs % 60) as nat, 2) + seq!['.'] + padded(millis as nat, 3)
}

/// A timestamp is twelve characters, `HH:MM:SS.mmm`, whose fields spell the
/// hour of the day, the minute of the hour, the second of the minute and the
/// millisecond.
pub proof fn law_timestamp_fields(secs: u64, millis: u32)
    requires
        millis < 1000,
    ensures
        ({
            let t = spec_timestamp(secs, millis);
            &&& t.len() == 12
            &&& t[2] == ':' && t[5] == ':' && t[8] == '.'
            &&& spelled(t.subrange(0, 2)) == (secs / 3600) % 24
            &&& spelled(t.subrange(3, 5)) == (secs / 60) % 60
            &&& spelled(t.subrange(6, 8)) == secs % 60
            &&& spelled(t.subrange(9, 12)) == millis
        }),
{
    let h = ((secs / 3600) % 24) as nat;
    let m = ((secs / 60) % 60) as nat;
    let sc = (secs % 60) as nat;
    law_padded_spells_the_number(h, 2);
    law_padded_spells_the_number(m, 2);
    law_padded_spells_the_number(sc, 2);
    law_padded_spells_the_number(millis as nat, 3);
    let t = spec_timestamp(secs, millis);
    assert(t.subrange(0, 2) =~= padded(h, 2));
    assert(t.subrange(3, 5) =~= padded(m, 2));
    assert(t.subrange(6, 8) =~= padded(sc, 2));
    assert(t.subrange(9, 12) =~= padded(millis as nat, 3));
}

/// A log line is the time, a space, the level's name padded to five, a
/// space, the module, `: ` and the message, as given.
pub proof fn law_log_line_layout(time: Seq<char>, level: Level, module: Seq<char>, message: Seq<char>)
    ensures
        spec_log_line(time, level, module, message) == time + seq![' '] + level_name(level) + seq![' ']
            + module + seq![':', ' '] + message,
        level_name(Level::Info) == seq!['I', 'N', 'F', 'O', ' '],
        level_name(Level::Warn) == seq!['W', 'A', 'R', 'N', ' '],
        level_name(Level::Error) == seq!['E', 'R', 'R', 'O', 'R'],
{
    reveal_strlit(": ");
    reveal_strlit("INFO ");
    reveal_strlit("WARN ");
    reveal_strlit("ERROR");
    assert(": "@ =~= seq![':', ' ']);
    assert("INFO "@ =~= seq!['I', 'N', 'F', 'O', ' ']);
    assert("WARN "@ =~= seq!['W', 'A', 'R', 'N', ' ']);
    assert("ERROR"@ =~= seq!['E', 'R', 'R', 'O', 'R']);
}

/// `HH:MM:SS.mmm` for a wall-clock reading since the epoch.
pub fn timestamp(secs: u64, millis: u32) -> (t: String)
    ensures
        t@ == spec_timestamp(secs, millis),
{
    let mut t = String::new();
    push_padded(&mut t, (secs / 3600) % 24, 2);
    t.push(':');
    push_padded(&mut t, (secs / 60) % 60, 2);
    t.push(':');
    push_padded(&mut t, secs % 60, 2);
    t.push('.');
    push_padded(&mut t, millis as u64, 3);
    assert(t@ =~= spec_timestamp(secs, millis));
    t
}

/// One line of the log: `<time> <level> <module>: <message>`.
pub open spec fn spec_log_line(time: Seq<char>, level: Level, module: Seq<char>, message: Seq<char>) -> Seq<char> {
    time + seq![' '] + level_name(level) + seq![' '] + module + ": "@ + message
}

/// The line written for one message.
pub fn log_line(time: &str, level: Level, module: &str, message: &str) -> (l: String)
    ensures
        l@ == spec_log_line(time@, level, module@, message@),
{
    let mut l = time.to_owned();
    l.push(' ');
    l.append(level.name());
    l.push(' ');
    l.append(module);
    l.append(": ");
    l.append(message);
    l
}

} // verus!
