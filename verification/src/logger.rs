//! The sink: which records it emits and what their lines say.

use crate::level::{level_le, level_name, Level};
use crate::stream::{
    is_single_line, lemma_joined_single_line, lemma_lines_read_back, lines_of, written,
};
use crate::calendar::CalendarTime;
use crate::stamp::{has_stamp_shape, lemma_stamp_shape, lemma_stamp_single_line, stamp_text};
use crate::timestamp::{utc_now, Timestamp};
use vstd::prelude::*;

verus! {

/// One logging event: a severity and a message that is already rendered.
#[derive(Clone, Debug, PartialEq, Eq)]
pub struct Record {
    pub level: Level,
    pub message: String,
}

/// What follows the timestamp in the line of a record of `level` with
/// `message`: ` - LEVEL: message`.
pub open spec fn line_tail(level: Level, message: Seq<char>) -> Seq<char> {
    seq![' ', '-', ' '] + level.name() + seq![':', ' '] + message
}

/// The line of a record of `level` with `message`, emitted at `at`:
/// `DD/MM/YYYY HH:MM:SS - LEVEL: message`, without a line terminator.
pub open spec fn record_line(level: Level, message: Seq<char>, at: CalendarTime) -> Seq<char> {
    stamp_text(at) + line_tail(level, message)
}

/// Whether `line` follows the pattern of a record's line: a timestamp of
/// the shape `DD/MM/YYYY HH:MM:SS`, then ` - `, the name of `level`, `: ` and
/// `message`.
pub open spec fn follows_line_pattern(line: Seq<char>, level: Level, message: Seq<char>) -> bool {
    &&& line.len() >= 19
    &&& has_stamp_shape(line.subrange(0, 19))
    &&& line.subrange(19, line.len() as int) == line_tail(level, message)
}

/// The line of a record that is emitted in the years 0 to 9999 follows the
/// pattern of a record's line.
pub proof fn lemma_line_pattern(level: Level, message: Seq<char>, at: CalendarTime)
    requires
        at.is_valid(),
        0 <= at.year <= 9999,
    ensures
        follows_line_pattern(record_line(level, message, at), level, message),
{
    let line = record_line(level, message, at);
    lemma_stamp_shape(at);
    assert(line.subrange(0, 19) =~= stamp_text(at));
    assert(line.subrange(19, line.len() as int) =~= line_tail(level, message));
}

/// The line of a record whose message holds no line break holds none.
pub proof fn lemma_line_single(level: Level, message: Seq<char>, at: CalendarTime)
    requires
        at.is_valid(),
        is_single_line(message),
    ensures
        is_single_line(record_line(level, message, at)),
{
    lemma_stamp_single_line(at);
    let middle = seq![' ', '-', ' '] + level.name() + seq![':', ' '];
    assert(is_single_line(middle));
    lemma_joined_single_line(middle, message);
    lemma_joined_single_line(stamp_text(at), line_tail(level, message));
}

/// The lines of `records` when the record at each place is emitted at the
/// time at that place of `times`.
pub open spec fn emitted_lines(records: Seq<Record>, times: Seq<CalendarTime>) -> Seq<Seq<char>> {
    Seq::new(
        records.len(),
        |i: int| record_line(records[i].level, records[i].message@, times[i]),
    )
}

/// Records that are emitted one after the other leave as many lines in the
/// stream as there are records, in the order of the records, each the line of
/// its record; and each line that is emitted in the years 0 to 9999 follows
/// the pattern of a record's line. This holds of messages without a line break
/// in them.
pub proof fn lemma_records_in_sequence(records: Seq<Record>, times: Seq<CalendarTime>)
    requires
        times.len() == records.len(),
        forall|i: int| 0 <= i < times.len() ==> (#[trigger] times[i]).is_valid(),
        forall|i: int| 0 <= i < records.len() ==> is_single_line((#[trigger] records[i]).message@),
    ensures
        lines_of(written(emitted_lines(records, times))) == emitted_lines(records, times),
        lines_of(written(emitted_lines(records, times))).len() == records.len(),
        forall|i: int|
            0 <= i < records.len() && 0 <= times[i].year <= 9999 ==> follows_line_pattern(
                #[trigger] lines_of(written(emitted_lines(records, times)))[i],
                records[i].level,
                records[i].message@,
            ),
{
    let lines = emitted_lines(records, times);
    assert forall|i: int| 0 <= i < lines.len() implies is_single_line(#[trigger] lines[i]) by {
        lemma_line_single(records[i].level, records[i].message@, times[i]);
    }
    lemma_lines_read_back(lines);
    assert forall|i: int| 0 <= i < records.len() && 0 <= times[i].year <= 9999 implies
        follows_line_pattern(#[trigger] lines[i], records[i].level, records[i].message@) by {
        lemma_line_pattern(records[i].level, records[i].message@, times[i]);
    }
}

/// A sink for log records. It holds no state and is always ready.
#[derive(Clone, Copy, Debug, PartialEq, Eq, Structural)]
pub struct Logger {}

impl Logger {
    /// The least severe level that the sink lets through.
    pub open spec fn threshold() -> Level {
        Level::Trace
    }

    /// Tells whether a record of `level` is emitted: whether `level` is at
    /// least as severe as the threshold. The threshold is the most verbose
    /// level, so every level is.
    pub fn enabled(&self, level: Level) -> (enabled: bool)
        ensures
            enabled == level.passes(Self::threshold()),
            enabled,
    {
        level_le(level, Level::Trace)
    }

    /// The line of `record` for the clock reading `at`. In the years 0 to
    /// 9999 it follows the pattern of a record's line, and it is one line
    /// where the message is.
    pub fn format_record(&self, record: &Record, at: &Timestamp) -> (line: String)
        ensures
            line@ == record_line(record.level, record.message@, at@),
            0 <= at@.year <= 9999 ==> follows_line_pattern(
                line@,
                record.level,
                record.message@,
            ),
            is_single_line(record.message@) ==> is_single_line(line@),
    {
        proof {
            reveal_strlit(" - ");
            reveal_strlit(": ");
        }
        let mut line = at.render();
        line.append(" - ");
        line.append(level_name(record.level));
        line.append(": ");
        line.append(record.message.as_str());
        assert(" - "@ =~= seq![' ', '-', ' ']);
        assert(": "@ =~= seq![':', ' ']);
        assert(line@ =~= record_line(record.level, record.message@, at@));
        proof {
            if 0 <= at@.year <= 9999 {
                lemma_line_pattern(record.level, record.message@, at@);
            }
            if is_single_line(record.message@) {
                lemma_line_single(record.level, record.message@, at@);
            }
        }
        line
    }

    /// Emits `record`: returns the line that is to be written to the
    /// diagnostic stream, stamped with the UTC clock as read during the call,
    /// or `None` where the record is not enabled. Every level is enabled, so a
    /// line always comes back: the line of the record at some valid calendar
    /// time, and one line where the message is.
    pub fn log(&self, record: &Record) -> (line: Option<String>)
        ensures
            line is Some <==> record.level.passes(Self::threshold()),
            line is Some,
            exists|at: CalendarTime|
                at.is_valid() && #[trigger] record_line(record.level, record.message@, at)
                    == line->0@,
            is_single_line(record.message@) ==> is_single_line(line->0@),
    {
        if self.enabled(record.level) {
            let now = utc_now();
            let line = self.format_record(record, &now);
            assert(record_line(record.level, record.message@, now@) == line@);
            Some(line)
        } else {
            None
        }
    }

    /// Flushes the sink. Lines are handed out one by one as they are made, so
    /// there is nothing to flush.
    pub fn flush(&self) {
    }
}

} // verus!
