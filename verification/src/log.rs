//! The format of log lines and log file names.
use vstd::prelude::*;

verus! {

/// The line written for a message: `[time] [level] message` and a line break.
pub open spec fn log_line_text(timestamp: Seq<char>, level: Seq<char>, msg: Seq<char>) -> Seq<char> {
    "["@ + timestamp + "] ["@ + level + "] "@ + msg + "\n"@
}

/// The line written for a message.
pub fn format_log_line(timestamp: &str, level: &str, msg: &str) -> (line: String)
    ensures
        line@ == log_line_text(timestamp@, level@, msg@),
{
    let mut line = String::from_str("[");
    line.append(timestamp);
    line.append("] [");
    line.append(level);
    line.append("] ");
    line.append(msg);
    line.append("\n");
    line
}

/// The name of the log file started at `stamp` (`YYYYmmdd_HHMMSS`).
pub fn log_file_name(stamp: &str) -> (name: String)
    ensures
        name@ == "mimo_"@ + stamp@ + ".log"@,
{
    let mut name = String::from_str("mimo_");
    name.append(stamp);
    name.append(".log");
    name
}

} // verus!
