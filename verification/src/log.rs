//! Lines of the log.
use vstd::prelude::*;
use vstd::string::*;

verus! {

pub const COLOR_RESET: &'static str = "\x1b[0m";

pub const COLOR_BLUE: &'static str = "\x1b[34m";

pub const COLOR_GREEN: &'static str = "\x1b[32m";

pub const COLOR_YELLOW: &'static str = "\x1b[33m";

pub const COLOR_RED: &'static str = "\x1b[31m";

/// How a line of the log is meant.
#[derive(Debug, Clone, Copy, PartialEq, Eq, Structural)]
pub enum Level {
    Step,
    Info,
    Success,
    Error,
}

/// A line of the log.
#[derive(Debug)]
pub struct LogLine {
    pub level: Level,
    pub message: String,
}

/// A line of the log: its level and its message.
pub struct LogView {
    pub level: Level,
    pub message: Seq<char>,
}

impl View for LogLine {
    type V = LogView;

    open spec fn view(&self) -> LogView {
        LogView { level: self.level, message: self.message@ }
    }
}

/// The lines that a list holds.
pub open spec fn log_views(list: Seq<LogLine>) -> Seq<LogView> {
    list.map_values(|l: LogLine| l@)
}

/// The word that a level is shown by.
pub open spec fn level_word(level: Level) -> Seq<char> {
    match level {
        Level::Step => "STEP"@,
        Level::Info => "INFO"@,
        Level::Success => "OK"@,
        Level::Error => "ERROR"@,
    }
}

/// The terminal sequence for the colour of a level.
pub open spec fn level_color(level: Level) -> Seq<char> {
    match level {
        Level::Step => COLOR_BLUE@,
        Level::Info => COLOR_YELLOW@,
        Level::Success => COLOR_GREEN@,
        Level::Error => COLOR_RED@,
    }
}

/// A line as it is printed.
pub open spec fn rendered(line: LogView, color: bool) -> Seq<char> {
    if color {
        level_color(line.level) + "["@ + level_word(line.level) + "]"@ + COLOR_RESET@ + " "@ + line.message
    } else {
        "["@ + level_word(line.level) + "] "@ + line.message
    }
}

/// A line that tells what is done next.
pub fn log_step(message: &str) -> (r: LogLine)
    ensures
        r@ == (LogView { level: Level::Step, message: message@ }),
{
    LogLine { level: Level::Step, message: message.to_string() }
}

/// A line with a note.
pub fn log_info(message: &str) -> (r: LogLine)
    ensures
        r@ == (LogView { level: Level::Info, message: message@ }),
{
    LogLine { level: Level::Info, message: message.to_string() }
}

/// A line that tells what has succeeded.
pub fn log_success(message: &str) -> (r: LogLine)
    ensures
        r@ == (LogView { level: Level::Success, message: message@ }),
{
    LogLine { level: Level::Success, message: message.to_string() }
}

/// A line that tells what has failed.
pub fn log_error(message: &str) -> (r: LogLine)
    ensures
        r@ == (LogView { level: Level::Error, message: message@ }),
{
    LogLine { level: Level::Error, message: message.to_string() }
}

/// A line as it is printed; `color` tells whether the terminal takes colours.
pub fn log_with(line: &LogLine, color: bool) -> (r: String)
    ensures
        r@ == rendered(line@, color),
{
    let (word, shade) = match line.level {
        Level::Step => ("STEP", COLOR_BLUE),
        Level::Info => ("INFO", COLOR_YELLOW),
        Level::Success => ("OK", COLOR_GREEN),
        Level::Error => ("ERROR", COLOR_RED),
    };
    if color {
        shade.to_string().concat("[").concat(word).concat("]").concat(COLOR_RESET).concat(" ").concat(
            line.message.as_str(),
        )
    } else {
        "[".to_string().concat(word).concat("] ").concat(line.message.as_str())
    }
}

/// A line of the log is its level in brackets and then its message as it is; in colour, only the level is
/// coloured, and the colour ends before the message.
pub proof fn law_lines_show_level_and_message(line: LogView, color: bool)
    ensures
        ({
            let word = match line.level {
                Level::Step => "STEP"@,
                Level::Info => "INFO"@,
                Level::Success => "OK"@,
                Level::Error => "ERROR"@,
            };
            let paint = match line.level {
                Level::Step => "\x1b[34m"@,
                Level::Info => "\x1b[33m"@,
                Level::Success => "\x1b[32m"@,
                Level::Error => "\x1b[31m"@,
            };
            &&& !color ==> rendered(line, color) == "["@ + word + "] "@ + line.message
            &&& color ==> rendered(line, color) == paint + "["@ + word + "]"@ + "\x1b[0m"@ + " "@ + line.message
        }),
{
}

} // verus!
