//! The logging context: one value, built once at startup, that every
//! component consults before printing.
//!
//! The context decides which messages pass the verbosity threshold and how
//! a line is dressed: the level's label, its color, and whether the source
//! location is shown. Rendering to the terminal is the surrounding
//! program's work; the decisions are made here.

use vstd::prelude::*;

use crate::bytes::{split_byte, split_on, trim, trim_spec, views_of};

verus! {

/// The verbosity threshold: everything at or below the chosen level is
/// printed.
#[derive(Clone, Copy, PartialEq, Eq, Structural, Debug)]
pub enum LevelFilter {
    Off,
    Error,
    Warn,
    Info,
    Debug,
    Trace,
}

/// The severity of one message.
#[derive(Clone, Copy, PartialEq, Eq, Structural, Debug)]
pub enum Level {
    Error,
    Warn,
    Info,
    Debug,
    Trace,
}

/// Filters ordered from silent to chatty.
pub open spec fn filter_rank(f: LevelFilter) -> int {
    match f {
        LevelFilter::Off => 0,
        LevelFilter::Error => 1,
        LevelFilter::Warn => 2,
        LevelFilter::Info => 3,
        LevelFilter::Debug => 4,
        LevelFilter::Trace => 5,
    }
}

/// Levels on the same scale as the filters.
pub open spec fn level_rank(l: Level) -> int {
    match l {
        Level::Error => 1,
        Level::Warn => 2,
        Level::Info => 3,
        Level::Debug => 4,
        Level::Trace => 5,
    }
}

/// The chattier of two filters.
pub open spec fn filter_max_spec(a: LevelFilter, b: LevelFilter) -> LevelFilter {
    if filter_rank(b) > filter_rank(a) {
        b
    } else {
        a
    }
}

fn rank_of(f: LevelFilter) -> (r: u8)
    ensures
        r == filter_rank(f),
{
    match f {
        LevelFilter::Off => 0,
        LevelFilter::Error => 1,
        LevelFilter::Warn => 2,
        LevelFilter::Info => 3,
        LevelFilter::Debug => 4,
        LevelFilter::Trace => 5,
    }
}

/// The threshold the command line asks for: quiet wins, then each
/// repetition of the verbose flag raises the level.
pub open spec fn level_for_spec(quiet: bool, verbose: u8) -> LevelFilter {
    if quiet {
        LevelFilter::Error
    } else if verbose == 0 {
        LevelFilter::Info
    } else if verbose == 1 {
        LevelFilter::Debug
    } else {
        LevelFilter::Trace
    }
}

/// Maps the command line's quiet and verbose flags to a threshold.
pub fn level_for(quiet: bool, verbose: u8) -> (r: LevelFilter)
    ensures
        r == level_for_spec(quiet, verbose),
{
    if quiet {
        LevelFilter::Error
    } else if verbose == 0 {
        LevelFilter::Info
    } else if verbose == 1 {
        LevelFilter::Debug
    } else {
        LevelFilter::Trace
    }
}

/// The colors log lines and test verdicts are dressed in.
#[derive(Clone, Copy, PartialEq, Eq, Structural, Debug)]
pub enum LogColor {
    Red,
    Yellow,
    Blue,
    Green,
    Magenta,
    LightGray,
    LightRed,
    LightGreen,
    Plain,
}

/// Each level's color.
pub open spec fn level_color(l: Level) -> LogColor {
    match l {
        Level::Error => LogColor::Red,
        Level::Warn => LogColor::Yellow,
        Level::Info => LogColor::Green,
        Level::Debug => LogColor::Blue,
        Level::Trace => LogColor::Magenta,
    }
}

/// Each level's label; informational lines carry none.
pub open spec fn level_label(l: Level) -> Seq<u8> {
    match l {
        Level::Error => seq![0x65u8, 0x72u8, 0x72u8, 0x6fu8, 0x72u8],
        Level::Warn => seq![0x77u8, 0x61u8, 0x72u8, 0x6eu8],
        Level::Info => seq![],
        Level::Debug => seq![0x64u8, 0x65u8, 0x62u8, 0x75u8, 0x67u8],
        Level::Trace => seq![0x74u8, 0x72u8, 0x61u8, 0x63u8, 0x65u8],
    }
}

/// The logging context.
#[derive(Clone, Copy, PartialEq, Eq, Structural, Debug)]
pub struct CustomLogger {
    /// The verbosity threshold.
    pub max_level: LevelFilter,
    /// Whether lines are colored.
    pub color: bool,
    /// Whether each line carries its level's label.
    pub print_level: bool,
    /// Whether each line carries the source location it was logged from.
    pub print_file: bool,
}

/// How one log line is to be rendered.
pub struct LogLinePlan {
    /// Whether the line is printed at all.
    pub enabled: bool,
    /// The level's label.
    pub label: Vec<u8>,
    /// Whether the label is printed before the message.
    pub show_label: bool,
    /// The label's color.
    pub label_color: LogColor,
    /// Whether the source location is printed.
    pub show_file: bool,
    /// Whether colors are applied.
    pub use_color: bool,
}

impl CustomLogger {
    /// Raises the threshold to `level` if that is chattier.
    pub fn max_level(&mut self, level: LevelFilter)
        ensures
            *final(self) == (CustomLogger {
                max_level: filter_max_spec(old(self).max_level, level),
                ..*old(self)
            }),
    {
        if rank_of(level) > rank_of(self.max_level) {
            self.max_level = level;
        }
    }

    /// Chooses whether lines carry their level's label.
    pub fn print_level(&mut self, print_level: bool)
        ensures
            *final(self) == (CustomLogger { print_level, ..*old(self) }),
    {
        self.print_level = print_level;
    }

    /// Chooses whether lines carry their source location.
    pub fn print_file(&mut self, print_file: bool)
        ensures
            *final(self) == (CustomLogger { print_file, ..*old(self) }),
    {
        self.print_file = print_file;
    }

    /// Chooses whether lines are colored.
    pub fn color(&mut self, color: bool)
        ensures
            *final(self) == (CustomLogger { color, ..*old(self) }),
    {
        self.color = color;
    }

    /// Whether a message at `level` passes the threshold.
    pub fn enabled(&self, level: Level) -> (r: bool)
        ensures
            r == (level_rank(level) <= filter_rank(self.max_level)),
    {
        let level_filter = match level {
            Level::Error => LevelFilter::Error,
            Level::Warn => LevelFilter::Warn,
            Level::Info => LevelFilter::Info,
            Level::Debug => LevelFilter::Debug,
            Level::Trace => LevelFilter::Trace,
        };
        rank_of(level_filter) <= rank_of(self.max_level)
    }

    /// Plans one log line: whether it prints, and with which dressing.
    pub fn line_plan(&self, level: Level) -> (r: LogLinePlan)
        ensures
            r.enabled == (level_rank(level) <= filter_rank(self.max_level)),
            r.label@ == level_label(level),
            r.show_label == (self.print_level && level_label(level).len() > 0),
            r.label_color == level_color(level),
            r.show_file == self.print_file,
            r.use_color == self.color,
    {
        let enabled = self.enabled(level);
        let label: Vec<u8> = match level {
            Level::Error => {
                let a: [u8; 5] = [0x65, 0x72, 0x72, 0x6f, 0x72];
                vstd::slice::slice_to_vec(a.as_slice())
            },
            Level::Warn => {
                let a: [u8; 4] = [0x77, 0x61, 0x72, 0x6e];
                vstd::slice::slice_to_vec(a.as_slice())
            },
            Level::Info => Vec::new(),
            Level::Debug => {
                let a: [u8; 5] = [0x64, 0x65, 0x62, 0x75, 0x67];
                vstd::slice::slice_to_vec(a.as_slice())
            },
            Level::Trace => {
                let a: [u8; 5] = [0x74, 0x72, 0x61, 0x63, 0x65];
                vstd::slice::slice_to_vec(a.as_slice())
            },
        };
        proof {
            assert(label@ =~= level_label(level));
        }
        let label_color = match level {
            Level::Error => LogColor::Red,
            Level::Warn => LogColor::Yellow,
            Level::Info => LogColor::Green,
            Level::Debug => LogColor::Blue,
            Level::Trace => LogColor::Magenta,
        };
        let show_label = self.print_level && label.len() > 0;
        LogLinePlan {
            enabled,
            label,
            show_label,
            label_color,
            show_file: self.print_file,
            use_color: self.color,
        }
    }
}

/// The colors of the per-fixture verdicts: a failing fixture in light red
/// and a passing one in light green, or no color at all.
pub open spec fn status_colors_spec(use_color: bool) -> (LogColor, LogColor) {
    if use_color {
        (LogColor::LightRed, LogColor::LightGreen)
    } else {
        (LogColor::Plain, LogColor::Plain)
    }
}

/// Picks the verdict colors.
pub fn status_colors(use_color: bool) -> (r: (LogColor, LogColor))
    ensures
        r == status_colors_spec(use_color),
{
    if use_color {
        (LogColor::LightRed, LogColor::LightGreen)
    } else {
        (LogColor::Plain, LogColor::Plain)
    }
}

/// One token of the logging configuration applied to a context: the level
/// names raise the threshold; `color`, `level` and `file` switch their
/// features on; anything else changes nothing.
pub open spec fn apply_config_token(l: CustomLogger, t: Seq<u8>) -> CustomLogger {
    if t == seq![0x65u8, 0x72u8, 0x72u8, 0x6fu8, 0x72u8] {
        CustomLogger { max_level: filter_max_spec(l.max_level, LevelFilter::Error), ..l }
    } else if t == seq![0x77u8, 0x61u8, 0x72u8, 0x6eu8] {
        CustomLogger { max_level: filter_max_spec(l.max_level, LevelFilter::Warn), ..l }
    } else if t == seq![0x69u8, 0x6eu8, 0x66u8, 0x6fu8] {
        CustomLogger { max_level: filter_max_spec(l.max_level, LevelFilter::Info), ..l }
    } else if t == seq![0x64u8, 0x65u8, 0x62u8, 0x75u8, 0x67u8] {
        CustomLogger { max_level: filter_max_spec(l.max_level, LevelFilter::Debug), ..l }
    } else if t == seq![0x74u8, 0x72u8, 0x61u8, 0x63u8, 0x65u8] {
        CustomLogger { max_level: filter_max_spec(l.max_level, LevelFilter::Trace), ..l }
    } else if t == seq![0x63u8, 0x6fu8, 0x6cu8, 0x6fu8, 0x72u8] {
        CustomLogger { color: true, ..l }
    } else if t == seq![0x6cu8, 0x65u8, 0x76u8, 0x65u8, 0x6cu8] {
        CustomLogger { print_level: true, ..l }
    } else if t == seq![0x66u8, 0x69u8, 0x6cu8, 0x65u8] {
        CustomLogger { print_file: true, ..l }
    } else {
        l
    }
}

/// A context after a list of configuration tokens, applied in order.
pub open spec fn logger_after_tokens(l: CustomLogger, tokens: Seq<Seq<u8>>) -> CustomLogger
    decreases tokens.len(),
{
    if tokens.len() == 0 {
        l
    } else {
        logger_after_tokens(apply_config_token(l, tokens[0]), tokens.skip(1))
    }
}

/// The starting context before any configuration: errors only, colored
/// exactly when standard error is a terminal, no labels, no locations.
pub open spec fn base_logger(stderr_is_terminal: bool) -> CustomLogger {
    CustomLogger {
        max_level: LevelFilter::Error,
        color: stderr_is_terminal,
        print_level: false,
        print_file: false,
    }
}

/// The context a configuration string denotes: its comma-separated tokens,
/// each trimmed, applied in order to the starting context.
pub open spec fn logger_from_config_spec(config: Seq<u8>, stderr_is_terminal: bool) -> CustomLogger {
    logger_after_tokens(
        base_logger(stderr_is_terminal),
        split_on(config, seq![0x2cu8]).map_values(|t: Seq<u8>| trim_spec(t)),
    )
}

/// Builds the logging context from the configuration string of the
/// environment and from whether standard error is a terminal.
pub fn make_logger_from_config(config: &[u8], stderr_is_terminal: bool) -> (r: CustomLogger)
    ensures
        r == logger_from_config_spec(config@, stderr_is_terminal),
{
    let mut logger = CustomLogger {
        max_level: LevelFilter::Error,
        color: stderr_is_terminal,
        print_level: false,
        print_file: false,
    };
    let tokens = split_byte(config, 0x2c);
    let ghost trimmed = split_on(config@, seq![0x2cu8]).map_values(|t: Seq<u8>| trim_spec(t));
    let n = tokens.len();
    let mut i: usize = 0;
    proof {
        assert(trimmed.skip(0) =~= trimmed);
    }
    while i < n
        invariant
            n == tokens@.len(),
            views_of(tokens@) == split_on(config@, seq![0x2cu8]),
            logger_from_config_spec(config@, stderr_is_terminal) == logger_after_tokens(
                logger,
                split_on(config@, seq![0x2cu8]).map_values(|t: Seq<u8>| trim_spec(t)).skip(
                    i as int,
                ),
            ),
            0 <= i <= n,
        decreases n - i,
    {
        let ghost trimmed_l = split_on(config@, seq![0x2cu8]).map_values(
            |t: Seq<u8>| trim_spec(t),
        );
        let ghost rest = trimmed_l.skip(i as int);
        proof {
            assert(trimmed_l.len() == views_of(tokens@).len());
            assert(rest[0] == trimmed_l[i as int]);
            assert(trimmed_l[i as int] == trim_spec(views_of(tokens@)[i as int]));
            assert(views_of(tokens@)[i as int] == tokens@[i as int]@);
            assert(rest.skip(1) =~= trimmed_l.skip(i + 1));
            assert(logger_after_tokens(logger, rest) == logger_after_tokens(
                apply_config_token(logger, rest[0]),
                rest.skip(1),
            ));
        }
        let token = trim(tokens[i].as_slice());
        let ghost before = logger;
        let error_t: [u8; 5] = [0x65, 0x72, 0x72, 0x6f, 0x72];
        let warn_t: [u8; 4] = [0x77, 0x61, 0x72, 0x6e];
        let info_t: [u8; 4] = [0x69, 0x6e, 0x66, 0x6f];
        let debug_t: [u8; 5] = [0x64, 0x65, 0x62, 0x75, 0x67];
        let trace_t: [u8; 5] = [0x74, 0x72, 0x61, 0x63, 0x65];
        let color_t: [u8; 5] = [0x63, 0x6f, 0x6c, 0x6f, 0x72];
        let level_t: [u8; 5] = [0x6c, 0x65, 0x76, 0x65, 0x6c];
        let file_t: [u8; 4] = [0x66, 0x69, 0x6c, 0x65];
        if crate::bytes::bytes_eq(token.as_slice(), error_t.as_slice()) {
            logger.max_level(LevelFilter::Error);
        } else if crate::bytes::bytes_eq(token.as_slice(), warn_t.as_slice()) {
            logger.max_level(LevelFilter::Warn);
        } else if crate::bytes::bytes_eq(token.as_slice(), info_t.as_slice()) {
            logger.max_level(LevelFilter::Info);
        } else if crate::bytes::bytes_eq(token.as_slice(), debug_t.as_slice()) {
            logger.max_level(LevelFilter::Debug);
        } else if crate::bytes::bytes_eq(token.as_slice(), trace_t.as_slice()) {
            logger.max_level(LevelFilter::Trace);
        } else if crate::bytes::bytes_eq(token.as_slice(), color_t.as_slice()) {
            logger.color(true);
        } else if crate::bytes::bytes_eq(token.as_slice(), level_t.as_slice()) {
            logger.print_level(true);
        } else if crate::bytes::bytes_eq(token.as_slice(), file_t.as_slice()) {
            logger.print_file(true);
        }
        proof {
            assert(error_t@ =~= seq![0x65u8, 0x72u8, 0x72u8, 0x6fu8, 0x72u8]);
            assert(warn_t@ =~= seq![0x77u8, 0x61u8, 0x72u8, 0x6eu8]);
            assert(info_t@ =~= seq![0x69u8, 0x6eu8, 0x66u8, 0x6fu8]);
            assert(debug_t@ =~= seq![0x64u8, 0x65u8, 0x62u8, 0x75u8, 0x67u8]);
            assert(trace_t@ =~= seq![0x74u8, 0x72u8, 0x61u8, 0x63u8, 0x65u8]);
            assert(color_t@ =~= seq![0x63u8, 0x6fu8, 0x6cu8, 0x6fu8, 0x72u8]);
            assert(level_t@ =~= seq![0x6cu8, 0x65u8, 0x76u8, 0x65u8, 0x6cu8]);
            assert(file_t@ =~= seq![0x66u8, 0x69u8, 0x6cu8, 0x65u8]);
            assert(token@ == rest[0]);
            assert(logger == apply_config_token(before, rest[0]));
        }
        i = i + 1;
    }
    proof {
        let trimmed_l = split_on(config@, seq![0x2cu8]).map_values(|t: Seq<u8>| trim_spec(t));
        assert(trimmed_l.skip(n as int) =~= Seq::<Seq<u8>>::empty());
    }
    logger
}

} // verus!
