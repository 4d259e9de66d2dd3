//! What the command line asks for, and the configuration that follows
//! from it.

use crate::types::OutputFormat;
use vstd::prelude::*;

verus! {

/// The arguments of the command line.
#[derive(Debug, Clone)]
pub struct Args {
    /// The playlist file to process.
    pub file: String,
    /// A path to save the playlist to.
    pub output: Option<String>,
    /// How much to log.
    pub log: Option<Level>,
    /// The format to write the playlist in.
    pub output_format: Option<OutputFormat>,
    /// Whether to save into the default directory.
    pub default: bool,
    /// Whether to overwrite an existing output file.
    pub force: bool,
    /// Whether to print in the basic style.
    pub basic: bool,
    /// Whether to print in the numbered style.
    pub numbered: bool,
    /// Whether to leave the playlist unprinted.
    pub quiet: bool,
    /// Whether to save the playlist, and under which name or path: `Some(None)`
    /// asks for the default path.
    pub save: Option<Option<String>>,
}

/// How much to log.
#[derive(Debug, Clone, Copy, PartialEq, Eq, Structural)]
pub enum Level {
    Trace,
    Debug,
    Info,
    Warn,
    Error,
}

/// The most verbose level of messages that a logger lets through.
#[derive(Debug, Clone, Copy, PartialEq, Eq, Structural)]
pub enum LevelFilter {
    Off,
    Error,
    Warn,
    Info,
    Debug,
    Trace,
}

/// The style in which a playlist is printed.
#[derive(Debug, Clone, Copy, PartialEq, Eq, Structural)]
pub enum FormattingStyle {
    /// One line for each track, for sharing a playlist as text.
    Basic,
    /// As `Basic`, with the number of each track.
    Numbered,
    /// A table for reading on the terminal.
    Pretty,
}

impl Default for FormattingStyle {
    fn default() -> (res: FormattingStyle)
        ensures
            res == FormattingStyle::Pretty,
    {
        FormattingStyle::Pretty
    }
}

/// What the program is to do.
#[derive(Debug, Clone)]
pub struct CliConfig {
    pub default: bool,
    pub force: bool,
    pub quiet: bool,
    pub save: bool,
    pub style: FormattingStyle,
    pub output_path: Option<String>,
    pub output_format: OutputFormat,
}

/// The style that the flags ask for: basic before numbered, and pretty
/// where neither is set.
pub open spec fn style_of(basic: bool, numbered: bool) -> FormattingStyle {
    if basic {
        FormattingStyle::Basic
    } else if numbered {
        FormattingStyle::Numbered
    } else {
        FormattingStyle::Pretty
    }
}

/// The path to save to: that of the option to save, where it is given, and
/// else the output path.
pub open spec fn output_path_of(save: Option<Option<String>>, output: Option<String>) -> Option<
    String,
> {
    match save {
        Some(path) => path,
        None => output,
    }
}

impl CliConfig {
    /// The configuration that the arguments ask for. The playlist is saved
    /// where the option to save or an output path is given.
    pub fn from_args(args: Args) -> (res: CliConfig)
        ensures
            res.force == args.force,
            res.default == args.default,
            res.quiet == args.quiet,
            res.style == style_of(args.basic, args.numbered),
            res.save == (args.save is Some || args.output is Some),
            res.output_path == output_path_of(args.save, args.output),
            res.output_format == match args.output_format {
                Some(format) => format,
                None => OutputFormat::Xlsx,
            },
    {
        let style = if args.basic {
            FormattingStyle::Basic
        } else if args.numbered {
            FormattingStyle::Numbered
        } else {
            FormattingStyle::default()
        };
        let (save, output_path) = match args.save {
            Some(path) => (true, path),
            None => match args.output {
                Some(path) => (true, Some(path)),
                None => (false, None),
            },
        };
        let output_format = match args.output_format {
            Some(format) => format,
            None => OutputFormat::default(),
        };
        CliConfig {
            force: args.force,
            default: args.default,
            quiet: args.quiet,
            save,
            style,
            output_path,
            output_format,
        }
    }
}

impl Default for CliConfig {
    fn default() -> (res: CliConfig)
        ensures
            !res.default,
            !res.force,
            !res.quiet,
            !res.save,
            res.style == FormattingStyle::Pretty,
            res.output_path is None,
            res.output_format == OutputFormat::Xlsx,
    {
        CliConfig {
            default: false,
            force: false,
            quiet: false,
            save: false,
            style: FormattingStyle::Pretty,
            output_path: None,
            output_format: OutputFormat::Xlsx,
        }
    }
}

/// The name of a level.
pub open spec fn level_name(level: Level) -> Seq<char> {
    match level {
        Level::Trace => "Trace"@,
        Level::Debug => "Debug"@,
        Level::Info => "Info"@,
        Level::Warn => "Warn"@,
        Level::Error => "Error"@,
    }
}

/// The name of a style.
pub open spec fn style_name(style: FormattingStyle) -> Seq<char> {
    match style {
        FormattingStyle::Basic => "Basic"@,
        FormattingStyle::Numbered => "Numbered"@,
        FormattingStyle::Pretty => "Pretty"@,
    }
}

impl FormattingStyle {
    /// The name of the style.
    pub fn name(&self) -> (res: String)
        ensures
            res@ == style_name(*self),
    {
        match self {
            FormattingStyle::Basic => "Basic".to_owned(),
            FormattingStyle::Numbered => "Numbered".to_owned(),
            FormattingStyle::Pretty => "Pretty".to_owned(),
        }
    }
}

impl Level {
    /// The name of the level.
    pub fn name(&self) -> (res: String)
        ensures
            res@ == level_name(*self),
    {
        match self {
            Level::Trace => "Trace".to_owned(),
            Level::Debug => "Debug".to_owned(),
            Level::Info => "Info".to_owned(),
            Level::Warn => "Warn".to_owned(),
            Level::Error => "Error".to_owned(),
        }
    }

    /// The filter that lets the messages of this level and of the more
    /// severe ones through.
    pub fn to_log_filter(&self) -> (res: LevelFilter)
        ensures
            res == match *self {
                Level::Trace => LevelFilter::Trace,
                Level::Debug => LevelFilter::Debug,
                Level::Info => LevelFilter::Info,
                Level::Warn => LevelFilter::Warn,
                Level::Error => LevelFilter::Error,
            },
    {
        match self {
            Level::Trace => LevelFilter::Trace,
            Level::Debug => LevelFilter::Debug,
            Level::Info => LevelFilter::Info,
            Level::Warn => LevelFilter::Warn,
            Level::Error => LevelFilter::Error,
        }
    }
}

} // verus!
