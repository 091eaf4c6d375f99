//! What is logged and where it goes. Paths are text; installing the configuration is left to the
//! caller.

use vstd::prelude::*;
use vstd::string::StringExecFns;

verus! {

/// How often a new log file is started.
#[derive(Debug, Clone, Copy, PartialEq, Eq, Structural)]
pub enum Rotation {
    Never,
    Minutely,
    Hourly,
    Daily,
}

impl Default for Rotation {
    fn default() -> (rotation: Self)
        ensures
            rotation == Rotation::Daily,
    {
        Rotation::Daily
    }
}

/// Where log files go.
#[derive(Debug, PartialEq, Eq)]
pub enum FileSink {
    /// Nowhere.
    Disabled,
    /// One file that is added to; without a path, the default one.
    Fixed { path: Option<String> },
    /// Files in a directory, a new one per rotation.
    Rolling {
        dir: String,
        prefix: String,
        suffix: String,
        rotation: Rotation,
        max_files: Option<usize>,
    },
}

/// What is logged and where it goes.
#[derive(Debug, PartialEq, Eq)]
pub struct LogConfig {
    /// What is logged; without it, the environment says, or else the default does.
    pub directives: Option<String>,
    pub to_stdout: bool,
    pub file: FileSink,
}

/// Name of the default log file.
pub const DEFAULT_FILE_NAME: &'static str = "lxlake.log";

impl FileSink {
    /// The sink with another rotation; nothing changes unless it rolls.
    pub open spec fn turned(self, rotation: Rotation) -> FileSink {
        match self {
            FileSink::Rolling { dir, prefix, suffix, rotation: _, max_files } => FileSink::Rolling {
                dir,
                prefix,
                suffix,
                rotation,
                max_files,
            },
            other => other,
        }
    }

    /// The sink with a limit to the number of files; nothing changes unless it rolls.
    pub open spec fn limited(self, n: usize) -> FileSink {
        match self {
            FileSink::Rolling { dir, prefix, suffix, rotation, max_files: _ } => FileSink::Rolling {
                dir,
                prefix,
                suffix,
                rotation,
                max_files: Some(n),
            },
            other => other,
        }
    }
}

impl LogConfig {
    pub fn new() -> (config: Self)
        ensures
            config.directives is None,
            config.to_stdout,
            config.file == (FileSink::Fixed { path: None }),
    {
        LogConfig { directives: None, to_stdout: true, file: FileSink::Fixed { path: None } }
    }

    /// Says what is logged.
    pub fn level(self, level: &str) -> (config: Self)
        ensures
            config.directives matches Some(directives) && directives@ == level@,
            config.to_stdout == self.to_stdout,
            config.file == self.file,
    {
        self.directives(level)
    }

    /// Says what is logged.
    pub fn directives(self, directives: &str) -> (config: Self)
        ensures
            config.directives matches Some(set) && set@ == directives@,
            config.to_stdout == self.to_stdout,
            config.file == self.file,
    {
        LogConfig { directives: Some(directives.to_owned()), ..self }
    }

    /// Whether the console gets the log.
    pub fn stdout(self, on: bool) -> (config: Self)
        ensures
            config == (LogConfig { to_stdout: on, ..self }),
    {
        LogConfig { to_stdout: on, ..self }
    }

    /// Whether a file gets the log: the default one.
    pub fn file(self, on: bool) -> (config: Self)
        ensures
            config == (LogConfig {
                file: if on {
                    FileSink::Fixed { path: None }
                } else {
                    FileSink::Disabled
                },
                ..self
            }),
    {
        let file = if on {
            FileSink::Fixed { path: None }
        } else {
            FileSink::Disabled
        };
        LogConfig { file, ..self }
    }

    /// One file gets the log.
    pub fn file_path(self, path: &str) -> (config: Self)
        ensures
            config.file matches FileSink::Fixed { path: Some(set) } && set@ == path@,
            config.directives == self.directives,
            config.to_stdout == self.to_stdout,
    {
        LogConfig { file: FileSink::Fixed { path: Some(path.to_owned()) }, ..self }
    }

    /// Files in a directory get the log, a new one each day.
    pub fn rolling(self, dir: &str, prefix: &str) -> (config: Self)
        ensures
            config.directives == self.directives,
            config.to_stdout == self.to_stdout,
            config.file matches FileSink::Rolling {
                dir: set_dir,
                prefix: set_prefix,
                suffix,
                rotation,
                max_files,
            } && set_dir@ == dir@ && set_prefix@ == prefix@ && suffix@ == "log"@ && rotation
                == Rotation::Daily && max_files is None,
    {
        LogConfig {
            file: FileSink::Rolling {
                dir: dir.to_owned(),
                prefix: prefix.to_owned(),
                suffix: "log".to_owned(),
                rotation: Rotation::default(),
                max_files: None,
            },
            ..self
        }
    }

    /// How often a new file is started; nothing changes unless the files roll.
    pub fn rotation(self, rotation: Rotation) -> (config: Self)
        ensures
            config == (LogConfig { file: self.file.turned(rotation), ..self }),
    {
        let file = match self.file {
            FileSink::Rolling { dir, prefix, suffix, rotation: _, max_files } => FileSink::Rolling {
                dir,
                prefix,
                suffix,
                rotation,
                max_files,
            },
            other => other,
        };
        LogConfig { directives: self.directives, to_stdout: self.to_stdout, file }
    }

    /// How many files are kept; nothing changes unless the files roll.
    pub fn max_files(self, n: usize) -> (config: Self)
        ensures
            config == (LogConfig { file: self.file.limited(n), ..self }),
    {
        let file = match self.file {
            FileSink::Rolling { dir, prefix, suffix, rotation, max_files: _ } => FileSink::Rolling {
                dir,
                prefix,
                suffix,
                rotation,
                max_files: Some(n),
            },
            other => other,
        };
        LogConfig { directives: self.directives, to_stdout: self.to_stdout, file }
    }

    /// What is logged: what the configuration says, or else the environment, or else `info`.
    pub open spec fn filter_text(&self, environment: Option<Seq<char>>) -> Seq<char> {
        match self.directives {
            Some(directives) => directives@,
            None => match environment {
                Some(environment) => environment,
                None => "info"@,
            },
        }
    }

    /// What is logged; `environment` is what the environment says, if that can be made sense of.
    pub fn filter(&self, environment: Option<&str>) -> (directives: String)
        ensures
            directives@ == self.filter_text(
                match environment {
                    Some(environment) => Some(environment@),
                    None => None,
                },
            ),
    {
        match &self.directives {
            Some(directives) => directives.as_str().to_owned(),
            None => match environment {
                Some(environment) => environment.to_owned(),
                None => "info".to_owned(),
            },
        }
    }
}

impl Default for LogConfig {
    fn default() -> (config: Self)
        ensures
            config.directives is None,
            config.to_stdout,
            config.file == (FileSink::Fixed { path: None }),
    {
        LogConfig::new()
    }
}

/// Why the log could not be set up. `reason` is what the system said.
#[derive(Debug, PartialEq, Eq)]
pub enum LogError {
    Directory { path: String, reason: String },
    File { path: String, reason: String },
    Appender { dir: String, reason: String },
}

impl LogError {
    /// The error as a line of text.
    pub open spec fn shown(&self) -> Seq<char> {
        match self {
            LogError::Directory { path, reason } => "建日志目录失败："@ + path@ + "（"@ + reason@ + "）"@,
            LogError::File { path, reason } => "打开日志文件失败："@ + path@ + "（"@ + reason@ + "）"@,
            LogError::Appender { dir, reason } => "建日志轮转 appender 失败："@ + dir@ + "（"@ + reason@
                + "）"@,
        }
    }

    /// The error as a line of text.
    pub fn display(&self) -> (line: String)
        ensures
            line@ == self.shown(),
    {
        let (what, place, reason) = match self {
            LogError::Directory { path, reason } => ("建日志目录失败：", path, reason),
            LogError::File { path, reason } => ("打开日志文件失败：", path, reason),
            LogError::Appender { dir, reason } => ("建日志轮转 appender 失败：", dir, reason),
        };
        let mut line = what.to_owned();
        line.append(place.as_str());
        line.append("（");
        line.append(reason.as_str());
        line.append("）");
        line
    }
}

/// Setting how files roll never turns a sink into another kind.
pub proof fn a_sink_keeps_its_kind(sink: FileSink, rotation: Rotation, n: usize)
    ensures
        sink !is Rolling ==> sink.turned(rotation) == sink && sink.limited(n) == sink,
        sink is Rolling ==> sink.turned(rotation) is Rolling && sink.limited(n) is Rolling,
{
}

/// What the configuration says of what is logged counts before the environment, and that before the
/// default.
pub proof fn the_configuration_counts_first(config: LogConfig, environment: Option<Seq<char>>)
    ensures
        config.directives matches Some(directives) ==> config.filter_text(environment) == directives@,
        config.directives is None && environment is Some ==> config.filter_text(environment) == environment->0,
        config.directives is None && environment is None ==> config.filter_text(environment) == "info"@,
{
}

/// How files roll is set without touching anything else of a sink.
pub proof fn settings_of_a_sink_are_kept_apart(sink: FileSink, rotation: Rotation, n: usize)
    requires
        sink is Rolling,
    ensures
        sink.turned(rotation)->rotation == rotation,
        sink.turned(rotation)->max_files == sink->max_files,
        sink.limited(n)->max_files == Some(n),
        sink.limited(n)->rotation == sink->rotation,
        sink.turned(rotation)->dir == sink->dir && sink.limited(n)->dir == sink->dir,
        sink.turned(rotation)->prefix == sink->prefix && sink.limited(n)->prefix == sink->prefix,
        sink.turned(rotation)->suffix == sink->suffix && sink.limited(n)->suffix == sink->suffix,
        sink.turned(rotation).limited(n) == sink.limited(n).turned(rotation),
{
}

} // verus!
