//! Where log output goes, and how much of it is wanted.

use vstd::prelude::*;
use crate::config::LevelFilter;

verus! {

/// Where log output is written.
#[derive(Clone, Copy, Debug, PartialEq, Eq, Structural)]
pub enum TracingWriterMode {
    /// Write ERROR and WARN to stderr and everything else to stdout.
    Stdio,
    /// Write everything to stdout.
    Stdout,
    /// Write everything to stderr.
    Stderr,
}

/// One of the two streams of a process.
#[derive(Clone, Copy, Debug, PartialEq, Eq, Structural)]
pub enum WriterTarget {
    Stdout,
    Stderr,
}

/// Chooses the stream for each message.
#[derive(Clone, Copy, Debug, PartialEq, Eq, Structural)]
pub struct StdioTracingWriter {
    pub writer_mode: TracingWriterMode,
}

impl StdioTracingWriter {
    /// The stream for a message whose level is not known.
    pub fn make_writer(&self) -> (r: WriterTarget)
        ensures
            r == if self.writer_mode == TracingWriterMode::Stderr {
                WriterTarget::Stderr
            } else {
                WriterTarget::Stdout
            },
    {
        if self.writer_mode == TracingWriterMode::Stderr {
            WriterTarget::Stderr
        } else {
            WriterTarget::Stdout
        }
    }

    /// The stream for a message of level `level`: stderr where everything
    /// goes there, and for errors and warnings where the streams are split.
    pub fn make_writer_for(&self, level: LevelFilter) -> (r: WriterTarget)
        ensures
            r == if self.writer_mode == TracingWriterMode::Stderr || (self.writer_mode
                == TracingWriterMode::Stdio && (level == LevelFilter::Error || level
                == LevelFilter::Warn)) {
                WriterTarget::Stderr
            } else {
                WriterTarget::Stdout
            },
    {
        if self.writer_mode == TracingWriterMode::Stderr || (self.writer_mode
            == TracingWriterMode::Stdio && (level == LevelFilter::Error || level
            == LevelFilter::Warn)) {
            return WriterTarget::Stderr;
        }
        WriterTarget::Stdout
    }
}

/// What was asked for when logging was set up.
#[derive(Clone, Copy, Debug, PartialEq, Eq, Structural)]
pub struct TracingSubscriberOptions {
    pub verbosity: Option<u8>,
    pub silent: Option<bool>,
    pub log_level: Option<LevelFilter>,
    pub writer_mode: Option<TracingWriterMode>,
}

impl Default for TracingSubscriberOptions {
    /// Nothing was asked for.
    fn default() -> (r: TracingSubscriberOptions)
        ensures
            r.verbosity is None,
            r.silent is None,
            r.log_level is None,
            r.writer_mode is None,
    {
        TracingSubscriberOptions {
            verbosity: None,
            silent: None,
            log_level: None,
            writer_mode: None,
        }
    }
}

impl TracingSubscriberOptions {
    /// The level that the options ask for: the level named, else the one that
    /// the verbosity stands for (1 for debug, 2 for trace), else off where
    /// silence was asked for. `None` where they ask for none.
    pub open spec fn wanted_level(self) -> Option<LevelFilter> {
        if self.log_level is Some {
            self.log_level
        } else if self.verbosity == Some(1u8) {
            Some(LevelFilter::Debug)
        } else if self.verbosity == Some(2u8) {
            Some(LevelFilter::Trace)
        } else if self.silent == Some(true) {
            Some(LevelFilter::Off)
        } else {
            None
        }
    }

    /// The level that the options ask for.
    pub fn level_filter(&self) -> (r: Option<LevelFilter>)
        ensures
            r == self.wanted_level(),
    {
        if let Some(level) = self.log_level {
            return Some(level);
        }
        if let Some(verbosity) = self.verbosity {
            if verbosity == 1 {
                return Some(LevelFilter::Debug);
            }
            if verbosity == 2 {
                return Some(LevelFilter::Trace);
            }
        }
        if let Some(silent) = self.silent {
            if silent {
                return Some(LevelFilter::Off);
            }
        }
        None
    }

    /// The writer that the options ask for; the split streams where they ask
    /// for none.
    pub fn writer(&self) -> (r: StdioTracingWriter)
        ensures
            r.writer_mode == match self.writer_mode {
                Some(mode) => mode,
                None => TracingWriterMode::Stdio,
            },
    {
        match self.writer_mode {
            Some(mode) => StdioTracingWriter { writer_mode: mode },
            None => StdioTracingWriter { writer_mode: TracingWriterMode::Stdio },
        }
    }
}

} // verus!
