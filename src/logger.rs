//! Settings of the spans that describe incoming requests.

use vstd::prelude::*;

verus! {

/// How severe a traced event is, from the most to the least.
#[derive(Debug, Clone, Copy, PartialEq, Eq, Structural)]
pub enum LogLevel {
    Error,
    Warn,
    Info,
    Debug,
    Trace,
}

/// The level request spans get unless told otherwise.
pub const DEFAULT_MESSAGE_LEVEL: LogLevel = LogLevel::Info;

/// How a request span is made: at which level, and whether it lists the
/// request's headers.
#[derive(Debug, Clone, Copy, PartialEq, Eq, Structural)]
pub struct MicroUrlMakeSpan {
    level: LogLevel,
    include_headers: bool,
}

impl MicroUrlMakeSpan {
    pub closed spec fn spec_level(&self) -> LogLevel {
        self.level
    }

    pub closed spec fn spec_include_headers(&self) -> bool {
        self.include_headers
    }

    /// Spans at the default level, without headers.
    pub fn new() -> (r: Self)
        ensures
            r.spec_level() == DEFAULT_MESSAGE_LEVEL,
            !r.spec_include_headers(),
    {
        MicroUrlMakeSpan { level: DEFAULT_MESSAGE_LEVEL, include_headers: false }
    }

    /// The same settings with spans at `level`.
    pub fn level(self, level: LogLevel) -> (r: Self)
        ensures
            r.spec_level() == level,
            r.spec_include_headers() == self.spec_include_headers(),
    {
        MicroUrlMakeSpan { level, ..self }
    }

    /// The same settings, listing headers or not.
    pub fn include_headers(self, include_headers: bool) -> (r: Self)
        ensures
            r.spec_level() == self.spec_level(),
            r.spec_include_headers() == include_headers,
    {
        MicroUrlMakeSpan { include_headers, ..self }
    }

    /// The level spans are made at.
    pub fn get_level(&self) -> (r: LogLevel)
        ensures
            r == self.spec_level(),
    {
        self.level
    }

    /// Whether spans list the request's headers.
    pub fn lists_headers(&self) -> (r: bool)
        ensures
            r == self.spec_include_headers(),
    {
        self.include_headers
    }
}

impl Default for MicroUrlMakeSpan {
    fn default() -> (r: Self)
        ensures
            r.spec_level() == DEFAULT_MESSAGE_LEVEL,
            !r.spec_include_headers(),
    {
        Self::new()
    }
}

} // verus!
