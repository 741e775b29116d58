use vstd::prelude::*;

verus! {

/// How much of the log is kept, from nothing to everything.
#[derive(Clone, Copy, Debug, PartialEq, Eq, Structural)]
pub enum LevelFilter {
    Off,
    Error,
    Warn,
    Info,
    Debug,
    Trace,
}

#[derive(Clone, Copy, Debug, PartialEq, Eq, Structural)]
pub struct LoggerConfig {
    pub level_filter: LevelFilter,
}

impl Default for LoggerConfig {
    fn default() -> (c: Self)
        ensures
            c.level_filter == LevelFilter::Info,
    {
        LoggerConfig { level_filter: LevelFilter::Info }
    }
}

} // verus!
