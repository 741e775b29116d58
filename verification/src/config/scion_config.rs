use vstd::prelude::*;
use crate::config::logger_config::LoggerConfig;
use crate::config::window_config::WindowConfig;

verus! {

/// Main configuration of an application.
#[derive(Clone, Debug)]
pub struct ScionConfig {
    /// Name of the application.
    pub app_name: String,
    /// Logger configuration, where the application logs.
    pub logger_config: Option<LoggerConfig>,
    /// Window configuration. Without one the application runs with no window.
    pub window_config: Option<WindowConfig>,
}

impl Default for ScionConfig {
    fn default() -> (c: Self)
        ensures
            c.app_name@ == "Scion game"@,
            c.logger_config is None,
            c.window_config is None,
    {
        ScionConfig { app_name: "Scion game".to_owned(), logger_config: None, window_config: None }
    }
}

/// Builder of an application configuration, starting from the default one.
pub struct ScionConfigBuilder {
    config: ScionConfig,
}

impl ScionConfigBuilder {
    /// The configuration built so far.
    pub closed spec fn view(&self) -> ScionConfig {
        self.config
    }

    pub fn new() -> (b: Self)
        ensures
            b@.app_name@ == "Scion game"@,
            b@.logger_config is None,
            b@.window_config is None,
    {
        ScionConfigBuilder { config: ScionConfig::default() }
    }

    pub fn with_app_name(self, app_name: String) -> (b: Self)
        ensures
            b@ == (ScionConfig { app_name, ..self@ }),
    {
        let mut config = self.config;
        config.app_name = app_name;
        ScionConfigBuilder { config }
    }

    pub fn with_logger_config(self, logger_config: LoggerConfig) -> (b: Self)
        ensures
            b@ == (ScionConfig { logger_config: Some(logger_config), ..self@ }),
    {
        let mut config = self.config;
        config.logger_config = Some(logger_config);
        ScionConfigBuilder { config }
    }

    pub fn with_window_config(self, window_config: WindowConfig) -> (b: Self)
        ensures
            b@ == (ScionConfig { window_config: Some(window_config), ..self@ }),
    {
        let mut config = self.config;
        config.window_config = Some(window_config);
        ScionConfigBuilder { config }
    }

    pub fn get(self) -> (c: ScionConfig)
        ensures
            c == self@,
    {
        self.config
    }
}

} // verus!
