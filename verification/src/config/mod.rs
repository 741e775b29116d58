pub mod logger_config;
pub mod scion_config;
pub mod window_config;
