use scion::config::logger_config::{LevelFilter, LoggerConfig};
use scion::config::scion_config::{ScionConfig, ScionConfigBuilder};
use scion::config::window_config::{WindowConfig, WindowConfigBuilder};

#[test]
fn default_window_configuration() {
    let c = WindowConfig::default();
    assert_eq!(c.title, "Default Scion game");
    assert!(!c.fullscreen);
    assert_eq!(c.dimensions, Some((1024, 768)));
    assert_eq!(c.min_dimensions, Some((640, 480)));
    assert_eq!(c.max_dimensions, None);
    assert!(c.visibility);
    assert_eq!(c.icon, None);
    assert!(!c.always_on_top);
    assert!(c.decorations);
    assert!(!c.maximized);
    assert!(c.resizable);
    assert!(!c.transparent);
}

#[test]
fn window_builder_starts_from_the_default() {
    let c = WindowConfigBuilder::new().get();
    assert_eq!(c.title, "Default Scion game");
    assert_eq!(c.dimensions, Some((1024, 768)));
    assert_eq!(c.min_dimensions, Some((640, 480)));
}

#[test]
fn window_builder_sets_dimensions_only() {
    let c = WindowConfigBuilder::new().with_dimensions((768, 768)).get();
    assert_eq!(c.dimensions, Some((768, 768)));
    assert_eq!(c.min_dimensions, Some((640, 480)));
    assert_eq!(c.title, "Default Scion game");
    assert!(c.resizable);
    let again = WindowConfigBuilder::new().with_dimensions((1, 2)).with_dimensions((3, 4)).get();
    assert_eq!(again.dimensions, Some((3, 4)));
}

#[test]
fn default_logger_level_is_info() {
    assert_eq!(LoggerConfig::default().level_filter, LevelFilter::Info);
}

#[test]
fn default_application_configuration_has_no_window() {
    let c = ScionConfig::default();
    assert_eq!(c.app_name, "Scion game");
    assert!(c.logger_config.is_none());
    assert!(c.window_config.is_none());
}

#[test]
fn application_configuration_builder_sets_each_part() {
    let c = ScionConfigBuilder::new()
        .with_app_name("Taquin".to_string())
        .with_logger_config(LoggerConfig { level_filter: LevelFilter::Debug })
        .with_window_config(WindowConfigBuilder::new().with_dimensions((768, 768)).get())
        .get();
    assert_eq!(c.app_name, "Taquin");
    assert_eq!(c.logger_config, Some(LoggerConfig { level_filter: LevelFilter::Debug }));
    assert_eq!(c.window_config.unwrap().dimensions, Some((768, 768)));
}
