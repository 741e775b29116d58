use vstd::prelude::*;

verus! {

/// Main configuration for the game window.
#[derive(Clone, Debug)]
pub struct WindowConfig {
    /// Window title.
    pub title: String,
    /// Enables fullscreen mode.
    pub fullscreen: bool,
    /// Default window width and height in pixels.
    pub dimensions: Option<(u32, u32)>,
    /// Minimum window width and height in pixels.
    pub min_dimensions: Option<(u32, u32)>,
    /// Maximum window width and height in pixels.
    pub max_dimensions: Option<(u32, u32)>,
    /// Whether to display the window.
    pub visibility: bool,
    /// The path, relative to the game executable, of the window icon.
    pub icon: Option<String>,
    /// Whether the window should always be on top of other windows.
    pub always_on_top: bool,
    /// Whether the window should have borders and bars.
    pub decorations: bool,
    /// Whether the window should be maximized upon creation.
    pub maximized: bool,
    /// Whether the user can resize the window.
    pub resizable: bool,
    /// Whether the window should be able to be transparent.
    pub transparent: bool,
}

/// The configuration of a window that nobody configured.
pub open spec fn is_default_window(c: WindowConfig) -> bool {
    &&& c.title@ == "Default Scion game"@
    &&& !c.fullscreen
    &&& c.dimensions == Some((1024u32, 768u32))
    &&& c.min_dimensions == Some((640u32, 480u32))
    &&& c.max_dimensions is None
    &&& c.visibility
    &&& c.icon is None
    &&& !c.always_on_top
    &&& c.decorations
    &&& !c.maximized
    &&& c.resizable
    &&& !c.transparent
}

impl Default for WindowConfig {
    fn default() -> (c: Self)
        ensures
            is_default_window(c),
    {
        WindowConfig {
            title: "Default Scion game".to_owned(),
            fullscreen: false,
            dimensions: Some((1024, 768)),
            min_dimensions: Some((640, 480)),
            max_dimensions: None,
            visibility: true,
            icon: None,
            always_on_top: false,
            decorations: true,
            maximized: false,
            resizable: true,
            transparent: false,
        }
    }
}

/// Builder of a window configuration, starting from the default one.
pub struct WindowConfigBuilder {
    config: WindowConfig,
}

impl WindowConfigBuilder {
    /// The configuration built so far.
    pub closed spec fn view(&self) -> WindowConfig {
        self.config
    }

    pub fn new() -> (b: Self)
        ensures
            is_default_window(b@),
    {
        WindowConfigBuilder { config: WindowConfig::default() }
    }

    pub fn with_dimensions(self, dimensions: (u32, u32)) -> (b: Self)
        ensures
            b@ == (WindowConfig { dimensions: Some(dimensions), ..self@ }),
    {
        let mut config = self.config;
        config.dimensions = Some(dimensions);
        WindowConfigBuilder { config }
    }

    pub fn get(self) -> (c: WindowConfig)
        ensures
            c == self@,
    {
        self.config
    }
}

} // verus!
