//! The theme of the app: a light and a dark palette, and which of them a window shows.

use vstd::prelude::*;

verus! {

/// A colour, as `0xrrggbbaa`.
#[derive(Clone, Copy, Debug, PartialEq, Eq, Structural)]
pub struct Rgba {
    pub hex: u32,
}

/// The colour `0xrrggbbaa`.
pub fn rgba(hex: u32) -> (colour: Rgba)
    ensures
        colour == (Rgba { hex }),
{
    Rgba { hex }
}

/// The appearances that the system gives windows.
#[derive(Clone, Copy, Debug, PartialEq, Eq, Structural)]
pub enum WindowAppearance {
    Light,
    VibrantLight,
    Dark,
    VibrantDark,
}

/// Which palette the app is to show.
#[derive(Clone, Copy, Debug, PartialEq, Eq, Structural)]
pub enum ThemeMode {
    FollowSystem,
    Light,
    Dark,
}

/// Which palette a window shows.
#[derive(Clone, Copy, Debug, PartialEq, Eq, Structural)]
pub enum ThemeAppearance {
    Light,
    Dark,
}

/// The palette for an appearance of the system.
pub open spec fn appearance_of(appearance: WindowAppearance) -> ThemeAppearance {
    match appearance {
        WindowAppearance::Light | WindowAppearance::VibrantLight => ThemeAppearance::Light,
        WindowAppearance::Dark | WindowAppearance::VibrantDark => ThemeAppearance::Dark,
    }
}

impl From<WindowAppearance> for ThemeAppearance {
    fn from(appearance: WindowAppearance) -> (result: Self) {
        match appearance {
            WindowAppearance::Light | WindowAppearance::VibrantLight => ThemeAppearance::Light,
            WindowAppearance::Dark | WindowAppearance::VibrantDark => ThemeAppearance::Dark,
        }
    }
}

impl vstd::std_specs::convert::FromSpecImpl<WindowAppearance> for ThemeAppearance {
    open spec fn obeys_from_spec() -> bool {
        true
    }

    open spec fn from_spec(appearance: WindowAppearance) -> Self {
        appearance_of(appearance)
    }
}

/// The colours of a palette.
#[derive(Clone, Copy, Debug, PartialEq, Eq, Structural)]
pub struct ThemeTokens {
    pub background: Rgba,
    pub grouped_background: Rgba,
    pub text: Rgba,
    pub muted_text: Rgba,
    pub accent: Rgba,
    pub glass_tint: Rgba,
}

/// The light palette.
pub open spec fn light_tokens() -> ThemeTokens {
    ThemeTokens {
        background: Rgba { hex: 0xf7faf9ff },
        grouped_background: Rgba { hex: 0xe9f1efff },
        text: Rgba { hex: 0x16201eff },
        muted_text: Rgba { hex: 0x60716dff },
        accent: Rgba { hex: 0x007f73ff },
        glass_tint: Rgba { hex: 0x48c9b044 },
    }
}

/// The dark palette.
pub open spec fn dark_tokens() -> ThemeTokens {
    ThemeTokens {
        background: Rgba { hex: 0x0e1716ff },
        grouped_background: Rgba { hex: 0x182422ff },
        text: Rgba { hex: 0xeaf5f2ff },
        muted_text: Rgba { hex: 0x94aaa5ff },
        accent: Rgba { hex: 0x56d5c2ff },
        glass_tint: Rgba { hex: 0x34bfae55 },
    }
}

impl ThemeTokens {
    /// The light palette.
    pub fn light() -> (tokens: Self)
        ensures
            tokens == light_tokens(),
    {
        ThemeTokens {
            background: rgba(0xf7faf9ff),
            grouped_background: rgba(0xe9f1efff),
            text: rgba(0x16201eff),
            muted_text: rgba(0x60716dff),
            accent: rgba(0x007f73ff),
            glass_tint: rgba(0x48c9b044),
        }
    }

    /// The dark palette.
    pub fn dark() -> (tokens: Self)
        ensures
            tokens == dark_tokens(),
    {
        ThemeTokens {
            background: rgba(0x0e1716ff),
            grouped_background: rgba(0x182422ff),
            text: rgba(0xeaf5f2ff),
            muted_text: rgba(0x94aaa5ff),
            accent: rgba(0x56d5c2ff),
            glass_tint: rgba(0x34bfae55),
        }
    }
}

/// A theme: a mode with the two palettes that it chooses from.
#[derive(Clone, Copy, Debug, PartialEq, Eq, Structural)]
pub struct Theme {
    pub mode: ThemeMode,
    pub light: ThemeTokens,
    pub dark: ThemeTokens,
}

/// What the theme decides in a running app.
#[derive(Clone, Copy, Debug)]
pub struct App {
    /// The appearance that all windows are given, where it is not left to the system.
    pub window_appearance: Option<WindowAppearance>,
    /// The theme, once one is installed.
    pub theme: Option<Theme>,
    /// Whether the windows are to be drawn anew.
    pub refresh_windows: bool,
}

/// What the theme reads of a window.
#[derive(Clone, Copy, Debug)]
pub struct Window {
    pub appearance: WindowAppearance,
}

/// The appearance that a mode gives all windows.
pub open spec fn override_of(mode: ThemeMode) -> Option<WindowAppearance> {
    match mode {
        ThemeMode::FollowSystem => None,
        ThemeMode::Light => Some(WindowAppearance::Light),
        ThemeMode::Dark => Some(WindowAppearance::Dark),
    }
}

/// The appearance that a mode gives all windows.
pub fn window_appearance_override(mode: ThemeMode) -> (appearance: Option<WindowAppearance>)
    ensures
        appearance == override_of(mode),
{
    match mode {
        ThemeMode::FollowSystem => None,
        ThemeMode::Light => Some(WindowAppearance::Light),
        ThemeMode::Dark => Some(WindowAppearance::Dark),
    }
}

/// The palette that a mode shows in a window with the given appearance.
pub open spec fn shown(mode: ThemeMode, system: WindowAppearance) -> ThemeAppearance {
    match mode {
        ThemeMode::FollowSystem => appearance_of(system),
        ThemeMode::Light => ThemeAppearance::Light,
        ThemeMode::Dark => ThemeAppearance::Dark,
    }
}

impl Theme {
    /// Installs a theme with the two palettes in the app.
    pub fn install(mode: ThemeMode, cx: &mut App)
        ensures
            *final(cx) == (App {
                window_appearance: override_of(mode),
                theme: Some(Theme { mode, light: light_tokens(), dark: dark_tokens() }),
                refresh_windows: true,
            }),
    {
        cx.window_appearance = window_appearance_override(mode);
        cx.theme = Some(Theme { mode, light: ThemeTokens::light(), dark: ThemeTokens::dark() });
        cx.refresh_windows = true;
    }

    /// The theme that is installed in the app.
    pub fn global(cx: &App) -> (theme: &Self)
        requires
            cx.theme is Some,
        ensures
            cx.theme == Some(*theme),
    {
        match &cx.theme {
            Some(theme) => theme,
            None => vstd::pervasive::unreached(),
        }
    }

    /// Changes the mode of the theme that is installed in the app.
    pub fn set_mode(mode: ThemeMode, cx: &mut App)
        requires
            old(cx).theme is Some,
        ensures
            *final(cx) == (App {
                window_appearance: override_of(mode),
                theme: Some(Theme { mode, ..old(cx).theme->Some_0 }),
                refresh_windows: true,
            }),
    {
        cx.window_appearance = window_appearance_override(mode);
        let theme = *Theme::global(cx);
        cx.theme = Some(Theme { mode, ..theme });
        cx.refresh_windows = true;
    }

    /// The mode of the theme.
    pub fn mode(&self) -> (mode: ThemeMode)
        ensures
            mode == self.mode,
    {
        self.mode
    }

    /// Which palette a window shows.
    pub fn appearance(&self, window: &Window) -> (appearance: ThemeAppearance)
        ensures
            appearance == shown(self.mode, window.appearance),
    {
        match self.mode {
            ThemeMode::FollowSystem => ThemeAppearance::from(window.appearance),
            ThemeMode::Light => ThemeAppearance::Light,
            ThemeMode::Dark => ThemeAppearance::Dark,
        }
    }

    /// The colours that a window shows.
    pub fn tokens(&self, window: &Window) -> (tokens: &ThemeTokens)
        ensures
            *tokens == (match shown(self.mode, window.appearance) {
                ThemeAppearance::Light => self.light,
                ThemeAppearance::Dark => self.dark,
            }),
    {
        match self.appearance(window) {
            ThemeAppearance::Light => &self.light,
            ThemeAppearance::Dark => &self.dark,
        }
    }
}

/// A mode that overrides the system shows the palette of the appearance that it gives the windows,
/// whatever the system shows. The other mode follows the system, vibrant appearances with it.
pub proof fn law_modes_and_appearances_agree(mode: ThemeMode, system: WindowAppearance)
    ensures
        override_of(mode) is Some ==> shown(mode, system) == appearance_of(
            override_of(mode)->Some_0,
        ),
        override_of(mode) is None <==> mode == ThemeMode::FollowSystem,
        shown(ThemeMode::FollowSystem, system) == appearance_of(system),
        appearance_of(WindowAppearance::VibrantLight) == appearance_of(WindowAppearance::Light),
        appearance_of(WindowAppearance::VibrantDark) == appearance_of(WindowAppearance::Dark),
{
}

/// The two palettes differ in every colour.
pub proof fn law_palettes_are_distinct()
    ensures
        light_tokens() != dark_tokens(),
        light_tokens().background != dark_tokens().background,
        light_tokens().grouped_background != dark_tokens().grouped_background,
        light_tokens().text != dark_tokens().text,
        light_tokens().muted_text != dark_tokens().muted_text,
        light_tokens().accent != dark_tokens().accent,
        light_tokens().glass_tint != dark_tokens().glass_tint,
{
}

/// All colours of a palette but the tint of glass are opaque, and that one is not.
pub proof fn law_only_glass_is_translucent(light: bool)
    ensures
        ({
            let tokens = if light {
                light_tokens()
            } else {
                dark_tokens()
            };
            &&& tokens.background.hex % 256 == 255
            &&& tokens.grouped_background.hex % 256 == 255
            &&& tokens.text.hex % 256 == 255
            &&& tokens.muted_text.hex % 256 == 255
            &&& tokens.accent.hex % 256 == 255
            &&& 0 < tokens.glass_tint.hex % 256 < 255
        }),
{
}

/// A window is light where its mode is, or where it follows a system that is, and dark elsewhere.
pub proof fn law_windows_are_light_or_dark(mode: ThemeMode, system: WindowAppearance)
    ensures
        shown(mode, system) == ThemeAppearance::Light <==> mode == ThemeMode::Light || mode
            == ThemeMode::FollowSystem && (system == WindowAppearance::Light || system
            == WindowAppearance::VibrantLight),
        override_of(ThemeMode::Light) == Some(WindowAppearance::Light),
        override_of(ThemeMode::Dark) == Some(WindowAppearance::Dark),
{
}

} // verus!
