//! The palettes of the app, and which of them a window shows.

use neo::menu::{self, Menu};
use neo::theme::{
    rgba, window_appearance_override, App, Theme, ThemeAppearance, ThemeMode, ThemeTokens, Window,
    WindowAppearance,
};

#[test]
fn owns_distinct_sea_glass_palettes() {
    let light = ThemeTokens::light();
    let dark = ThemeTokens::dark();

    assert_eq!(light.background, rgba(0xf7faf9ff));
    assert_eq!(light.accent, rgba(0x007f73ff));
    assert_eq!(light.glass_tint, rgba(0x48c9b044));
    assert_eq!(dark.background, rgba(0x0e1716ff));
    assert_eq!(dark.accent, rgba(0x56d5c2ff));
    assert_eq!(dark.glass_tint, rgba(0x34bfae55));
    assert_ne!(light, dark);
}

#[test]
fn maps_modes_and_vibrant_appearances_explicitly() {
    assert_eq!(window_appearance_override(ThemeMode::FollowSystem), None);
    assert_eq!(
        window_appearance_override(ThemeMode::Light),
        Some(WindowAppearance::Light)
    );
    assert_eq!(
        window_appearance_override(ThemeMode::Dark),
        Some(WindowAppearance::Dark)
    );
    assert_eq!(
        ThemeAppearance::from(WindowAppearance::VibrantLight),
        ThemeAppearance::Light
    );
    assert_eq!(
        ThemeAppearance::from(WindowAppearance::VibrantDark),
        ThemeAppearance::Dark
    );
}

#[test]
fn shows_the_palette_of_the_mode() {
    let mut cx = App {
        window_appearance: None,
        theme: None,
        refresh_windows: false,
    };
    Theme::install(ThemeMode::FollowSystem, &mut cx);
    assert_eq!(cx.window_appearance, None);
    assert!(cx.refresh_windows);
    let bright = Window {
        appearance: WindowAppearance::VibrantLight,
    };
    let dim = Window {
        appearance: WindowAppearance::Dark,
    };
    assert_eq!(*Theme::global(&cx).tokens(&bright), ThemeTokens::light());
    assert_eq!(*Theme::global(&cx).tokens(&dim), ThemeTokens::dark());

    cx.refresh_windows = false;
    Theme::set_mode(ThemeMode::Dark, &mut cx);
    assert_eq!(cx.window_appearance, Some(WindowAppearance::Dark));
    assert!(cx.refresh_windows);
    assert_eq!(Theme::global(&cx).mode(), ThemeMode::Dark);
    assert_eq!(
        Theme::global(&cx).appearance(&bright),
        ThemeAppearance::Dark
    );
    assert_eq!(*Theme::global(&cx).tokens(&bright), ThemeTokens::dark());
}

#[test]
fn installs_the_menus_in_order() {
    let mut cx = menu::App {
        menus: vec![Menu::Help],
    };
    menu::install(&mut cx);
    assert_eq!(cx.menus.len(), 3);
    assert!(matches!(cx.menus[0], Menu::Application("NEO")));
    assert!(matches!(cx.menus[1], Menu::Window));
    assert!(matches!(cx.menus[2], Menu::Help));
}
