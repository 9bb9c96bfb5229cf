//! The menus of the app.

use vstd::prelude::*;

verus! {

/// The name that the app's own menu has.
pub const APPLICATION_NAME: &'static str = "NEO";

/// A menu.
#[derive(Clone, Copy, Debug)]
pub enum Menu {
    /// The app's own menu, under this name.
    Application(&'static str),
    Window,
    Help,
}

/// The menus that an app shows.
#[derive(Debug)]
pub struct App {
    pub menus: Vec<Menu>,
}

/// Gives the app its menus: its own, that for windows and that for help, in this order, in the place
/// of any others.
pub fn install(cx: &mut App)
    ensures
        final(cx).menus@ == seq![Menu::Application(APPLICATION_NAME), Menu::Window, Menu::Help],
{
    cx.menus = vec![Menu::Application(APPLICATION_NAME), Menu::Window, Menu::Help];
    assert(cx.menus@ == seq![Menu::Application(APPLICATION_NAME), Menu::Window, Menu::Help]);
}

} // verus!
