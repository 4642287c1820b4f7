use vstd::prelude::*;
use crate::menu::{menu_after_keys, option_side, ActiveSide, Menu, MenuKeys, MenuView};

verus! {

/// The keys and buttons pressed since the last frame.
#[derive(Clone, Copy)]
pub struct AppKeys {
    pub escape: bool,
    pub arrow_up: bool,
    pub arrow_down: bool,
    pub enter: bool,
    pub space: bool,
    pub h: bool,
    pub f: bool,
    pub f11: bool,
    pub e: bool,
    pub equal: bool,
    pub minus: bool,
    pub right_click: bool,
    /// The digit keys one to eight.
    pub digits: [bool; 8],
}

/// What the application does with the world and the window after a frame's input.
#[derive(Clone, Copy, PartialEq, Eq, Debug)]
pub struct AppActions {
    /// The menu was touched: restart the wait before it closes by itself.
    pub menu_touched: bool,
    /// The window title is to show the current visualisation.
    pub title_changed: bool,
    /// Switch the world to its next visual mode.
    pub toggle_mode: bool,
    /// Apply the new full-screen setting to the window.
    pub fullscreen_changed: bool,
    /// Set off an explosion at the centre of the line view.
    pub centre_explosion: bool,
    /// Set off an explosion at the mouse, if the mouse is over the line view.
    pub mouse_explosion: bool,
    /// Add lines to the world.
    pub add_lines: bool,
    /// Remove lines from the world.
    pub remove_lines: bool,
}

/// The visualisation that digit key `k + 1` selects.
pub open spec fn digit_side(k: int) -> ActiveSide {
    if k == 0 {
        ActiveSide::Original
    } else if k == 1 {
        ActiveSide::Circular
    } else if k == 2 {
        ActiveSide::Full
    } else if k == 3 {
        ActiveSide::RayPattern
    } else if k == 4 {
        ActiveSide::Pythagoras
    } else if k == 5 {
        ActiveSide::FibonacciSpiral
    } else if k == 6 {
        ActiveSide::SimpleProof
    } else {
        ActiveSide::Combined
    }
}

/// The lowest digit key pressed, if any, from `k` on.
pub open spec fn first_digit_from(digits: Seq<bool>, k: int) -> Option<int>
    decreases 8 - k,
{
    if k >= 8 {
        None
    } else if digits[k] {
        Some(k)
    } else {
        first_digit_from(digits, k + 1)
    }
}

/// The state of the application that input changes, besides the world.
pub struct AppState {
    pub menu: Menu,
    pub active_side: ActiveSide,
    pub is_fullscreen: bool,
    pub show_help: bool,
    pub should_quit: bool,
}

/// What the application's state holds.
pub struct AppStateView {
    pub menu: MenuView,
    pub active_side: ActiveSide,
    pub is_fullscreen: bool,
    pub show_help: bool,
}

/// The menu keys among the pressed ones.
pub open spec fn menu_keys_of(keys: AppKeys) -> MenuKeys {
    MenuKeys { escape: keys.escape, arrow_up: keys.arrow_up, arrow_down: keys.arrow_down, enter: keys.enter, space: keys.space }
}

/// No action.
pub open spec fn no_actions() -> AppActions {
    AppActions {
        menu_touched: false,
        title_changed: false,
        toggle_mode: false,
        fullscreen_changed: false,
        centre_explosion: false,
        mouse_explosion: false,
        add_lines: false,
        remove_lines: false,
    }
}

/// The state and actions after a frame's `keys`. While the menu is open it takes the
/// keys, and a choice made there becomes the visualisation shown. Otherwise Escape opens
/// the menu, Space switches the visual mode, H toggles the help, F or F11 toggles full
/// screen, E and a right click set off explosions, `=` and `-` add and remove lines, and
/// the lowest digit key pressed selects a visualisation.
pub open spec fn after_keys(s: AppStateView, keys: AppKeys) -> (AppStateView, AppActions) {
    if s.menu.visible {
        let m = menu_after_keys(s.menu, menu_keys_of(keys));
        if m.has_made_selection {
            (
                AppStateView {
                    menu: MenuView { has_made_selection: false, ..m },
                    active_side: option_side(m.active_index),
                    ..s
                },
                AppActions { menu_touched: true, title_changed: true, ..no_actions() },
            )
        } else {
            (AppStateView { menu: m, ..s }, AppActions { menu_touched: true, ..no_actions() })
        }
    } else {
        let fullscreen_key = keys.f || keys.f11;
        let digit = first_digit_from(keys.digits@, 0);
        (
            AppStateView {
                menu: MenuView { visible: keys.escape, ..s.menu },
                active_side: match digit {
                    Some(k) => digit_side(k),
                    None => s.active_side,
                },
                is_fullscreen: s.is_fullscreen != fullscreen_key,
                show_help: s.show_help != keys.h,
            },
            AppActions {
                menu_touched: keys.escape,
                title_changed: keys.space || keys.h || keys.equal || keys.minus || digit is Some,
                toggle_mode: keys.space,
                fullscreen_changed: fullscreen_key,
                centre_explosion: keys.e,
                mouse_explosion: keys.right_click,
                add_lines: keys.equal,
                remove_lines: keys.minus,
            },
        )
    }
}

impl AppState {
    /// What the state holds.
    pub open spec fn view_of(&self) -> AppStateView {
        AppStateView {
            menu: self.menu@,
            active_side: self.active_side,
            is_fullscreen: self.is_fullscreen,
            show_help: self.show_help,
        }
    }

    /// The starting state: the menu open, the circular visualisation behind it, windowed,
    /// without help.
    pub fn new() -> (s: AppState)
        ensures
            s.menu.wf(),
            s.menu@ == (MenuView { visible: true, active_index: 0, has_made_selection: false }),
            s.active_side == ActiveSide::Circular,
            !s.is_fullscreen,
            !s.show_help,
            !s.should_quit,
    {
        AppState {
            menu: Menu::new(),
            active_side: ActiveSide::Circular,
            is_fullscreen: false,
            show_help: false,
            should_quit: false,
        }
    }

    /// Takes a frame's keys and tells the application what to do with the world and the
    /// window.
    pub fn handle_keys(&mut self, keys: AppKeys) -> (actions: AppActions)
        requires
            old(self).menu.wf(),
        ensures
            final(self).menu.wf(),
            final(self).should_quit == old(self).should_quit,
            (final(self).view_of(), actions) == after_keys(old(self).view_of(), keys),
    {
        if self.menu.is_visible() {
            let menu_keys = MenuKeys {
                escape: keys.escape,
                arrow_up: keys.arrow_up,
                arrow_down: keys.arrow_down,
                enter: keys.enter,
                space: keys.space,
            };
            let touched = self.menu.handle_keys(menu_keys);
            let mut actions = AppActions {
                menu_touched: touched,
                title_changed: false,
                toggle_mode: false,
                fullscreen_changed: false,
                centre_explosion: false,
                mouse_explosion: false,
                add_lines: false,
                remove_lines: false,
            };
            if self.menu.has_made_selection() {
                self.active_side = self.menu.get_selected_visualization();
                self.menu.reset_selection();
                actions.title_changed = true;
            }
            return actions;
        }
        let mut actions = AppActions {
            menu_touched: false,
            title_changed: false,
            toggle_mode: false,
            fullscreen_changed: false,
            centre_explosion: false,
            mouse_explosion: false,
            add_lines: false,
            remove_lines: false,
        };
        if keys.escape {
            actions.menu_touched = self.menu.toggle_visibility();
        }
        if keys.space {
            actions.toggle_mode = true;
            actions.title_changed = true;
        }
        if keys.h {
            self.show_help = !self.show_help;
            actions.title_changed = true;
        }
        if keys.f || keys.f11 {
            self.is_fullscreen = !self.is_fullscreen;
            actions.fullscreen_changed = true;
        }
        if keys.e {
            actions.centre_explosion = true;
        }
        if keys.right_click {
            actions.mouse_explosion = true;
        }
        if keys.equal {
            actions.add_lines = true;
            actions.title_changed = true;
        }
        if keys.minus {
            actions.remove_lines = true;
            actions.title_changed = true;
        }
        let mut k: usize = 0;
        let mut chosen: Option<usize> = None;
        while k < 8
            invariant
                k <= 8,
                first_digit_from(keys.digits@, 0) == match chosen {
                    Some(c) => Some(c as int),
                    None => first_digit_from(keys.digits@, k as int),
                },
                chosen matches Some(c) ==> c < 8,
            decreases 8 - k,
        {
            if chosen.is_none() && keys.digits[k] {
                chosen = Some(k);
            }
            k = k + 1;
        }
        match chosen {
            Some(c) => {
                self.active_side = side_for_digit(c);
                actions.title_changed = true;
            },
            None => {},
        }
        actions
    }
}

/// The visualisation that digit key `k + 1` selects.
fn side_for_digit(k: usize) -> (side: ActiveSide)
    requires
        k < 8,
    ensures
        side == digit_side(k as int),
{
    if k == 0 {
        ActiveSide::Original
    } else if k == 1 {
        ActiveSide::Circular
    } else if k == 2 {
        ActiveSide::Full
    } else if k == 3 {
        ActiveSide::RayPattern
    } else if k == 4 {
        ActiveSide::Pythagoras
    } else if k == 5 {
        ActiveSide::FibonacciSpiral
    } else if k == 6 {
        ActiveSide::SimpleProof
    } else {
        ActiveSide::Combined
    }
}

} // verus!
