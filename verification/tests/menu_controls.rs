use stimstation::color::Color;
use stimstation::controls::{AppKeys, AppState};
use stimstation::menu::{draw_rectangle, window_title, ActiveSide, Menu, MenuKeys};

fn keys() -> MenuKeys {
    MenuKeys { escape: false, arrow_up: false, arrow_down: false, enter: false, space: false }
}

fn app_keys() -> AppKeys {
    AppKeys {
        escape: false,
        arrow_up: false,
        arrow_down: false,
        enter: false,
        space: false,
        h: false,
        f: false,
        f11: false,
        e: false,
        equal: false,
        minus: false,
        right_click: false,
        digits: [false; 8],
    }
}

#[test]
fn menu_starts_open_on_the_first_entry() {
    let menu = Menu::new();
    assert!(menu.is_visible());
    assert!(!menu.has_made_selection());
    assert_eq!(menu.active_index(), 0);
    assert_eq!(menu.get_selected_visualization(), ActiveSide::Original);
    assert_eq!(menu.options().len(), 8);
    assert_eq!(menu.options()[4].name, "Fibonacci Spiral");
    assert_eq!(menu.options()[7].visualization, ActiveSide::Full);
}

#[test]
fn arrows_move_the_highlight_and_wrap() {
    let mut menu = Menu::new();
    let down = MenuKeys { arrow_down: true, ..keys() };
    let up = MenuKeys { arrow_up: true, ..keys() };
    assert!(menu.handle_keys(down));
    assert!(menu.handle_keys(down));
    assert!(menu.handle_keys(down));
    assert_eq!(menu.get_selected_visualization(), ActiveSide::Pythagoras);
    menu.handle_keys(up);
    menu.handle_keys(up);
    menu.handle_keys(up);
    assert_eq!(menu.active_index(), 0);
    menu.handle_keys(up);
    assert_eq!(menu.active_index(), 7);
    menu.handle_keys(down);
    assert_eq!(menu.active_index(), 0);
}

#[test]
fn enter_chooses_and_closes() {
    let mut menu = Menu::new();
    menu.handle_keys(MenuKeys { arrow_down: true, ..keys() });
    menu.handle_keys(MenuKeys { enter: true, ..keys() });
    assert!(!menu.is_visible());
    assert!(menu.has_made_selection());
    assert_eq!(menu.get_selected_visualization(), ActiveSide::Circular);
    menu.reset_selection();
    assert!(!menu.has_made_selection());
    assert!(!menu.handle_keys(MenuKeys { arrow_down: true, ..keys() }));
    assert!(menu.handle_keys(MenuKeys { escape: true, ..keys() }));
    assert!(menu.is_visible());
    assert!(!menu.toggle_visibility());
    assert!(menu.toggle_visibility());
    menu.time_out();
    assert!(!menu.is_visible());
}

#[test]
fn digits_select_visualizations_as_documented() {
    let mut app = AppState::new();
    assert_eq!(app.active_side, ActiveSide::Circular);
    let actions = app.handle_keys(AppKeys { escape: true, ..app_keys() });
    assert!(actions.menu_touched);
    assert!(!app.menu.is_visible());
    let mut digits = [false; 8];
    digits[3] = true;
    digits[5] = true;
    let actions = app.handle_keys(AppKeys { digits, ..app_keys() });
    assert!(actions.title_changed);
    assert_eq!(app.active_side, ActiveSide::RayPattern);
    let mut one = [false; 8];
    one[0] = true;
    app.handle_keys(AppKeys { digits: one, ..app_keys() });
    assert_eq!(app.active_side, ActiveSide::Original);
    let mut three = [false; 8];
    three[2] = true;
    app.handle_keys(AppKeys { digits: three, ..app_keys() });
    assert_eq!(app.active_side, ActiveSide::Full);
}

#[test]
fn hotkeys_toggle_and_request_actions() {
    let mut app = AppState::new();
    app.handle_keys(AppKeys { escape: true, ..app_keys() });
    let actions = app.handle_keys(AppKeys { h: true, f11: true, e: true, space: true, equal: true, ..app_keys() });
    assert!(app.show_help);
    assert!(app.is_fullscreen);
    assert!(actions.fullscreen_changed && actions.centre_explosion && actions.toggle_mode && actions.add_lines);
    assert!(!actions.remove_lines && !actions.mouse_explosion);
    app.handle_keys(AppKeys { h: true, f: true, ..app_keys() });
    assert!(!app.show_help);
    assert!(!app.is_fullscreen);
}

#[test]
fn menu_choice_becomes_the_visualization() {
    let mut app = AppState::new();
    app.handle_keys(AppKeys { arrow_down: true, ..app_keys() });
    app.handle_keys(AppKeys { arrow_down: true, ..app_keys() });
    let actions = app.handle_keys(AppKeys { space: true, ..app_keys() });
    assert!(actions.title_changed);
    assert!(!actions.toggle_mode);
    assert_eq!(app.active_side, ActiveSide::RayPattern);
    assert!(!app.menu.is_visible());
    assert!(!app.menu.has_made_selection());
}

#[test]
fn titles_name_the_visualization() {
    assert_eq!(window_title(ActiveSide::Pythagoras), "StimStation - Pythagoras Theorem");
    assert_eq!(window_title(ActiveSide::Combined), "StimStation - Combined Experience");
}

#[test]
fn menu_rectangle_is_clipped() {
    let mut frame = vec![0u8; 4 * 4 * 4];
    draw_rectangle(&mut frame, -1, -1, 3, 3, Color::new(1, 2, 3), 4);
    assert_eq!(&frame[0..4], &[1, 2, 3, 255]);
    assert_eq!(&frame[4..8], &[1, 2, 3, 255]);
    assert_eq!(&frame[8..12], &[0, 0, 0, 0]);
    assert_eq!(frame.iter().filter(|&&b| b == 255).count(), 4);
    draw_rectangle(&mut frame, 0, 0, 0, 3, Color::new(9, 9, 9), 4);
    assert_eq!(frame.iter().filter(|&&b| b == 9).count(), 0);
}

#[test]
fn menu_darkens_to_fifteen_hundredths_and_lays_out_its_panel() {
    let mut frame = vec![200u8, 100, 7, 255, 255, 0, 99, 9, 50, 50, 50, 50];
    stimstation::menu::darken_scene(&mut frame, 2, 1);
    assert_eq!(frame, vec![30, 15, 1, 255, 38, 0, 14, 9, 50, 50, 50, 50]);
    assert_eq!(stimstation::menu::menu_panel(800, 600), (200, 80, 400, 440));
    assert_eq!(stimstation::menu::option_top(600, 2), 270);
    assert_eq!(stimstation::menu::option_highlight(800, 600, 2, 100), (330, 265, 140, 30));
}
