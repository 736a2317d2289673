use ergo_observer::theme::{Colors, Rgba8, Theme};
use ergo_observer::windows::{Toggle, WindowContent, WindowType, WindowsConfig};

#[test]
fn windows_open_and_close() {
    let mut w = WindowsConfig::default();
    assert!(w.active_windows().is_empty());
    w.open(WindowType::NodeConnect);
    assert_eq!(w.active_windows(), vec![WindowType::NodeConnect]);
    w.open(WindowType::Settings);
    w.open(WindowType::Settings);
    assert_eq!(w.active_windows(), vec![WindowType::Settings, WindowType::NodeConnect]);
    w.close(WindowType::NodeConnect);
    assert_eq!(w.active_windows(), vec![WindowType::Settings]);
    w.close(WindowType::NodeConnect);
    assert_eq!(w.active_windows(), vec![WindowType::Settings]);
}

#[test]
fn window_titles_and_default_map() {
    assert_eq!(WindowType::Settings.to_string(), "Settings");
    assert_eq!(WindowType::NodeConnect.to_string(), "Node Connect");
    assert_eq!(
        WindowType::default_map(),
        vec![(WindowType::Settings, false), (WindowType::NodeConnect, false)]
    );
    assert_eq!(WindowContent::new("Settings").title, "Settings");
}

#[test]
fn toggle_is_bound_to_the_flag() {
    let mut flag = false;
    {
        let mut t = Toggle::new(&mut flag);
        *t.value = !*t.value;
    }
    assert!(flag);
}

#[test]
fn palettes_hold_the_hex_colours() {
    let d = Colors::dark();
    assert_eq!(d.primary, Rgba8 { r: 0xaa, g: 0xc7, b: 0xff, a: 255 });
    assert_eq!(d.surface, Rgba8 { r: 0x11, g: 0x13, b: 0x18, a: 255 });
    assert_eq!(d.on_error_container, Rgba8 { r: 0xff, g: 0xda, b: 0xd6, a: 255 });
    let l = Colors::light();
    assert_eq!(l.primary, Rgba8 { r: 0x41, g: 0x5f, b: 0x91, a: 255 });
    assert_eq!(l.error, Rgba8 { r: 0xba, g: 0x1a, b: 0x1a, a: 255 });
    assert_eq!(Colors::default(), d);
}

#[test]
fn theme_toggles_between_dark_and_light() {
    let t = Theme::default();
    assert_eq!(t.name, "Dark");
    let l = t.toggled();
    assert_eq!(l.name, "Light");
    assert_eq!(l.colors, Colors::light());
    let d = l.toggled();
    assert_eq!(d.name, "Dark");
    assert_eq!(d.colors, Colors::dark());
    let odd = Theme { name: "Custom".to_string(), colors: Colors::light() };
    assert_eq!(odd.toggled().name, "Dark");
}
