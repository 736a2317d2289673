//! Colour themes: the palette of each theme and the switch between them.
use vstd::prelude::*;
use crate::text::str_eq;

verus! {

broadcast use vstd::string::group_string_axioms;

/// An 8-bit colour with alpha, as egui stores it.
#[derive(Debug, Clone, Copy, PartialEq, Eq, Structural)]
pub struct Rgba8 {
    pub r: u8,
    pub g: u8,
    pub b: u8,
    pub a: u8,
}

/// The opaque colour with these channels.
pub open spec fn rgb(r: u8, g: u8, b: u8) -> Rgba8 {
    Rgba8 { r, g, b, a: 255 }
}

/// Whether `c` is a hexadecimal digit.
pub open spec fn is_hex(c: char) -> bool {
    ('0' <= c && c <= '9') || ('a' <= c && c <= 'f') || ('A' <= c && c <= 'F')
}

/// The value of a hexadecimal digit.
pub open spec fn hex_value(c: char) -> int {
    if '0' <= c && c <= '9' {
        c as int - '0' as int
    } else if 'a' <= c && c <= 'f' {
        c as int - 'a' as int + 10
    } else {
        c as int - 'A' as int + 10
    }
}

/// The byte written by two hexadecimal digits.
pub open spec fn hex_byte(hi: char, lo: char) -> u8 {
    (hex_value(hi) * 16 + hex_value(lo)) as u8
}

/// The colour a `#rrggbb` string denotes; `None` for a string of another shape.
pub open spec fn hex6_color(s: Seq<char>) -> Option<Rgba8> {
    if s.len() == 7 && s[0] == '#' && is_hex(s[1]) && is_hex(s[2]) && is_hex(s[3]) && is_hex(s[4])
        && is_hex(s[5]) && is_hex(s[6]) {
        Some(rgb(hex_byte(s[1], s[2]), hex_byte(s[3], s[4]), hex_byte(s[5], s[6])))
    } else {
        None
    }
}

/// `egui::Color32::from_hex`, read back as its four channels.
///
/// Stated: a `#` followed by six hexadecimal digits gives the opaque colour
/// they write, and a string that does not start with `#` gives `None`. Left
/// unsaid: the three-, four- and eight-digit forms, whose translucent values
/// egui rounds through floating point, and the digit strings Rust's radix
/// parser also accepts with a leading `+`.
#[verifier::external_body]
fn color_from_hex(hex: &str) -> (c: Option<Rgba8>)
    ensures
        hex6_color(hex@) is Some ==> c == hex6_color(hex@),
        (hex@.len() == 0 || hex@[0] != '#') ==> c is None,
{
    match egui::Color32::from_hex(hex) {
        Ok(c) => Some(Rgba8 { r: c.r(), g: c.g(), b: c.b(), a: c.a() }),
        Err(_) => None,
    }
}

/// The colour of a `#rrggbb` string.
fn hex(s: &str) -> (c: Rgba8)
    requires
        hex6_color(s@) is Some,
    ensures
        hex6_color(s@) == Some(c),
{
    color_from_hex(s).unwrap()
}

/// The colour roles of a theme.
#[derive(Debug, Clone, Copy, PartialEq, Eq, Structural)]
pub struct Colors {
    pub primary: Rgba8,
    pub on_primary: Rgba8,
    pub primary_container: Rgba8,
    pub on_primary_container: Rgba8,
    pub secondary: Rgba8,
    pub on_secondary: Rgba8,
    pub secondary_container: Rgba8,
    pub on_secondary_container: Rgba8,
    pub surface_dim: Rgba8,
    pub surface: Rgba8,
    pub surface_bright: Rgba8,
    pub surface_container_low: Rgba8,
    pub surface_container: Rgba8,
    pub surface_container_high: Rgba8,
    pub on_surface: Rgba8,
    pub on_surface_variant: Rgba8,
    pub outline: Rgba8,
    pub outline_variant: Rgba8,
    pub success: Rgba8,
    pub on_success: Rgba8,
    pub success_container: Rgba8,
    pub on_success_container: Rgba8,
    pub error: Rgba8,
    pub on_error: Rgba8,
    pub error_container: Rgba8,
    pub on_error_container: Rgba8,
}

/// The dark palette.
pub open spec fn dark_colors() -> Colors {
    Colors {
        primary: rgb(0xaa, 0xc7, 0xff),
        on_primary: rgb(0x0a, 0x30, 0x5f),
        primary_container: rgb(0x28, 0x47, 0x77),
        on_primary_container: rgb(0xd6, 0xe3, 0xff),
        secondary: rgb(0xbe, 0xc6, 0xdc),
        on_secondary: rgb(0x28, 0x31, 0x41),
        secondary_container: rgb(0x3e, 0x47, 0x59),
        on_secondary_container: rgb(0xda, 0xe2, 0xf9),
        surface_dim: rgb(0x11, 0x13, 0x18),
        surface: rgb(0x11, 0x13, 0x18),
        surface_bright: rgb(0x37, 0x39, 0x3e),
        surface_container_low: rgb(0x19, 0x1c, 0x20),
        surface_container: rgb(0x1d, 0x20, 0x24),
        surface_container_high: rgb(0x28, 0x2a, 0x2f),
        on_surface: rgb(0xe2, 0xe2, 0xe9),
        on_surface_variant: rgb(0xc4, 0xc6, 0xd0),
        outline: rgb(0x8e, 0x90, 0x99),
        outline_variant: rgb(0x44, 0x47, 0x4e),
        success: rgb(0x00, 0x6d, 0x3a),
        on_success: rgb(0xff, 0xff, 0xff),
        success_container: rgb(0x89, 0xf6, 0xa7),
        on_success_container: rgb(0x00, 0x21, 0x10),
        error: rgb(0xff, 0xb4, 0xab),
        on_error: rgb(0x69, 0x00, 0x05),
        error_container: rgb(0x93, 0x00, 0x0a),
        on_error_container: rgb(0xff, 0xda, 0xd6),
    }
}

/// The light palette.
pub open spec fn light_colors() -> Colors {
    Colors {
        primary: rgb(0x41, 0x5f, 0x91),
        on_primary: rgb(0xff, 0xff, 0xff),
        primary_container: rgb(0xd6, 0xe3, 0xff),
        on_primary_container: rgb(0x28, 0x47, 0x77),
        secondary: rgb(0x56, 0x5f, 0x71),
        on_secondary: rgb(0xff, 0xff, 0xff),
        secondary_container: rgb(0xda, 0xe2, 0xf9),
        on_secondary_container: rgb(0x3e, 0x47, 0x59),
        surface_dim: rgb(0xd9, 0xd9, 0xe0),
        surface: rgb(0xf9, 0xf9, 0xff),
        surface_bright: rgb(0xf9, 0xf9, 0xff),
        surface_container_low: rgb(0xf3, 0xf3, 0xfa),
        surface_container: rgb(0xed, 0xed, 0xf4),
        surface_container_high: rgb(0xe7, 0xe8, 0xee),
        on_surface: rgb(0x19, 0x1c, 0x20),
        on_surface_variant: rgb(0x44, 0x47, 0x4e),
        outline: rgb(0x74, 0x77, 0x7f),
        outline_variant: rgb(0xc4, 0xc6, 0xd0),
        success: rgb(0x6d, 0xd9, 0x8c),
        on_success: rgb(0x00, 0x39, 0x19),
        success_container: rgb(0x00, 0x52, 0x27),
        on_success_container: rgb(0x89, 0xf6, 0xa7),
        error: rgb(0xba, 0x1a, 0x1a),
        on_error: rgb(0xff, 0xff, 0xff),
        error_container: rgb(0xff, 0xda, 0xd6),
        on_error_container: rgb(0x93, 0x00, 0x0a),
    }
}

impl Colors {
    /// The dark palette.
    pub fn dark() -> (c: Colors)
        ensures
            c == dark_colors(),
    {
        proof {
            reveal_strlit("#aac7ff");
            reveal_strlit("#0a305f");
            reveal_strlit("#284777");
            reveal_strlit("#d6e3ff");
            reveal_strlit("#bec6dc");
            reveal_strlit("#283141");
            reveal_strlit("#3e4759");
            reveal_strlit("#dae2f9");
            reveal_strlit("#111318");
            reveal_strlit("#111318");
            reveal_strlit("#37393e");
            reveal_strlit("#191c20");
            reveal_strlit("#1d2024");
            reveal_strlit("#282a2f");
            reveal_strlit("#e2e2e9");
            reveal_strlit("#c4c6d0");
            reveal_strlit("#8e9099");
            reveal_strlit("#44474e");
            reveal_strlit("#006d3a");
            reveal_strlit("#ffffff");
            reveal_strlit("#89f6a7");
            reveal_strlit("#002110");
            reveal_strlit("#ffb4ab");
            reveal_strlit("#690005");
            reveal_strlit("#93000a");
            reveal_strlit("#ffdad6");
        }
        Colors {
            primary: hex("#aac7ff"),
            on_primary: hex("#0a305f"),
            primary_container: hex("#284777"),
            on_primary_container: hex("#d6e3ff"),
            secondary: hex("#bec6dc"),
            on_secondary: hex("#283141"),
            secondary_container: hex("#3e4759"),
            on_secondary_container: hex("#dae2f9"),
            surface_dim: hex("#111318"),
            surface: hex("#111318"),
            surface_bright: hex("#37393e"),
            surface_container_low: hex("#191c20"),
            surface_container: hex("#1d2024"),
            surface_container_high: hex("#282a2f"),
            on_surface: hex("#e2e2e9"),
            on_surface_variant: hex("#c4c6d0"),
            outline: hex("#8e9099"),
            outline_variant: hex("#44474e"),
            success: hex("#006d3a"),
            on_success: hex("#ffffff"),
            success_container: hex("#89f6a7"),
            on_success_container: hex("#002110"),
            error: hex("#ffb4ab"),
            on_error: hex("#690005"),
            error_container: hex("#93000a"),
            on_error_container: hex("#ffdad6"),
        }
    }

    /// The light palette.
    pub fn light() -> (c: Colors)
        ensures
            c == light_colors(),
    {
        proof {
            reveal_strlit("#415f91");
            reveal_strlit("#ffffff");
            reveal_strlit("#d6e3ff");
            reveal_strlit("#284777");
            reveal_strlit("#565f71");
            reveal_strlit("#ffffff");
            reveal_strlit("#dae2f9");
            reveal_strlit("#3e4759");
            reveal_strlit("#d9d9e0");
            reveal_strlit("#f9f9ff");
            reveal_strlit("#f9f9ff");
            reveal_strlit("#f3f3fa");
            reveal_strlit("#ededf4");
            reveal_strlit("#e7e8ee");
            reveal_strlit("#191c20");
            reveal_strlit("#44474e");
            reveal_strlit("#74777f");
            reveal_strlit("#c4c6d0");
            reveal_strlit("#6dd98c");
            reveal_strlit("#003919");
            reveal_strlit("#005227");
            reveal_strlit("#89f6a7");
            reveal_strlit("#ba1a1a");
            reveal_strlit("#ffffff");
            reveal_strlit("#ffdad6");
            reveal_strlit("#93000a");
        }
        Colors {
            primary: hex("#415f91"),
            on_primary: hex("#ffffff"),
            primary_container: hex("#d6e3ff"),
            on_primary_container: hex("#284777"),
            secondary: hex("#565f71"),
            on_secondary: hex("#ffffff"),
            secondary_container: hex("#dae2f9"),
            on_secondary_container: hex("#3e4759"),
            surface_dim: hex("#d9d9e0"),
            surface: hex("#f9f9ff"),
            surface_bright: hex("#f9f9ff"),
            surface_container_low: hex("#f3f3fa"),
            surface_container: hex("#ededf4"),
            surface_container_high: hex("#e7e8ee"),
            on_surface: hex("#191c20"),
            on_surface_variant: hex("#44474e"),
            outline: hex("#74777f"),
            outline_variant: hex("#c4c6d0"),
            success: hex("#6dd98c"),
            on_success: hex("#003919"),
            success_container: hex("#005227"),
            on_success_container: hex("#89f6a7"),
            error: hex("#ba1a1a"),
            on_error: hex("#ffffff"),
            error_container: hex("#ffdad6"),
            on_error_container: hex("#93000a"),
        }
    }
}

impl Default for Colors {
    fn default() -> (c: Colors)
        ensures
            c == dark_colors(),
    {
        Colors::dark()
    }
}

/// A named palette.
#[derive(Debug, Clone)]
pub struct Theme {
    pub name: String,
    pub colors: Colors,
}

/// The theme the toggle switches to from a theme named `name`: the light
/// theme from the dark one, the dark theme from any other.
pub open spec fn toggled_spec(name: Seq<char>) -> (Seq<char>, Colors) {
    if name == "Dark"@ {
        ("Light"@, light_colors())
    } else {
        ("Dark"@, dark_colors())
    }
}

impl Theme {
    /// The dark theme.
    pub fn dark() -> (t: Theme)
        ensures
            t.name@ == "Dark"@,
            t.colors == dark_colors(),
    {
        Theme { name: String::from_str("Dark"), colors: Colors::dark() }
    }

    /// The light theme.
    pub fn light() -> (t: Theme)
        ensures
            t.name@ == "Light"@,
            t.colors == light_colors(),
    {
        Theme { name: String::from_str("Light"), colors: Colors::light() }
    }

    /// The theme the settings toggle switches to.
    pub fn toggled(&self) -> (t: Theme)
        ensures
            (t.name@, t.colors) == toggled_spec(self.name@),
    {
        if str_eq(self.name.as_str(), "Dark") {
            Theme::light()
        } else {
            Theme::dark()
        }
    }
}

impl Default for Theme {
    fn default() -> (t: Theme)
        ensures
            t.name@ == "Dark"@,
            t.colors == dark_colors(),
    {
        Theme::dark()
    }
}

/// Toggling twice returns to the dark or the light theme one started from.
pub proof fn lemma_toggle_twice(name: Seq<char>)
    requires
        name == "Dark"@ || name == "Light"@,
    ensures
        toggled_spec(toggled_spec(name).0).0 == name,
        toggled_spec(toggled_spec(name).0).1 == (if name == "Dark"@ {
            dark_colors()
        } else {
            light_colors()
        }),
{
    reveal_strlit("Dark");
    reveal_strlit("Light");
    assert("Dark"@ != "Light"@) by {
        assert("Dark"@[0] != "Light"@[0]);
    }
}

} // verus!
