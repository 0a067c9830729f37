//! Appearance settings.
//!
//! Global rather than per-terminal, deliberately: one look for every tab is
//! what makes a window of mixed shells read as one application.
//!
//! Every field has a default that reproduces the look Shaman shipped with, so
//! an absent or partial settings file is not an error and a new field added
//! here does not invalidate an existing file.
use vstd::prelude::*;

use crate::text::{chars_of, trim, trim_seq};

verus! {

/// How the cursor is drawn. Mirrors xterm's `cursorStyle`.
#[derive(Debug, Clone, Copy, PartialEq, Eq, Structural)]
pub enum CursorShape {
    Block,
    Bar,
    Underline,
}

impl Default for CursorShape {
    fn default() -> (r: Self)
        ensures
            r == CursorShape::Block,
    {
        CursorShape::Block
    }
}

/// The material drawn behind a translucent window.
///
/// `Plain` is a plain translucent window with nothing behind it; `Acrylic` is
/// the frosted blur Windows Terminal uses. Mica is deliberately absent: it
/// tints from the desktop wallpaper and ignores opacity, which makes it fight
/// the opacity slider rather than compose with it.
#[derive(Debug, Clone, Copy, PartialEq, Eq, Structural)]
pub enum Material {
    Plain,
    Acrylic,
}

impl Default for Material {
    fn default() -> (r: Self)
        ensures
            r == Material::Plain,
    {
        Material::Plain
    }
}

pub fn default_font_family() -> (r: String)
    ensures
        r@ == "Cascadia Mono"@,
{
    "Cascadia Mono".to_owned()
}

pub fn default_font_size() -> (r: u16)
    ensures
        r == 13,
{
    13
}

pub fn default_cursor_color() -> (r: String)
    ensures
        r@ == "#f5e0dc"@,
{
    "#f5e0dc".to_owned()
}

pub fn default_cursor_blink() -> (r: bool)
    ensures
        r,
{
    true
}

pub fn default_opacity() -> (r: u8)
    ensures
        r == 100,
{
    100
}

/// What every terminal looks like.
#[derive(Debug, Clone, PartialEq)]
pub struct Appearance {
    pub font_family: String,
    pub font_size: u16,
    pub cursor_shape: CursorShape,
    pub cursor_blink: bool,
    pub cursor_color: String,
    /// Percent. 100 is fully opaque; the window only goes translucent below it.
    pub background_opacity: u8,
    pub material: Material,
}

/// An [`Appearance`] with its strings as character sequences.
pub struct AppearanceView {
    pub font_family: Seq<char>,
    pub font_size: u16,
    pub cursor_shape: CursorShape,
    pub cursor_blink: bool,
    pub cursor_color: Seq<char>,
    pub background_opacity: u8,
    pub material: Material,
}

impl View for Appearance {
    type V = AppearanceView;

    open spec fn view(&self) -> AppearanceView {
        AppearanceView {
            font_family: self.font_family@,
            font_size: self.font_size,
            cursor_shape: self.cursor_shape,
            cursor_blink: self.cursor_blink,
            cursor_color: self.cursor_color@,
            background_opacity: self.background_opacity,
            material: self.material,
        }
    }
}

/// The look Shaman shipped with.
pub open spec fn shipped_defaults() -> AppearanceView {
    AppearanceView {
        font_family: "Cascadia Mono"@,
        font_size: 13,
        cursor_shape: CursorShape::Block,
        cursor_blink: true,
        cursor_color: "#f5e0dc"@,
        background_opacity: 100,
        material: Material::Plain,
    }
}

impl Default for Appearance {
    fn default() -> (r: Self)
        ensures
            r@ == shipped_defaults(),
    {
        Appearance {
            font_family: default_font_family(),
            font_size: default_font_size(),
            cursor_shape: CursorShape::default(),
            cursor_blink: default_cursor_blink(),
            cursor_color: default_cursor_color(),
            background_opacity: default_opacity(),
            material: Material::default(),
        }
    }
}

pub open spec fn is_hex_digit(c: char) -> bool {
    ('0' <= c && c <= '9') || ('a' <= c && c <= 'f') || ('A' <= c && c <= 'F')
}

/// `#rgb` or `#rrggbb`.
pub open spec fn hex_colour(s: Seq<char>) -> bool {
    &&& s.len() == 4 || s.len() == 7
    &&& s[0] == '#'
    &&& forall|i: int| 1 <= i < s.len() ==> is_hex_digit(#[trigger] s[i])
}

/// `n` brought into `lo..=hi`.
pub open spec fn clamp(n: int, lo: int, hi: int) -> int {
    if n < lo {
        lo
    } else if n > hi {
        hi
    } else {
        n
    }
}

/// What [`Appearance::sanitised`] makes of `a`.
pub open spec fn sanitised_view(a: AppearanceView) -> AppearanceView {
    AppearanceView {
        font_family: if trim_seq(a.font_family).len() == 0 {
            "Cascadia Mono"@
        } else {
            a.font_family
        },
        font_size: clamp(a.font_size as int, 6, 72) as u16,
        cursor_shape: a.cursor_shape,
        cursor_blink: a.cursor_blink,
        cursor_color: if hex_colour(a.cursor_color) {
            a.cursor_color
        } else {
            "#f5e0dc"@
        },
        background_opacity: clamp(a.background_opacity as int, 20, 100) as u8,
        material: a.material,
    }
}

/// Values nothing can make worse: a renderable size, a visible window, a
/// font name and a colour xterm will take.
pub open spec fn is_sane(a: AppearanceView) -> bool {
    &&& 6 <= a.font_size <= 72
    &&& 20 <= a.background_opacity <= 100
    &&& trim_seq(a.font_family).len() != 0
    &&& hex_colour(a.cursor_color)
}

/// `#rgb` or `#rrggbb`. Deliberately strict: the value goes straight into
/// xterm's theme, which silently ignores anything it cannot parse.
fn is_hex_colour(s: &str) -> (r: bool)
    ensures
        r == hex_colour(s@),
{
    let chars = chars_of(s);
    let n = chars.len();
    if !(n == 4 || n == 7) || chars[0] != '#' {
        return false;
    }
    let mut i: usize = 1;
    while i < n
        invariant
            1 <= i <= n,
            n == s@.len(),
            chars@ == s@,
            forall|k: int| 1 <= k < i ==> is_hex_digit(#[trigger] s@[k]),
        decreases n - i,
    {
        let c = chars[i];
        if !(('0' <= c && c <= '9') || ('a' <= c && c <= 'f') || ('A' <= c && c <= 'F')) {
            return false;
        }
        i = i + 1;
    }
    true
}

impl Appearance {
    /// Clamp anything a hand-edited file (or a future UI) could get wrong.
    ///
    /// Applied on load and on save, so a bad value can neither be stored nor
    /// reach xterm. A zero font size renders nothing at all, and a fully
    /// transparent background makes the window unclickable-looking; both are
    /// states a user could not get out of from inside the app.
    pub fn sanitised(self) -> (r: Self)
        ensures
            r@ == sanitised_view(self@),
    {
        let mut a = self;
        a.font_size = if a.font_size < 6 {
            6
        } else if a.font_size > 72 {
            72
        } else {
            a.font_size
        };
        a.background_opacity = if a.background_opacity < 20 {
            20
        } else if a.background_opacity > 100 {
            100
        } else {
            a.background_opacity
        };
        let trimmed = trim(a.font_family.as_str());
        if trimmed.as_str().is_empty() {
            a.font_family = default_font_family();
        }
        if !is_hex_colour(a.cursor_color.as_str()) {
            a.cursor_color = default_cursor_color();
        }
        a
    }

    /// Whether the window needs to be translucent for this to render.
    pub fn wants_transparency(&self) -> (r: bool)
        ensures
            r == (self.background_opacity < 100 || self.material != Material::Plain),
    {
        self.background_opacity < 100 || self.material != Material::Plain
    }
}

/// A sanitised appearance is sane, and sanitising it again changes nothing,
/// so applying the clamp on load and again on save is harmless.
pub proof fn lemma_sanitised_is_sane_and_stable(a: AppearanceView)
    ensures
        is_sane(sanitised_view(a)),
        sanitised_view(sanitised_view(a)) == sanitised_view(a),
{
    lemma_defaults_are_sane();
    let s = sanitised_view(a);
    assert(sanitised_view(s) == s);
}

/// The shipped defaults are sane, so sanitising them keeps them as they are.
pub proof fn lemma_defaults_are_sane()
    ensures
        is_sane(shipped_defaults()),
        sanitised_view(shipped_defaults()) == shipped_defaults(),
{
    reveal_strlit("Cascadia Mono");
    reveal_strlit("#f5e0dc");
    let f = "Cascadia Mono"@;
    assert(!crate::text::is_white_space(f[0]));
    assert(crate::text::trim_start_seq(f) == f);
    assert(!crate::text::is_white_space(f.last()));
    assert(crate::text::trim_end_seq(f) == f);
    let c = "#f5e0dc"@;
    assert(is_hex_digit(c[1]) && is_hex_digit(c[2]) && is_hex_digit(c[3]));
    assert(is_hex_digit(c[4]) && is_hex_digit(c[5]) && is_hex_digit(c[6]));
    assert(hex_colour(c));
}

} // verus!
