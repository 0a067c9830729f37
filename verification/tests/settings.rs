use shaman_core::settings::{default_cursor_color, default_font_family};
use shaman_core::vault::strip_bom;
use shaman_core::{Appearance, CursorShape, Material};

#[test]
fn font_size_is_clamped_to_something_renderable() {
    let tiny = Appearance { font_size: 0, ..Default::default() };
    assert_eq!(tiny.sanitised().font_size, 6);

    let huge = Appearance { font_size: 900, ..Default::default() };
    assert_eq!(huge.sanitised().font_size, 72);
}

#[test]
fn opacity_never_goes_low_enough_to_lose_the_window() {
    let ghost = Appearance { background_opacity: 0, ..Default::default() };
    assert_eq!(ghost.sanitised().background_opacity, 20);
}

#[test]
fn a_junk_cursor_colour_falls_back_rather_than_reaching_xterm() {
    let bad = Appearance { cursor_color: "not a colour".into(), ..Default::default() };
    assert_eq!(bad.sanitised().cursor_color, "#f5e0dc");

    let short = Appearance { cursor_color: "#abc".into(), ..Default::default() };
    assert_eq!(short.sanitised().cursor_color, "#abc", "#rgb is valid");
}

#[test]
fn an_empty_font_family_falls_back() {
    let blank = Appearance { font_family: "   ".into(), ..Default::default() };
    assert_eq!(blank.sanitised().font_family, "Cascadia Mono");
}

#[test]
fn transparency_is_wanted_for_either_opacity_or_a_material() {
    assert!(!Appearance::default().wants_transparency());

    let dimmed = Appearance { background_opacity: 80, ..Default::default() };
    assert!(dimmed.wants_transparency());

    let frosted = Appearance { material: Material::Acrylic, ..Default::default() };
    assert!(frosted.wants_transparency());
}

#[test]
fn the_defaults_are_the_shipped_look() {
    let d = Appearance::default();
    assert_eq!(d.font_family, "Cascadia Mono");
    assert_eq!(d.font_size, 13);
    assert_eq!(d.cursor_shape, CursorShape::Block);
    assert!(d.cursor_blink);
    assert_eq!(d.cursor_color, "#f5e0dc");
    assert_eq!(d.background_opacity, 100);
    assert_eq!(d.material, Material::Plain);
    assert_eq!(default_font_family(), "Cascadia Mono");
    assert_eq!(default_cursor_color(), "#f5e0dc");
}

#[test]
fn sanitising_twice_changes_nothing_more() {
    let odd = Appearance {
        font_family: "".into(),
        font_size: 1,
        cursor_color: "#12345g".into(),
        background_opacity: 250,
        ..Default::default()
    };
    let once = odd.sanitised();
    let twice = once.clone().sanitised();
    assert_eq!(once, twice);
    assert_eq!(once.background_opacity, 100);
    assert_eq!(once.font_size, 6);
    assert_eq!(once.cursor_color, "#f5e0dc");
}

#[test]
fn sane_values_are_left_alone() {
    let fine = Appearance {
        font_family: " Fira Code ".into(),
        font_size: 18,
        cursor_color: "#A0b1C2".into(),
        background_opacity: 55,
        cursor_shape: CursorShape::Bar,
        cursor_blink: false,
        material: Material::Acrylic,
    };
    assert_eq!(fine.clone().sanitised(), fine);
}

#[test]
fn a_byte_order_mark_is_stripped_and_nothing_else() {
    assert_eq!(strip_bom("\u{feff}{\"fontSize\": 20}"), "{\"fontSize\": 20}");
    assert_eq!(strip_bom("{}"), "{}");
    assert_eq!(strip_bom(""), "");
}
