use agent_terminal::color::{
    ansi_bg_to_rgb, ansi_to_rgb, cube_value, dim_rgb, indexed_to_rgb, named_palette_index,
    named_to_rgb, rgb_hex, AnsiColor, Colors, Flags, NamedColor, Rgb,
};

fn shown(color: AnsiColor, flags: Flags) -> (u8, u8, u8) {
    ansi_to_rgb(color, &Colors::new(), flags, true)
}

fn dim() -> Flags {
    Flags { dim: true, ..Flags::empty() }
}

fn bold_dim() -> Flags {
    Flags { bold: true, dim: true, ..Flags::empty() }
}

#[test]
fn bold_dim_named_color_resolves_to_dim_variant() {
    let bold_dim = shown(AnsiColor::Named(NamedColor::Red), bold_dim());
    let dim = shown(AnsiColor::Named(NamedColor::Red), dim());
    let plain = shown(AnsiColor::Named(NamedColor::Red), Flags::empty());

    assert_eq!(bold_dim, dim);
    assert_ne!(bold_dim, plain);
}

#[test]
fn bold_dim_spec_color_is_dimmed() {
    let spec = AnsiColor::Spec(Rgb { r: 200, g: 100, b: 50 });
    assert_eq!(shown(spec, bold_dim()), shown(spec, dim()));
    assert_ne!(shown(spec, bold_dim()), shown(spec, Flags::empty()));
}

#[test]
fn indexed_foreground_honors_dim() {
    let dim_red = shown(AnsiColor::Indexed(1), dim());
    let named_dim_red = shown(AnsiColor::Named(NamedColor::DimRed), Flags::empty());
    assert_eq!(dim_red, named_dim_red);

    let dim_bright_red = shown(AnsiColor::Indexed(9), dim());
    let plain_red = shown(AnsiColor::Indexed(1), Flags::empty());
    assert_eq!(dim_bright_red, plain_red);

    assert_eq!(
        shown(AnsiColor::Indexed(120), dim()),
        shown(AnsiColor::Indexed(120), Flags::empty())
    );
}

#[test]
fn background_ignores_dim_and_bold() {
    let colors = Colors::new();
    let bg = ansi_bg_to_rgb(AnsiColor::Indexed(1), &colors);
    assert!(bg.is_some());
    assert_eq!(
        bg,
        Some(ansi_to_rgb(AnsiColor::Indexed(1), &colors, Flags::empty(), false))
    );
    assert_eq!(
        bg,
        Some(ansi_to_rgb(AnsiColor::Indexed(1), &colors, bold_dim(), false))
    );
    assert_eq!(ansi_bg_to_rgb(AnsiColor::Named(NamedColor::Background), &colors), None);
}

#[test]
fn dimming_is_two_thirds_in_single_precision() {
    for value in 0..=255u8 {
        let expected = ((value as f32) * 0.66) as u8;
        assert_eq!(dim_rgb((value, 0, 255)), (expected, 0, 168));
    }
}

#[test]
fn exact_colors() {
    let colors = Colors::new();
    assert_eq!(indexed_to_rgb(16, &colors), (0, 0, 0));
    assert_eq!(indexed_to_rgb(231, &colors), (255, 255, 255));
    assert_eq!(indexed_to_rgb(67, &colors), (95, 135, 175));
    assert_eq!(indexed_to_rgb(232, &colors), (8, 8, 8));
    assert_eq!(indexed_to_rgb(255, &colors), (238, 238, 238));
    assert_eq!(indexed_to_rgb(1, &colors), (0xcc, 0x66, 0x66));
    assert_eq!(cube_value(0), 0);
    assert_eq!(cube_value(5), 255);
    assert_eq!(named_to_rgb(NamedColor::Foreground, &colors), (0xd7, 0xda, 0xe0));
    assert_eq!(rgb_hex((0x12, 0x34, 0x56)), 0x123456);
}

#[test]
fn bold_makes_brighter_and_a_program_may_change_colors() {
    let bold = Flags { bold: true, ..Flags::empty() };
    assert_eq!(shown(AnsiColor::Named(NamedColor::Red), bold), (0xd5, 0x4e, 0x53));
    assert_eq!(shown(AnsiColor::Named(NamedColor::Foreground), bold), (255, 255, 255));
    assert_eq!(NamedColor::Blue.to_bright().to_dim(), NamedColor::Blue);

    let mut colors = Colors::new();
    colors.set(1, Some(Rgb { r: 1, g: 2, b: 3 }));
    colors.set(named_palette_index(NamedColor::Cursor), Some(Rgb { r: 4, g: 5, b: 6 }));
    assert_eq!(colors.get(1), Some(Rgb { r: 1, g: 2, b: 3 }));
    assert_eq!(colors.get(2), None);
    assert_eq!(indexed_to_rgb(1, &colors), (1, 2, 3));
    assert_eq!(named_to_rgb(NamedColor::Red, &colors), (1, 2, 3));
    assert_eq!(named_to_rgb(NamedColor::Cursor, &colors), (4, 5, 6));
}
