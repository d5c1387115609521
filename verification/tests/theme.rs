use termite_core::grid::Color;
use termite_core::theme::{color_cube_channel, Theme};

#[test]
fn theme_maps_standard_ansi_indexes_from_configured_palette() {
    let theme = Theme::default();

    assert_eq!(theme.color(Color::Indexed(1)), theme.ansi[1]);
    assert_eq!(theme.color(Color::Indexed(15)), theme.ansi[15]);
}

#[test]
fn theme_maps_xterm_256_color_cube_indexes() {
    let theme = Theme::default();

    assert_eq!(theme.color(Color::Indexed(16)), [0, 0, 0]);
    assert_eq!(theme.color(Color::Indexed(21)), [0, 0, 255]);
    assert_eq!(theme.color(Color::Indexed(196)), [255, 0, 0]);
    assert_eq!(theme.color(Color::Indexed(46)), [0, 255, 0]);
}

#[test]
fn theme_maps_xterm_grayscale_indexes() {
    let theme = Theme::default();

    assert_eq!(theme.color(Color::Indexed(232)), [8, 8, 8]);
    assert_eq!(theme.color(Color::Indexed(255)), [238, 238, 238]);
}

#[test]
fn theme_maps_default_and_rgb_colors() {
    let theme = Theme::default();
    assert_eq!(theme.color(Color::DefaultForeground), [220, 224, 232]);
    assert_eq!(theme.color(Color::DefaultBackground), [16, 18, 24]);
    assert_eq!(theme.color(Color::Rgb(1, 2, 3)), [1, 2, 3]);
    assert_eq!(color_cube_channel(0), 0);
    assert_eq!(color_cube_channel(1), 95);
    assert_eq!(color_cube_channel(5), 255);
}
