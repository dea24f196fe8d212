use palette_remap::color::Color;
use palette_remap::palette::PaletteError;
use palette_remap::parse::{parse_palette, str_to_rgb};

fn colors_of(text: &str) -> Vec<Color> {
    parse_palette(text.as_bytes()).expect("the text is a palette").colors().clone()
}

fn error_of(text: &str) -> PaletteError {
    match parse_palette(text.as_bytes()) {
        Ok(palette) => panic!("expected an error, got {:?}", palette),
        Err(error) => error,
    }
}

#[test]
fn two_lines_make_two_colours() {
    assert_eq!(
        colors_of("10 20 30\n200 100 50\n"),
        vec![Color::new(10, 20, 30), Color::new(200, 100, 50)]
    );
}

#[test]
fn two_fields_are_a_parse_error() {
    assert_eq!(error_of("10 20\n"), PaletteError::ParseRGBError { line: 0 });
}

#[test]
fn empty_text_is_not_enough_data() {
    assert_eq!(error_of(""), PaletteError::NotEnoughDataError);
}

#[test]
fn last_line_needs_no_line_feed() {
    assert_eq!(
        colors_of("10 20 30\n200 100 50"),
        vec![Color::new(10, 20, 30), Color::new(200, 100, 50)]
    );
    assert_eq!(colors_of("1 2 3"), vec![Color::new(1, 2, 3)]);
}

#[test]
fn fields_may_be_separated_by_any_ascii_white_space() {
    assert_eq!(colors_of("  1\t2 \x0C 3  \n"), vec![Color::new(1, 2, 3)]);
    assert_eq!(
        colors_of("1 2 3\r\n4 5 6\r\n"),
        vec![Color::new(1, 2, 3), Color::new(4, 5, 6)]
    );
}

#[test]
fn vertical_tab_is_no_white_space() {
    assert_eq!(error_of("1\x0B2 3\n"), PaletteError::ParseRGBError { line: 0 });
}

#[test]
fn channel_limits_are_accepted() {
    assert_eq!(colors_of("0 255 0\n"), vec![Color::new(0, 255, 0)]);
}

#[test]
fn plus_sign_and_leading_zeros_are_accepted() {
    assert_eq!(colors_of("+1 007 +000255\n"), vec![Color::new(1, 7, 255)]);
}

#[test]
fn channel_above_255_is_a_parse_error() {
    assert_eq!(error_of("256 0 0\n"), PaletteError::ParseRGBError { line: 0 });
    assert_eq!(error_of("0 0 99999999999999999999999\n"), PaletteError::ParseRGBError { line: 0 });
}

#[test]
fn malformed_numbers_are_a_parse_error() {
    for line in ["-1 0 0", "1.5 0 0", "a 0 0", "+ 0 0", "++1 0 0", "1+ 0 0", "0x10 0 0", "1,2,3"] {
        assert_eq!(error_of(line), PaletteError::ParseRGBError { line: 0 }, "{}", line);
    }
}

#[test]
fn four_fields_are_a_parse_error() {
    assert_eq!(error_of("1 2 3 4\n"), PaletteError::ParseRGBError { line: 0 });
}

#[test]
fn blank_line_is_a_parse_error() {
    assert_eq!(error_of("\n"), PaletteError::ParseRGBError { line: 0 });
    assert_eq!(error_of("1 2 3\n\n4 5 6\n"), PaletteError::ParseRGBError { line: 1 });
    assert_eq!(error_of("1 2 3\n\n"), PaletteError::ParseRGBError { line: 1 });
    assert_eq!(error_of("   \n"), PaletteError::ParseRGBError { line: 0 });
}

#[test]
fn error_names_the_first_bad_line() {
    assert_eq!(
        error_of("1 2 3\n4 5 6\n7 8\n9 10 11 12\n"),
        PaletteError::ParseRGBError { line: 2 }
    );
    assert_eq!(
        error_of("1 2 3\n4 5 6\n7 8 9\n10 11 12\n13 14 300"),
        PaletteError::ParseRGBError { line: 4 }
    );
}

#[test]
fn no_partial_palette_comes_back() {
    assert!(parse_palette(b"1 2 3\nbroken\n").is_err());
}

#[test]
fn bytes_outside_ascii_are_a_parse_error() {
    assert_eq!(
        parse_palette(&[0x31, 0x20, 0xFF, 0x20, 0x33]).err(),
        Some(PaletteError::ParseRGBError { line: 0 })
    );
}

#[test]
fn duplicate_colours_are_kept() {
    assert_eq!(
        colors_of("5 5 5\n5 5 5\n"),
        vec![Color::new(5, 5, 5), Color::new(5, 5, 5)]
    );
}

#[test]
fn line_reader_reads_three_channels() {
    assert_eq!(str_to_rgb(b"10 20 30"), Some(Color::new(10, 20, 30)));
    assert_eq!(str_to_rgb(b"\t10   20 30 \r"), Some(Color::new(10, 20, 30)));
}

#[test]
fn line_reader_refuses_other_lines() {
    assert_eq!(str_to_rgb(b""), None);
    assert_eq!(str_to_rgb(b"10"), None);
    assert_eq!(str_to_rgb(b"10 20"), None);
    assert_eq!(str_to_rgb(b"10 20 30 40"), None);
    assert_eq!(str_to_rgb(b"10 20 x"), None);
    assert_eq!(str_to_rgb(b"x 20 30 40"), None);
    assert_eq!(str_to_rgb(b"10 20 256"), None);
}

#[test]
fn parsed_palette_answers_queries() {
    let palette = parse_palette(b"10 10 10\n240 240 240\n").expect("the text is a palette");
    let out = palette.closest_to(&palette_remap::color::Pixel::new(250, 250, 250, 9));
    assert_eq!(out, palette_remap::color::Pixel::new(240, 240, 240, 9));
}
