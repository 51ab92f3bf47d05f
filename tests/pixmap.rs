use voxel_scene::pixmap::{
    lookup_color, parse_hex_color, parse_palette_entry, parse_pixel_map, parse_positive,
    MalformedPixelMap, MalformedReason, PaletteEntry, Pixel, PixelMap, Rgb,
};

const RED: Rgb = Rgb { r: 255, g: 0, b: 0 };

fn chars(s: &str) -> Vec<char> {
    s.chars().collect()
}

fn err(line: usize, reason: MalformedReason) -> Result<PixelMap, MalformedPixelMap> {
    Err(MalformedPixelMap { line, reason })
}

#[test]
fn two_by_two_checkerboard_gives_two_red_pixels() {
    let text = "2 2 2\n. c none\n# c #FF0000\n.#\n#.\n";
    let map = parse_pixel_map(text, 0).unwrap();
    assert_eq!(map.width, 2);
    assert_eq!(map.height, 2);
    assert_eq!(
        map.pixels,
        vec![
            Pixel { row: 0, col: 1, color: RED },
            Pixel { row: 1, col: 0, color: RED },
        ]
    );
}

#[test]
fn crlf_and_bare_cr_line_endings_parse_alike() {
    let unix = parse_pixel_map("2 2 2\n. c none\n# c #FF0000\n.#\n#.", 0);
    let windows = parse_pixel_map("2 2 2\r\n. c none\r\n# c #FF0000\r\n.#\r\n#.", 0);
    let old_mac = parse_pixel_map("2 2 2\r. c none\r# c #FF0000\r.#\r#.", 0);
    assert!(unix.is_ok());
    assert_eq!(unix, windows);
    assert_eq!(unix, old_mac);
}

#[test]
fn header_after_a_format_line() {
    let text = "! XPM2\n3 1 1\nx\tc #0A0B0C\nx.x\n";
    let map = parse_pixel_map(text, 1).unwrap();
    let c = Rgb { r: 10, g: 11, b: 12 };
    assert_eq!(
        map.pixels,
        vec![Pixel { row: 0, col: 0, color: c }, Pixel { row: 0, col: 2, color: c }]
    );
    assert_eq!(parse_pixel_map(text, 0), err(0, MalformedReason::MissingDimensions));
}

#[test]
fn malformed_header_is_reported() {
    assert_eq!(
        parse_pixel_map("abc 2 2\n. c none\n# c #FF0000\n.#\n#.\n", 0),
        err(0, MalformedReason::InvalidDimension)
    );
}

#[test]
fn header_with_too_few_tokens() {
    assert_eq!(parse_pixel_map("2 2\n", 0), err(0, MalformedReason::MissingDimensions));
    assert_eq!(parse_pixel_map("", 0), err(0, MalformedReason::MissingDimensions));
}

#[test]
fn header_line_past_the_end() {
    assert_eq!(parse_pixel_map("1 1 1", 3), err(3, MalformedReason::MissingLine));
}

#[test]
fn zero_and_oversized_dimensions_are_rejected() {
    assert_eq!(parse_pixel_map("0 1 1\n", 0), err(0, MalformedReason::InvalidDimension));
    assert_eq!(parse_pixel_map("1 0 1\n", 0), err(0, MalformedReason::InvalidDimension));
    assert_eq!(parse_pixel_map("1 1 0\n", 0), err(0, MalformedReason::InvalidDimension));
    assert_eq!(
        parse_pixel_map("1 99999999999999999999999 1\n", 0),
        err(0, MalformedReason::InvalidDimension)
    );
    assert_eq!(parse_pixel_map("1 -1 1\n", 0), err(0, MalformedReason::InvalidDimension));
}

#[test]
fn palette_errors_name_their_line() {
    assert_eq!(parse_pixel_map("1 1 2\n. c none", 0), err(2, MalformedReason::MissingLine));
    assert_eq!(
        parse_pixel_map("1 1 2\n. c none\n\n.\n", 0),
        err(2, MalformedReason::MissingPaletteKey)
    );
    assert_eq!(parse_pixel_map("1 1 1\n \n.\n", 0), err(1, MalformedReason::MissingColor));
    assert_eq!(parse_pixel_map("1 1 1\n. c red\n.\n", 0), err(1, MalformedReason::InvalidColor));
    assert_eq!(
        parse_pixel_map("1 1 1\n. c #GG0000\n.\n", 0),
        err(1, MalformedReason::InvalidColor)
    );
    assert_eq!(
        parse_pixel_map("1 1 1\n. c #FF00\n.\n", 0),
        err(1, MalformedReason::InvalidColor)
    );
    assert_eq!(
        parse_pixel_map("1 1 1\n. c NONE\n.\n", 0),
        err(1, MalformedReason::InvalidColor)
    );
}

#[test]
fn row_errors_name_their_line() {
    assert_eq!(
        parse_pixel_map("3 2 1\n. c #FFFFFF\n...\n..\n", 0),
        err(3, MalformedReason::RowTooShort)
    );
    assert_eq!(
        parse_pixel_map("3 3 1\n. c #FFFFFF\n...\n...", 0),
        err(4, MalformedReason::MissingLine)
    );
}

#[test]
fn unknown_characters_are_transparent_and_extra_columns_ignored() {
    let map = parse_pixel_map("2 1 1\n# c #FF0000\n?###\n", 0).unwrap();
    assert_eq!(map.pixels, vec![Pixel { row: 0, col: 1, color: RED }]);
}

#[test]
fn later_colour_of_a_key_wins_and_none_takes_nothing_away() {
    let map = parse_pixel_map("1 1 3\n# c #FF0000\n# c #00FF00\n# c None\n#\n", 0).unwrap();
    assert_eq!(map.pixels, vec![Pixel { row: 0, col: 0, color: Rgb { r: 0, g: 255, b: 0 } }]);
}

#[test]
fn sprite_from_the_demo_scene() {
    let text = "16 16 4 1\n \tc None\n.\tc #FFA044\n+\tc #F84848\n@\tc #5C40E4\n ..   ++++   .. \n ... +@@@@+ ... \n @@ +@@@@@@+ @@ \n @@.@.+..+.@.@@ \n @@...@..@...@@ \n  @@........@@  \n  @@@..@@..@@@  \n  @@@+.@@.+@@@  \n   @++++++++@   \n   @++++++++@   \n   +++@@@@+++   \n   @@@@++@@@@   \n   +++@@@@+++   \n   ++++++++++   \n    @@@  @@@    \n    @@@  @@@    ";
    let map = parse_pixel_map(text, 0).unwrap();
    let opaque = text
        .lines()
        .skip(5)
        .map(|row| row.chars().take(16).filter(|c| *c != ' ').count())
        .sum::<usize>();
    assert_eq!(map.pixels.len(), opaque);
    assert!(map.pixels.len() <= 16 * 16);
    assert_eq!(map.pixels[0], Pixel { row: 0, col: 1, color: Rgb { r: 0xFF, g: 0xA0, b: 0x44 } });
}

#[test]
fn parsing_twice_gives_identical_results() {
    let text = "3 2 2\n. c none\n* c #123456\n*.*\n.*.\n";
    let a = parse_pixel_map(text, 0);
    let b = parse_pixel_map(text, 0);
    assert!(a.is_ok());
    assert_eq!(a, b);
}

#[test]
fn positive_integers() {
    assert_eq!(parse_positive(&chars("42")), Some(42));
    assert_eq!(parse_positive(&chars("007")), Some(7));
    assert_eq!(parse_positive(&chars("0")), None);
    assert_eq!(parse_positive(&chars("")), None);
    assert_eq!(parse_positive(&chars("4x")), None);
    assert_eq!(parse_positive(&chars("18446744073709551615")), Some(usize::MAX));
    assert_eq!(parse_positive(&chars("18446744073709551616")), None);
}

#[test]
fn hex_colours() {
    assert_eq!(parse_hex_color(&chars("#ff8001")), Some(Rgb { r: 255, g: 128, b: 1 }));
    assert_eq!(parse_hex_color(&chars("#E61A80")), Some(Rgb { r: 0xE6, g: 0x1A, b: 0x80 }));
    assert_eq!(parse_hex_color(&chars("ff8001")), None);
    assert_eq!(parse_hex_color(&chars("#ff800")), None);
    assert_eq!(parse_hex_color(&chars("#ff80011")), None);
}

#[test]
fn palette_entries_and_lookup() {
    let a = parse_palette_entry(&chars("a c #010203")).unwrap();
    let b = parse_palette_entry(&chars("b\tc\tnone")).unwrap();
    assert_eq!(a.key, 'a');
    assert_eq!(a.color, Some(Rgb { r: 1, g: 2, b: 3 }));
    assert_eq!(b.key, 'b');
    assert_eq!(b.color, None);
    let palette: Vec<PaletteEntry> = vec![a, b];
    assert_eq!(lookup_color(&palette, 'a'), Some(Rgb { r: 1, g: 2, b: 3 }));
    assert_eq!(lookup_color(&palette, 'b'), None);
    assert_eq!(lookup_color(&palette, 'z'), None);
}
