use fractalgen::cmap::{colour_from_line, parse_cmap, CmapError, LineError, Palette, Pixel};

fn rgb(r: u8, g: u8, b: u8) -> Pixel {
    Pixel { r, g, b }
}

/// What the standard library's integer parser makes of the same line.
fn line_by_std(line: &str) -> Result<Option<Pixel>, LineError> {
    if !line.starts_with('#') {
        return Ok(None);
    }
    let parse_to = line.find(' ').unwrap_or(line.len());
    let hex_parsed = match u32::from_str_radix(line.get(1..parse_to).unwrap(), 16) {
        Ok(v) => v,
        Err(_) => return Err(LineError::BadHex),
    };
    match parse_to {
        4 => {
            let r: u8 = (hex_parsed >> 8 & 0xF) as u8;
            let g: u8 = (hex_parsed >> 4 & 0xF) as u8;
            let b: u8 = (hex_parsed & 0xF) as u8;
            Ok(Some(rgb(r << 4 | r, g << 4 | g, b << 4 | b)))
        }
        7 => {
            let r: u8 = (hex_parsed >> 16 & 0xFF) as u8;
            let g: u8 = (hex_parsed >> 8 & 0xFF) as u8;
            let b: u8 = (hex_parsed & 0xFF) as u8;
            Ok(Some(rgb(r, g, b)))
        }
        _ => Err(LineError::UnrecognisedHexcode { parse_to }),
    }
}

#[test]
fn short_code_doubles_each_digit() {
    assert_eq!(colour_from_line("#fff"), Ok(Some(rgb(255, 255, 255))));
    assert_eq!(colour_from_line("#000"), Ok(Some(rgb(0, 0, 0))));
    assert_eq!(colour_from_line("#abc"), Ok(Some(rgb(0xaa, 0xbb, 0xcc))));
    assert_eq!(colour_from_line("#1F9"), Ok(Some(rgb(0x11, 0xff, 0x99))));
}

#[test]
fn long_code_is_taken_as_written() {
    assert_eq!(colour_from_line("#000000"), Ok(Some(rgb(0, 0, 0))));
    assert_eq!(colour_from_line("#ffffff"), Ok(Some(rgb(255, 255, 255))));
    assert_eq!(colour_from_line("#A1b2C3"), Ok(Some(rgb(0xa1, 0xb2, 0xc3))));
    assert_eq!(colour_from_line("#010203"), Ok(Some(rgb(1, 2, 3))));
}

#[test]
fn code_ends_at_the_first_space() {
    assert_eq!(colour_from_line("#f00 pure red"), Ok(Some(rgb(255, 0, 0))));
    assert_eq!(colour_from_line("#0000ff  blue, twice spaced"), Ok(Some(rgb(0, 0, 255))));
    assert_eq!(colour_from_line("#abc #def"), Ok(Some(rgb(0xaa, 0xbb, 0xcc))));
}

#[test]
fn lines_without_a_leading_hash_hold_nothing() {
    assert_eq!(colour_from_line(""), Ok(None));
    assert_eq!(colour_from_line("fff"), Ok(None));
    assert_eq!(colour_from_line(" #fff"), Ok(None));
    assert_eq!(colour_from_line("; a comment"), Ok(None));
    assert_eq!(colour_from_line("\u{e9}#fff"), Ok(None));
}

#[test]
fn bad_hex_is_reported() {
    assert_eq!(colour_from_line("#"), Err(LineError::BadHex));
    assert_eq!(colour_from_line("# comment"), Err(LineError::BadHex));
    assert_eq!(colour_from_line("#ggg"), Err(LineError::BadHex));
    assert_eq!(colour_from_line("#12345g"), Err(LineError::BadHex));
    assert_eq!(colour_from_line("#-ff"), Err(LineError::BadHex));
    assert_eq!(colour_from_line("#+"), Err(LineError::BadHex));
    assert_eq!(colour_from_line("#ff\tff"), Err(LineError::BadHex));
    assert_eq!(colour_from_line("#\u{e9}f"), Err(LineError::BadHex));
}

#[test]
fn a_number_too_large_for_32_bits_is_bad_hex() {
    assert_eq!(colour_from_line("#100000000"), Err(LineError::BadHex));
    assert_eq!(colour_from_line("#fffffffff"), Err(LineError::BadHex));
    assert_eq!(
        colour_from_line("#ffffffff"),
        Err(LineError::UnrecognisedHexcode { parse_to: 9 })
    );
    assert_eq!(
        colour_from_line("#0000000000ff"),
        Err(LineError::UnrecognisedHexcode { parse_to: 13 })
    );
}

#[test]
fn other_lengths_are_unrecognised() {
    assert_eq!(colour_from_line("#1"), Err(LineError::UnrecognisedHexcode { parse_to: 2 }));
    assert_eq!(colour_from_line("#12"), Err(LineError::UnrecognisedHexcode { parse_to: 3 }));
    assert_eq!(colour_from_line("#1234"), Err(LineError::UnrecognisedHexcode { parse_to: 5 }));
    assert_eq!(colour_from_line("#12345"), Err(LineError::UnrecognisedHexcode { parse_to: 6 }));
    assert_eq!(colour_from_line("#1234567"), Err(LineError::UnrecognisedHexcode { parse_to: 8 }));
    assert_eq!(colour_from_line("#12 34"), Err(LineError::UnrecognisedHexcode { parse_to: 3 }));
}

#[test]
fn a_plus_sign_counts_towards_the_length() {
    assert_eq!(colour_from_line("#+ff"), Ok(Some(rgb(0x00, 0xff, 0xff))));
    assert_eq!(colour_from_line("#+abcde"), Ok(Some(rgb(0x0a, 0xbc, 0xde))));
    assert_eq!(colour_from_line("#++f"), Err(LineError::BadHex));
}

#[test]
fn lines_agree_with_the_standard_integer_parser() {
    let fixed = [
        "", "#", "#+", "#-", "#+f", "#+ff", "#-ff", "#fff", "#FFF", "#fFf", "#ffff", "#fffff",
        "#ffffff", "#fffffff", "#ffffffff", "#fffffffff", "#0fffffffff", "#00000000", "#+0000000",
        "#_ff", "#f_f", "#0x1", "#12 ", "#123 ", "# 123", "#123456 x", "#1234567 x", "##fff",
        "#g", "#:::", "#///", "#@@@", "#GGG", "#```", "#ggg", "#f f f", "#100000000", "#ffffffffg",
    ];
    for line in fixed {
        assert_eq!(colour_from_line(line), line_by_std(line), "line {:?}", line);
    }
    let alphabet: Vec<char> = "#+- 09afAFgG/:@`_xz".chars().collect();
    let mut seed: u64 = 0x2545_f491_4f6c_dd1d;
    for _ in 0..20000 {
        let mut line = String::from("#");
        seed = seed.wrapping_mul(6364136223846793005).wrapping_add(1442695040888963407);
        let len = (seed >> 60) as usize % 11;
        for _ in 0..len {
            seed = seed.wrapping_mul(6364136223846793005).wrapping_add(1442695040888963407);
            line.push(alphabet[(seed >> 33) as usize % alphabet.len()]);
        }
        assert_eq!(colour_from_line(&line), line_by_std(&line), "line {:?}", line);
    }
}

#[test]
fn map_keeps_the_order_of_its_lines() {
    let lines = ["; greys", "#000", "", "#808080 mid", "not a colour", "#fff"];
    let palette = parse_cmap(&lines).unwrap();
    assert_eq!(palette.len(), 3);
    assert_eq!(
        palette.colours().as_slice(),
        &[rgb(0, 0, 0), rgb(0x80, 0x80, 0x80), rgb(255, 255, 255)]
    );
}

#[test]
fn map_without_a_colour_is_empty() {
    let none: [&str; 0] = [];
    assert!(matches!(parse_cmap(&none), Err(CmapError::Empty)));
    assert!(matches!(parse_cmap(&["", "; only comments", "fff"]), Err(CmapError::Empty)));
}

#[test]
fn map_fails_on_its_first_bad_line() {
    assert!(matches!(
        parse_cmap(&["#fff", "#zzz", "#12"]),
        Err(CmapError::BadHex { line: 1 })
    ));
    assert!(matches!(
        parse_cmap(&["skip", "#fff", "#12", "#zzz"]),
        Err(CmapError::UnrecognisedHexcode { line: 2, parse_to: 3 })
    ));
    assert!(matches!(parse_cmap(&["#"]), Err(CmapError::BadHex { line: 0 })));
}

#[test]
fn palette_needs_a_colour() {
    assert!(matches!(Palette::new(Vec::new()), Err(CmapError::Empty)));
    let one = Palette::new(vec![rgb(1, 2, 3)]).unwrap();
    assert_eq!(one.len(), 1);
    assert_eq!(one.colours().as_slice(), &[rgb(1, 2, 3)]);
}

#[test]
fn black_is_all_zero() {
    assert_eq!(Pixel::black(), rgb(0, 0, 0));
}
