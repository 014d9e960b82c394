use hd::dump::{dump_length, dump_window, hexdump};
use hd::error::HdError;
use hd::render::{format_one_byte_char, render_line, DisplayMode, HdOptions};
use hd::squeeze::{vecs_match, LineAction, Squeezer};

const SAMPLE: [u8; 16] = [
    0x39, 0xa8, 0x03, 0x00, 0x00, 0x85, 0x3d, 0x0d, 0xe5, 0x44, 0x00, 0xdc, 0x41, 0x08, 0x81, 0x46,
];

fn options_for(mode: DisplayMode, no_squeezing: bool) -> HdOptions {
    HdOptions {
        canonical: mode == DisplayMode::Canonical,
        one_byte_char: mode == DisplayMode::OneByteChar,
        one_byte_octal: mode == DisplayMode::OneByteOctal,
        no_squeezing,
        two_bytes_dec: mode == DisplayMode::TwoByteDec,
        two_bytes_octal: mode == DisplayMode::TwoByteOctal,
        two_bytes_hex: mode == DisplayMode::TwoByteHex,
    }
}

fn line(bytes: &[u8], address: usize, mode: DisplayMode) -> String {
    render_line(bytes, address, mode).unwrap()
}

const ALL_MODES: [DisplayMode; 7] = [
    DisplayMode::Default,
    DisplayMode::Canonical,
    DisplayMode::OneByteOctal,
    DisplayMode::OneByteChar,
    DisplayMode::TwoByteDec,
    DisplayMode::TwoByteOctal,
    DisplayMode::TwoByteHex,
];

#[test]
fn canonical_full_line() {
    assert_eq!(
        line(&SAMPLE, 0, DisplayMode::Canonical),
        "00000000  39 a8 03 00 00 85 3d 0d  e5 44 00 dc 41 08 81 46  |9.....=..D..A..F|"
    );
}

#[test]
fn default_full_line_swaps_each_pair() {
    assert_eq!(
        line(&SAMPLE, 0, DisplayMode::Default),
        "0000000 a839 0003 8500 0d3d 44e5 dc00 0841 4681"
    );
}

#[test]
fn two_byte_hex_full_line() {
    assert_eq!(
        line(&SAMPLE, 0, DisplayMode::TwoByteHex),
        "0000000    a839    0003    8500    0d3d    44e5    dc00    0841    4681"
    );
}

#[test]
fn two_byte_octal_full_line() {
    assert_eq!(
        line(&SAMPLE, 0, DisplayMode::TwoByteOctal),
        "0000000  124071  000003  102400  006475  042345  156000  004101  043201"
    );
}

#[test]
fn two_byte_decimal_full_line() {
    assert_eq!(
        line(&SAMPLE, 0, DisplayMode::TwoByteDec),
        "0000000   43065   00003   34048   03389   17637   56320   02113   18049"
    );
}

#[test]
fn one_byte_octal_full_line() {
    assert_eq!(
        line(&SAMPLE, 0, DisplayMode::OneByteOctal),
        "0000000 071 250 003 000 000 205 075 015 345 104 000 334 101 010 201 106"
    );
}

#[test]
fn one_byte_char_full_line() {
    assert_eq!(
        line(&SAMPLE, 0, DisplayMode::OneByteChar),
        "0000000   9 250 003  \\0  \\0 205   =  \\r 345   D  \\0 334   A  \\b 201   F"
    );
}

#[test]
fn one_byte_char_every_kind_of_field() {
    let bytes = [0, 7, 8, 9, 10, 11, 12, 13, 123, 124, 125, 126, 1, 31, 200, 65];
    assert_eq!(
        line(&bytes, 0, DisplayMode::OneByteChar),
        "0000000  \\0  \\a  \\b  \\t  \\n  \\v  \\f  \\r   {   |   }   ~ 001 037 310   A"
    );
}

#[test]
fn format_one_byte_char_appends_one_field() {
    let start = String::from("0000000");
    let bytes = [0u8, 65, 27, 125];
    assert_eq!(format_one_byte_char(&start, &bytes, 0), "0000000  \\0");
    assert_eq!(format_one_byte_char(&start, &bytes, 1), "0000000   A");
    assert_eq!(format_one_byte_char(&start, &bytes, 2), "0000000 033");
    assert_eq!(format_one_byte_char(&start, &bytes, 3), "0000000   }");
}

#[test]
fn short_lines_keep_columns() {
    let abc = [0x61u8, 0x62, 0x63];
    assert_eq!(
        line(&abc, 0x10, DisplayMode::Canonical),
        format!("00000010  61 62 63{}  |abc|", " ".repeat(40))
    );
    assert_eq!(line(&abc, 0x10, DisplayMode::Default), format!("0000010 6261{}", " ".repeat(36)));
    assert_eq!(
        line(&abc, 0x10, DisplayMode::TwoByteHex),
        format!("0000010    6261{}", " ".repeat(57))
    );
    assert_eq!(
        line(&abc, 0x10, DisplayMode::TwoByteOctal),
        format!("0000010  061141{}", " ".repeat(57))
    );
    assert_eq!(
        line(&abc, 0x10, DisplayMode::TwoByteDec),
        format!("0000010   25185{}", " ".repeat(57))
    );
    assert_eq!(
        line(&abc, 0x10, DisplayMode::OneByteOctal),
        format!("0000010 141 142 143{}", " ".repeat(53))
    );
    assert_eq!(line(&abc, 0x10, DisplayMode::OneByteChar), "0000010   a   b   c");
}

#[test]
fn empty_line_shows_the_address_alone() {
    assert_eq!(line(&[], 0x20, DisplayMode::Canonical), "00000020 ");
    assert_eq!(line(&[], 0x20, DisplayMode::Default), "0000020");
    assert_eq!(line(&[], 0x20, DisplayMode::OneByteChar), "0000020");
}

#[test]
fn address_column_width_and_value() {
    assert_eq!(&line(&SAMPLE, 0x1f0, DisplayMode::Canonical)[..9], "000001f0 ");
    for mode in ALL_MODES {
        let text = line(&SAMPLE, 0x1f0, mode);
        if mode == DisplayMode::Canonical {
            assert!(text.starts_with("000001f0 "));
        } else {
            assert!(text.starts_with("00001f0 "));
        }
    }
    assert!(line(&SAMPLE, 0x123456789, DisplayMode::Default).starts_with("123456789 "));
    assert!(line(&SAMPLE, 0x123456789, DisplayMode::Canonical).starts_with("123456789  39"));
}

#[test]
fn rendering_twice_gives_the_same_text() {
    for mode in ALL_MODES {
        assert_eq!(line(&SAMPLE[..7], 0x40, mode), line(&SAMPLE[..7], 0x40, mode));
    }
}

#[test]
fn overlong_line_is_refused() {
    let long = [0u8; 17];
    assert_eq!(render_line(&long, 0, DisplayMode::Canonical), Err(HdError::FormatError));
}

#[test]
fn mode_precedence() {
    let mut o = options_for(DisplayMode::Default, false);
    assert_eq!(o.mode(), DisplayMode::Default);
    o.one_byte_char = true;
    assert_eq!(o.mode(), DisplayMode::OneByteChar);
    o.two_bytes_dec = true;
    assert_eq!(o.mode(), DisplayMode::TwoByteDec);
    o.two_bytes_octal = true;
    assert_eq!(o.mode(), DisplayMode::TwoByteOctal);
    o.one_byte_octal = true;
    assert_eq!(o.mode(), DisplayMode::OneByteOctal);
    o.two_bytes_hex = true;
    assert_eq!(o.mode(), DisplayMode::TwoByteHex);
    o.canonical = true;
    assert_eq!(o.mode(), DisplayMode::Canonical);
}

#[test]
fn vecs_match_last_byte_differs() {
    let b1 = vec![0x93u8, 0, 0, 0, 0, 0, 0, 0, 0, 0, 0x11, 0, 0xab, 0, 0, 0];
    let mut b2 = b1.clone();
    b2[15] = 1;
    assert!(!vecs_match(&b1, &b2));
    assert!(!vecs_match(&b2, &b1));
}

#[test]
fn squeezer_actions() {
    let a = [1u8; 16];
    let b = [2u8; 16];
    let mut s = Squeezer::new();
    assert_eq!(s.observe(&a), LineAction::Print);
    assert_eq!(s.observe(&a), LineAction::Marker);
    assert_eq!(s.observe(&a), LineAction::Suppress);
    assert_eq!(s.observe(&a), LineAction::Suppress);
    assert_eq!(s.observe(&b), LineAction::Print);
    assert_eq!(s.observe(&a), LineAction::Print);
    assert_eq!(s.observe(&a), LineAction::Marker);
}

#[test]
fn first_line_of_zeros_is_printed() {
    let mut s = Squeezer::new();
    assert_eq!(s.observe(&[0u8; 16]), LineAction::Print);
}

#[test]
fn repeated_lines_collapse_to_one_marker() {
    let mut data = Vec::new();
    for _ in 0..5 {
        data.extend_from_slice(&SAMPLE);
    }
    let opts = options_for(DisplayMode::Canonical, false);
    let d = hexdump(&data, data.len(), 0, &opts).unwrap();
    assert_eq!(d.bytes_dumped, 80);
    assert_eq!(d.lines, vec![line(&SAMPLE, 0, DisplayMode::Canonical), "*".to_string()]);
}

#[test]
fn repeated_lines_without_squeezing_are_all_shown() {
    let mut data = Vec::new();
    for _ in 0..3 {
        data.extend_from_slice(&SAMPLE);
    }
    let opts = options_for(DisplayMode::Default, true);
    let d = hexdump(&data, data.len(), 0, &opts).unwrap();
    assert_eq!(
        d.lines,
        vec![
            line(&SAMPLE, 0, DisplayMode::Default),
            line(&SAMPLE, 16, DisplayMode::Default),
            line(&SAMPLE, 32, DisplayMode::Default),
        ]
    );
}

#[test]
fn run_ends_at_a_different_line_and_short_tail_is_kept() {
    let mut data = vec![0u8; 48];
    data.extend_from_slice(&SAMPLE);
    data.extend_from_slice(&[0u8; 5]);
    let opts = options_for(DisplayMode::TwoByteHex, false);
    let d = hexdump(&data, 1000, 0, &opts).unwrap();
    assert_eq!(d.bytes_dumped, 69);
    assert_eq!(
        d.lines,
        vec![
            line(&[0u8; 16], 0, DisplayMode::TwoByteHex),
            "*".to_string(),
            line(&SAMPLE, 48, DisplayMode::TwoByteHex),
            line(&[0u8; 5], 64, DisplayMode::TwoByteHex),
        ]
    );
}

#[test]
fn short_repeat_at_the_end_is_not_squeezed() {
    let mut data = SAMPLE.to_vec();
    data.extend_from_slice(&SAMPLE[..4]);
    let opts = options_for(DisplayMode::Canonical, false);
    let lines = dump_window(&data[..], 0x100, &opts);
    assert_eq!(
        lines,
        vec![line(&SAMPLE, 0x100, DisplayMode::Canonical), line(&SAMPLE[..4], 0x110, DisplayMode::Canonical)]
    );
}

#[test]
fn zero_length_dump_has_no_lines_in_any_mode() {
    let data: Vec<u8> = (0..100u8).collect();
    for mode in ALL_MODES {
        let d = hexdump(&data, 0, 7, &options_for(mode, false)).unwrap();
        assert_eq!(d.bytes_dumped, 0);
        assert!(d.lines.is_empty());
    }
}

#[test]
fn empty_request_at_start_succeeds() {
    let data: Vec<u8> = (0..100u8).collect();
    let d = hexdump(&data, 0, 0, &options_for(DisplayMode::Default, false)).unwrap();
    assert_eq!(d.bytes_dumped, 0);
    assert!(d.lines.is_empty());
}

#[test]
fn request_past_the_end_is_truncated() {
    let data: Vec<u8> = (0..20u8).collect();
    let d = hexdump(&data, 100, 5, &options_for(DisplayMode::Canonical, true)).unwrap();
    assert_eq!(d.bytes_dumped, 15);
    assert_eq!(d.lines, vec![line(&data[5..], 5, DisplayMode::Canonical)]);
    assert_eq!(dump_length(20, 100, 5), Ok(15));
}

#[test]
fn offset_at_the_end_covers_nothing() {
    let data: Vec<u8> = (0..20u8).collect();
    let d = hexdump(&data, 10, 20, &options_for(DisplayMode::Default, false)).unwrap();
    assert_eq!(d.bytes_dumped, 0);
    assert!(d.lines.is_empty());
}

#[test]
fn offset_beyond_the_end_is_a_range_error() {
    let data: Vec<u8> = (0..20u8).collect();
    assert_eq!(hexdump(&data, 10, 21, &options_for(DisplayMode::Default, false)).unwrap_err(), HdError::RangeError);
    assert_eq!(dump_length(20, 0, 21), Err(HdError::RangeError));
}

#[test]
fn ten_bytes_from_start_and_from_five() {
    let data: Vec<u8> = (0..64u8).collect();
    let opts = options_for(DisplayMode::Canonical, false);
    assert_eq!(hexdump(&data, 10, 0, &opts).unwrap().bytes_dumped, 10);
    let d = hexdump(&data, 10, 5, &opts).unwrap();
    assert_eq!(d.bytes_dumped, 10);
    assert_eq!(d.lines, vec![line(&data[5..15], 5, DisplayMode::Canonical)]);
}
