//! Unit tests for the field-level and tag-level codecs.

use triseratops::error::Error;
use triseratops::tag::analysis::{parse_analysis, parse_analysis_ogg, write_analysis, write_analysis_ogg, Analysis};
use triseratops::tag::autotags::{parse_autotags, take_double_str, write_autotags, Autotags};
use triseratops::tag::beatgrid::{
    parse_beatgrid, take_non_terminal_marker_count, write_beatgrid, Beatgrid, NonTerminalMarker,
    TerminalMarker,
};
use triseratops::tag::color::Color;
use triseratops::tag::generic::{Position, Version};
use triseratops::tag::markers::{
    parse_markers, take_has_position, take_marker_type, take_position, write_markers, Marker,
    MarkerType, Markers,
};
use triseratops::tag::overview::{parse_overview, write_overview};
use triseratops::tag::relvolad::{parse_relvolad, write_relvolad};
use triseratops::tag::serato32;
use triseratops::tag::util::{take_color, take_version, write_color, write_version};
use triseratops::tag::vidassoc::{parse_vidassoc, write_vidassoc};
use triseratops::util::{parse_utf8, take_until_nullbyte, take_utf8};

#[test]
fn test_write_analysis() {
    let mut writer: Vec<u8> = Vec::new();
    let bytes_written = write_analysis(
        &mut writer,
        &Analysis {
            version: Version { major: 2, minor: 4 },
        },
    );
    assert_eq!(bytes_written, 2);
    assert_eq!(&writer[..2], &[2, 4]);
}

#[test]
fn test_take_double_str() {
    let (text, next) = take_double_str(&[0x31, 0x31, 0x35, 0x2E, 0x30, 0x30, 0x00], 0).unwrap();
    assert_eq!(text, "115.00");
    assert_eq!(next, 7);

    let (text, next) = take_double_str(&[0x2D, 0x33, 0x2E, 0x32, 0x35, 0x37, 0x00, 0xAB], 0).unwrap();
    assert_eq!(text, "-3.257");
    assert_eq!(next, 7);

    assert!(take_double_str(&[0xAB, 0x01], 0).is_err());
}

#[test]
fn test_take_non_terminal_marker_count() {
    assert_eq!(take_non_terminal_marker_count(&[0x00, 0x00, 0x00, 0x01], 0).unwrap(), (0x00, 4));
    assert_eq!(
        take_non_terminal_marker_count(&[0x89, 0xAB, 0xCD, 0xEF, 0x12], 0).unwrap(),
        (0x89ABCDEE, 4)
    );
    assert!(take_non_terminal_marker_count(&[0x00, 0x00, 0x00, 0x00], 0).is_err());
    assert!(take_non_terminal_marker_count(&[0xC0, 0xFF, 0xEE], 0).is_err());
}

#[test]
fn test_take_has_position() {
    assert_eq!(take_has_position(&[0x00], 0).unwrap(), (true, 1));
    assert_eq!(take_has_position(&[0x7F], 0).unwrap(), (false, 1));
    assert_eq!(take_has_position(&[0x00, 0x05], 0).unwrap(), (true, 1));
    assert!(take_has_position(&[0xAB, 0x00, 0x01], 0).is_err());
    assert!(take_has_position(&[], 0).is_err());
}

#[test]
fn test_take_position() {
    assert_eq!(
        take_position(&[0x00, 0x00, 0x00, 0x00, 0x00], 0).unwrap(),
        (Some(Position { millis: 0 }), 5)
    );
    assert_eq!(take_position(&[0x7F, 0x7F, 0x7F, 0x7F, 0x7F, 0x00], 0).unwrap(), (None, 5));
}

#[test]
fn test_take_marker_type() {
    assert_eq!(take_marker_type(&[0x00], 0).unwrap(), (MarkerType::Invalid, 1));
    assert_eq!(take_marker_type(&[0x03, 0x01], 0).unwrap(), (MarkerType::Loop, 1));
    assert!(take_marker_type(&[0xAB], 0).is_err());
}

#[test]
fn test_take_color() {
    assert_eq!(
        take_color(&[0xFF, 0x00, 0x10], 0).unwrap(),
        (Color { red: 0xFF, green: 0x00, blue: 0x10 }, 3)
    );
    assert_eq!(
        take_color(&[0x11, 0x22, 0x33, 0x44], 0).unwrap(),
        (Color { red: 0x11, green: 0x22, blue: 0x33 }, 3)
    );
    assert!(take_color(&[0xAB, 0xCD], 0).is_err());
}

#[test]
fn test_take_version() {
    assert_eq!(take_version(&[0x02, 0x05], 0).unwrap(), (Version { major: 2, minor: 5 }, 2));
    assert_eq!(take_version(&[0x01, 0x02, 0x03], 0).unwrap(), (Version { major: 1, minor: 2 }, 2));
    assert!(take_version(&[0x0A], 0).is_err());
}

#[test]
fn test_take_until_nullbyte() {
    assert_eq!(take_until_nullbyte(&[0x41, 0x42, 0x00], 0).unwrap(), 2);
    assert_eq!(take_until_nullbyte(&[0x01, 0x02, 0x00, 0xFF], 0).unwrap(), 2);
    assert!(take_until_nullbyte(&[0xAB, 0xCD], 0).is_err());
}

#[test]
fn test_parse_utf8() {
    assert_eq!(parse_utf8(&[0x41, 0x42]).unwrap(), "AB");
}

#[test]
fn test_take_utf8() {
    assert_eq!(take_utf8(&[0x41, 0x42, 0x00], 0).unwrap(), (String::from("AB"), 3));
}

#[test]
fn test_parse_utf8_multibyte() {
    // a two-byte UTF-8 sequence decodes to one character, so the decoder
    // does not hand its input back unchanged
    let s = parse_utf8(&[0xC3, 0xA9]).unwrap();
    assert_eq!(s.chars().count(), 1);
    assert_eq!(s, "\u{e9}");
    assert!(parse_utf8(&[0xFF]).is_err());
}

#[test]
fn test_serato32_roundtrip() {
    assert_eq!(serato32::decode(0x00, 0x00, 0x01, 0x4C), (0x00, 0x00, 0xCC));
    assert_eq!(serato32::encode(0x00, 0x00, 0xCC), (0x00, 0x00, 0x01, 0x4C));
    for &(d1, d2, d3) in &[(0u8, 0u8, 0xCCu8), (0xCC, 0x88, 0x00), (0xFF, 0xFF, 0xFF), (1, 2, 3)] {
        let (e1, e2, e3, e4) = serato32::encode(d1, d2, d3);
        assert_eq!(serato32::decode(e1, e2, e3, e4), (d1, d2, d3));
    }
}

#[test]
fn test_serato32_take() {
    assert_eq!(serato32::take(&[0x00, 0x00, 0x01, 0x4C], 0).unwrap(), ((0x00, 0x00, 0xCC), 4));
    assert_eq!(
        serato32::take(&[0x00, 0x00, 0x01, 0x4C, 0x7F], 0).unwrap(),
        ((0x00, 0x00, 0xCC), 4)
    );
    assert!(serato32::take(&[0x00, 0x00, 0x01], 0).is_err());
    assert_eq!(
        serato32::take_color(&[0x00, 0x00, 0x01, 0x4C], 0).unwrap(),
        (Color { red: 0x00, green: 0x00, blue: 0xCC }, 4)
    );
    assert_eq!(serato32::take_u32(&[0x00, 0x00, 0x01, 0x4C], 0).unwrap(), (0x0000CC, 4));
}

#[test]
fn test_analysis_roundtrip() {
    let data = [0x02, 0x04];
    let parsed = parse_analysis(&data).unwrap();
    assert_eq!(parsed.version, Version { major: 2, minor: 4 });
    let mut out: Vec<u8> = Vec::new();
    write_analysis(&mut out, &parsed);
    assert_eq!(out, data);
    assert!(parse_analysis(&[0x02]).is_err());
    assert!(parse_analysis(&[0x02, 0x04, 0x00]).is_err());
}

#[test]
fn test_analysis_ogg_roundtrip() {
    let data = *b"2.4";
    let parsed = parse_analysis_ogg(&data).unwrap();
    assert_eq!(parsed.version, Version { major: 2, minor: 4 });
    let mut out: Vec<u8> = Vec::new();
    write_analysis_ogg(&mut out, &parsed);
    assert_eq!(out, data);
    assert_eq!(
        parse_analysis_ogg(b"12.10").unwrap().version,
        Version { major: 12, minor: 10 }
    );
    assert!(parse_analysis_ogg(b"2.").is_err());
    assert!(parse_analysis_ogg(b".4").is_err());
    assert!(parse_analysis_ogg(b"999.1").is_err());
}

#[test]
fn test_autotags_roundtrip() {
    let mut data: Vec<u8> = vec![0x01, 0x01];
    data.extend_from_slice(b"115.00\0");
    data.extend_from_slice(b"-3.257\0");
    data.extend_from_slice(b"0.000\0");
    let parsed = parse_autotags(&data).unwrap();
    assert_eq!(parsed.bpm, "115.00");
    assert_eq!(parsed.auto_gain, "-3.257");
    assert_eq!(parsed.gain_db, "0.000");
    let mut out: Vec<u8> = Vec::new();
    let n = write_autotags(&mut out, &parsed);
    assert_eq!(out, data);
    assert_eq!(n, data.len());
    // a non-numeric field is rejected
    assert!(parse_autotags(b"\x01\x01abc\0-3.257\00.000\0").is_err());
    // trailing bytes are rejected
    let mut extra = data.clone();
    extra.push(0x00);
    assert!(parse_autotags(&extra).is_err());
}

#[test]
fn test_autotags_write_value() {
    let tag = Autotags {
        version: Version { major: 1, minor: 1 },
        bpm: String::from("115.00"),
        auto_gain: String::from("-3.257"),
        gain_db: String::from("0.000"),
    };
    let mut out: Vec<u8> = Vec::new();
    write_autotags(&mut out, &tag);
    assert_eq!(out, b"\x01\x01115.00\0-3.257\00.000\0");
}

#[test]
fn test_beatgrid_roundtrip() {
    // version, total count 3, two non-terminal markers, one terminal
    // marker, footer
    let mut data: Vec<u8> = vec![0x01, 0x00];
    data.extend_from_slice(&[0x00, 0x00, 0x00, 0x03]);
    data.extend_from_slice(&[0x3E, 0x99, 0x99, 0x9A, 0x00, 0x00, 0x00, 0x10]);
    data.extend_from_slice(&[0x41, 0x20, 0x00, 0x00, 0x00, 0x00, 0x00, 0x20]);
    data.extend_from_slice(&[0x42, 0x28, 0x00, 0x00, 0x42, 0xF6, 0x00, 0x00]);
    data.push(0x7F);
    let parsed = parse_beatgrid(&data).unwrap();
    assert_eq!(parsed.non_terminal_markers.len(), 2);
    assert_eq!(parsed.non_terminal_markers[0].beats_till_next_marker, 0x10);
    assert_eq!(parsed.terminal_marker.bpm, 0x42F60000);
    assert_eq!(parsed.footer, 0x7F);
    let mut out: Vec<u8> = Vec::new();
    write_beatgrid(&mut out, &parsed);
    assert_eq!(out, data);
}

#[test]
fn test_beatgrid_zero_total_is_error() {
    // an encoded total marker count of zero is a parse error
    let data = [0x01, 0x00, 0x00, 0x00, 0x00, 0x00, 0x42, 0x28, 0x00, 0x00, 0x00];
    assert!(parse_beatgrid(&data).is_err());
}

#[test]
fn test_beatgrid_count_matches() {
    // the number of non-terminal markers is the encoded total minus one
    let mut data: Vec<u8> = vec![0x01, 0x00];
    data.extend_from_slice(&[0x00, 0x00, 0x00, 0x01]);
    data.extend_from_slice(&[0x42, 0x28, 0x00, 0x00, 0x42, 0xF6, 0x00, 0x00]);
    data.push(0x00);
    let parsed = parse_beatgrid(&data).unwrap();
    assert_eq!(parsed.non_terminal_markers.len(), 0);
    let built = Beatgrid {
        version: Version { major: 1, minor: 0 },
        non_terminal_markers: vec![NonTerminalMarker { position: 0, beats_till_next_marker: 4 }],
        terminal_marker: TerminalMarker { position: 0x41200000, bpm: 0x42F60000 },
        footer: 0,
    };
    let mut out: Vec<u8> = Vec::new();
    write_beatgrid(&mut out, &built);
    // the encoded total is the non-terminal count plus one
    assert_eq!(&out[2..6], &[0x00, 0x00, 0x00, 0x02]);
}

#[test]
fn test_markers_roundtrip() {
    let markers = Markers {
        version: Version { major: 2, minor: 5 },
        entries: vec![
            Marker {
                start_position: Some(Position { millis: 5000 }),
                end_position: None,
                color: Color { red: 0xCC, green: 0x00, blue: 0x00 },
                marker_type: MarkerType::Cue,
                is_locked: false,
            },
            Marker {
                start_position: None,
                end_position: None,
                color: Color { red: 0x00, green: 0x00, blue: 0x00 },
                marker_type: MarkerType::Invalid,
                is_locked: false,
            },
        ],
        track_color: Color { red: 0xFF, green: 0x99, blue: 0xFF },
    };
    let mut data: Vec<u8> = Vec::new();
    write_markers(&mut data, &markers);
    let parsed = parse_markers(&data).unwrap();
    assert_eq!(parsed.entries.len(), 2);
    assert_eq!(parsed.entries[0].start_position, Some(Position { millis: 5000 }));
    assert_eq!(parsed.entries[0].marker_type, MarkerType::Cue);
    assert_eq!(parsed.track_color, Color { red: 0xFF, green: 0x99, blue: 0xFF });
    let mut out: Vec<u8> = Vec::new();
    write_markers(&mut out, &parsed);
    assert_eq!(out, data);
}

#[test]
fn test_markers_bad_sentinel_is_error() {
    // a marker whose position prefix is neither set nor absent is rejected
    let mut data: Vec<u8> = vec![0x02, 0x05, 0x00, 0x00, 0x00, 0x01];
    data.push(0x42); // invalid position prefix
    data.extend_from_slice(&[0; 21]);
    data.extend_from_slice(&[0x00, 0x00, 0x00, 0x00]);
    assert!(parse_markers(&data).is_err());
}

#[test]
fn test_overview_roundtrip() {
    let mut data: Vec<u8> = vec![0x01, 0x05];
    for chunk in 0..3u8 {
        for byte in 0..16u8 {
            data.push(chunk * 16 + byte);
        }
    }
    let parsed = parse_overview(&data).unwrap();
    assert_eq!(parsed.data.len(), 3);
    assert_eq!(parsed.data[1][0], 16);
    let mut out: Vec<u8> = Vec::new();
    write_overview(&mut out, &parsed);
    assert_eq!(out, data);
    // a length that is not a whole number of chunks is rejected
    assert!(parse_overview(&data[..10]).is_err());
    // an empty chunk list is rejected
    assert!(parse_overview(&[0x01, 0x05]).is_err());
}

#[test]
fn test_relvolad_roundtrip() {
    let data = [0x01, 0x00, 0xAA, 0xBB, 0xCC];
    let parsed = parse_relvolad(&data).unwrap();
    assert_eq!(parsed.data, vec![0xAA, 0xBB, 0xCC]);
    let mut out: Vec<u8> = Vec::new();
    write_relvolad(&mut out, &parsed);
    assert_eq!(out, data);
    assert!(parse_relvolad(&[0x01]).is_err());
}

#[test]
fn test_vidassoc_roundtrip() {
    let data = [0x01, 0x00, 0x11, 0x22];
    let parsed = parse_vidassoc(&data).unwrap();
    assert_eq!(parsed.data, vec![0x11, 0x22]);
    let mut out: Vec<u8> = Vec::new();
    write_vidassoc(&mut out, &parsed);
    assert_eq!(out, data);
    assert!(parse_vidassoc(&[]).is_err());
}

#[test]
fn test_write_version_and_color() {
    let mut out: Vec<u8> = Vec::new();
    assert_eq!(write_version(&mut out, Version { major: 1, minor: 2 }), 2);
    assert_eq!(write_color(&mut out, Color { red: 3, green: 4, blue: 5 }), 3);
    assert_eq!(out, vec![1, 2, 3, 4, 5]);
}

#[test]
fn test_hotcue_color_mapping() {
    let intro_color = Color { red: 0xCC, green: 0x88, blue: 0x00 };
    let pro_color = intro_color.into_pro_hotcue_color();
    assert_eq!(pro_color, Color { red: 0xF8, green: 0x82, blue: 0x1A });
    assert_eq!(pro_color.into_intro_hotcue_color(), intro_color);

    let non_intro_color = Color { red: 0xC0, green: 0xFF, blue: 0xEE };
    assert_eq!(non_intro_color.into_pro_hotcue_color(), non_intro_color);
    assert_eq!(non_intro_color.into_intro_hotcue_color(), non_intro_color);
}

#[test]
fn test_track_color_mapping() {
    let stored = Color { red: 0xFF, green: 0x99, blue: 0xFF };
    let displayed = stored.into_displayed_track_color();
    assert_eq!(displayed, Some(Color { red: 0x99, green: 0x33, blue: 0x99 }));
    assert_eq!(Color::from_displayed_track_color(displayed), stored);

    let white = Color { red: 0xFF, green: 0xFF, blue: 0xFF };
    assert_eq!(white.into_displayed_track_color(), None);
    assert_eq!(Color::from_displayed_track_color(None), white);
}

#[test]
fn test_error_variants() {
    assert_eq!(parse_analysis(&[0x01]).unwrap_err(), Error::ParseError);
}
