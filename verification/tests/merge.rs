//! Tests for the tag containers and their merge strategies.

use triseratops::container::Container;
use triseratops::error::Error;
use triseratops::tag::color::Color;
use triseratops::tag::container::{TagContainer, TagFormat};
use triseratops::tag::generic::{Cue, Position, Version};
use triseratops::tag::markers::{write_markers, Marker, MarkerType, Markers};
use triseratops::tag::generic::{CensorFlipAction, Flip, FlipAction, JumpFlipAction, Loop};
use triseratops::tag::markers2::{
    write_markers2, BPMLockMarker, Marker as Marker2, Markers2, Markers2Content, UnknownMarker,
};

fn markers_bytes_with(entries: Vec<Marker>) -> Vec<u8> {
    let markers = Markers {
        version: Version { major: 2, minor: 5 },
        entries,
        track_color: Color { red: 0xFF, green: 0x99, blue: 0xFF },
    };
    let mut out: Vec<u8> = Vec::new();
    write_markers(&mut out, &markers);
    out
}

fn markers2_bytes_with(markers: Vec<Marker2>, size: usize) -> Vec<u8> {
    let tag = Markers2 {
        version: Some(Version { major: 1, minor: 1 }),
        size,
        content: Markers2Content { version: Version { major: 1, minor: 1 }, markers },
    };
    let mut out: Vec<u8> = Vec::new();
    write_markers2(&mut out, &tag).unwrap();
    out
}

fn invalid_entry() -> Marker {
    Marker {
        start_position: None,
        end_position: None,
        color: Color { red: 0, green: 0, blue: 0 },
        marker_type: MarkerType::Invalid,
        is_locked: false,
    }
}

fn cue_entry(millis: u32) -> Marker {
    Marker {
        start_position: Some(Position { millis }),
        end_position: None,
        color: Color { red: 0xCC, green: 0x00, blue: 0x00 },
        marker_type: MarkerType::Cue,
        is_locked: false,
    }
}

fn m2_cue(index: u8, millis: u32, label: &str) -> Marker2 {
    Marker2::Cue(Cue {
        index,
        position: Position { millis },
        color: Color { red: 0x00, green: 0xCC, blue: 0x00 },
        label: String::from(label),
    })
}

#[test]
fn test_merge_priority() {
    // a legacy cue at index 2 with a start position wins over the
    // `Serato Markers2` cue at the same index, but keeps its label
    let markers_data = markers_bytes_with(vec![invalid_entry(), invalid_entry(), cue_entry(5000)]);
    let markers2_data = markers2_bytes_with(vec![m2_cue(2, 4000, "Intro")], 470);

    let mut tags = TagContainer::new();
    tags.parse_markers(&markers_data, TagFormat::ID3).unwrap();
    tags.parse_markers2(&markers2_data, TagFormat::ID3).unwrap();

    let cues = tags.cues();
    assert_eq!(cues.len(), 1);
    assert_eq!(cues[0].index, 2);
    assert_eq!(cues[0].position, Position { millis: 5000 });
    assert_eq!(cues[0].color, Color { red: 0xCC, green: 0x00, blue: 0x00 });
    assert_eq!(cues[0].label, "Intro");
}

#[test]
fn test_merge_deletion() {
    // an `Invalid` legacy entry at index 0 deletes the `Serato Markers2`
    // cue at that index
    let markers_data = markers_bytes_with(vec![invalid_entry()]);
    let markers2_data = markers2_bytes_with(vec![m2_cue(0, 1000, "Gone")], 470);

    let mut tags = TagContainer::new();
    tags.parse_markers(&markers_data, TagFormat::ID3).unwrap();
    tags.parse_markers2(&markers2_data, TagFormat::ID3).unwrap();

    let cues = tags.cues();
    assert!(cues.iter().all(|c| c.index != 0));
    assert_eq!(cues.len(), 0);
}

#[test]
fn test_merge_markers2_only_survives() {
    // indices only in `Serato Markers2` survive unchanged
    let markers2_data = markers2_bytes_with(
        vec![m2_cue(1, 1500, "One"), m2_cue(4, 4500, "Four")],
        470,
    );
    let mut tags = TagContainer::new();
    tags.parse_markers2(&markers2_data, TagFormat::ID3).unwrap();
    let cues = tags.cues();
    assert_eq!(cues.len(), 2);
    assert_eq!(cues[0].index, 1);
    assert_eq!(cues[0].label, "One");
    assert_eq!(cues[1].index, 4);
    assert_eq!(cues[1].label, "Four");
}

#[test]
fn test_markers2_padding_length() {
    // re-encoding a tag whose original length included NUL padding
    // reproduces the same total length
    let data = markers2_bytes_with(
        vec![Marker2::BPMLock(BPMLockMarker { is_locked: true })],
        470,
    );
    assert_eq!(data.len(), 470);

    let mut tags = TagContainer::new();
    tags.parse_markers2(&data, TagFormat::ID3).unwrap();
    let rewritten = tags.write_markers2(TagFormat::ID3).unwrap();
    assert_eq!(rewritten.len(), 470);
    assert_eq!(rewritten, data);
}

#[test]
fn test_markers2_roundtrip_id3() {
    let data = markers2_bytes_with(
        vec![
            Marker2::BPMLock(BPMLockMarker { is_locked: false }),
            m2_cue(0, 250, "Drop"),
        ],
        128,
    );
    let mut tags = TagContainer::new();
    tags.parse_markers2(&data, TagFormat::ID3).unwrap();
    assert_eq!(tags.bpm_locked(), Some(false));
    let rewritten = tags.write_markers2(TagFormat::ID3).unwrap();
    assert_eq!(rewritten, data);
}

#[test]
fn test_container_unsupported_and_missing() {
    let mut tags = TagContainer::new();
    assert_eq!(tags.write_markers(TagFormat::ID3).unwrap_err(), Error::NoTagDataAvailable);
    let markers_data = markers_bytes_with(vec![cue_entry(1)]);
    tags.parse_markers(&markers_data, TagFormat::ID3).unwrap();
    assert_eq!(
        tags.parse_markers(&markers_data, TagFormat::FLAC).unwrap_err(),
        Error::UnsupportedTagFormat
    );
    assert_eq!(tags.write_markers(TagFormat::FLAC).unwrap_err(), Error::UnsupportedTagFormat);
}

#[test]
fn test_container_enveloped_roundtrip() {
    // FLAC parsing undoes FLAC writing for the Autotags tag
    let mut autotags_data: Vec<u8> = vec![0x01, 0x01];
    autotags_data.extend_from_slice(b"115.00\0-3.257\00.000\0");

    let mut tags = TagContainer::new();
    tags.parse_autotags(&autotags_data, TagFormat::ID3).unwrap();
    let flac_data = tags.write_autotags(TagFormat::FLAC).unwrap();
    assert_ne!(flac_data, autotags_data);

    let mut tags2 = TagContainer::new();
    tags2.parse_autotags(&flac_data, TagFormat::FLAC).unwrap();
    assert_eq!(tags2.auto_gain(), Some(String::from("-3.257")));
    assert_eq!(tags2.gain_db(), Some(String::from("0.000")));

    // enveloped bytes parsed with a different tag's parser report a name
    // mismatch
    match tags2.parse_beatgrid(&flac_data, TagFormat::FLAC).unwrap_err() {
        Error::EnvelopeNameMismatch { expected, actual } => {
            assert_eq!(expected, "Serato BeatGrid");
            assert_eq!(actual, "Serato Autotags");
        },
        other => panic!("unexpected error: {:?}", other),
    }
}

#[test]
fn test_old_container_merge() {
    // the plain container drops a legacy cue whose index is not in
    // `Serato Markers2`
    let markers_data = markers_bytes_with(vec![cue_entry(5000), cue_entry(7000)]);
    let markers2_data = markers2_bytes_with(vec![m2_cue(1, 6500, "Kept")], 470);

    let mut container = Container::new();
    assert!(!container.parse_markers(&markers_data));
    assert!(!container.parse_markers2(&markers2_data));

    let cues = container.cues();
    assert_eq!(cues.len(), 1);
    assert_eq!(cues[0].index, 1);
    assert_eq!(cues[0].position_millis, 7000);
    assert_eq!(cues[0].label, "Kept");
    assert_eq!(container.track_color(), Some(Color { red: 0xFF, green: 0x99, blue: 0xFF }));
}

#[test]
fn test_old_container_parse_flags() {
    let mut container = Container::new();
    // a failed parse reports true and clears the slot
    assert!(container.parse_analysis(&[0x01]));
    assert!(!container.parse_analysis(&[0x02, 0x04]));
    assert!(container.parse_overview(&[0x01, 0x05]));
    assert_eq!(container.bpm_locked(), None);
    assert_eq!(container.beatgrid().is_none(), true);
    assert_eq!(container.auto_gain(), None);
    assert_eq!(container.gain_db(), None);
}

#[test]
fn test_markers2_ogg_roundtrip() {
    // the Ogg form carries no version prefix and no envelope framing
    let tag = Markers2 {
        version: None,
        size: 0,
        content: Markers2Content {
            version: Version { major: 1, minor: 1 },
            markers: vec![m2_cue(3, 1234, "OggCue")],
        },
    };
    let mut data: Vec<u8> = Vec::new();
    let n = triseratops::tag::markers2::write_markers2_ogg(&mut data, &tag);
    assert_eq!(n, data.len());

    let parsed = triseratops::tag::markers2::parse_markers2_ogg(&data).unwrap();
    assert_eq!(parsed.version, None);
    assert_eq!(parsed.size, data.len());
    assert_eq!(parsed.content, tag.content);

    let mut rewritten: Vec<u8> = Vec::new();
    triseratops::tag::markers2::write_markers2_ogg(&mut rewritten, &parsed);
    assert_eq!(rewritten, data);

    // a version-less tag has no ID3 form
    assert!(write_markers2(&mut Vec::new(), &tag).is_err());
}

#[test]
fn test_container_markers2_ogg() {
    let tag = Markers2 {
        version: None,
        size: 0,
        content: Markers2Content {
            version: Version { major: 1, minor: 1 },
            markers: vec![Marker2::BPMLock(BPMLockMarker { is_locked: true })],
        },
    };
    let mut data: Vec<u8> = Vec::new();
    triseratops::tag::markers2::write_markers2_ogg(&mut data, &tag);

    let mut tags = TagContainer::new();
    tags.parse_markers2(&data, TagFormat::Ogg).unwrap();
    assert_eq!(tags.bpm_locked(), Some(true));
    // a tag read from an Ogg comment has no version and cannot be written
    // back in the ID3 form
    assert!(tags.write_markers2(TagFormat::ID3).is_err());
}

#[test]
fn test_markers_mp4_roundtrip() {
    // the MP4 variant stores plain big-endian positions and colors
    let markers_data = markers_bytes_with(vec![cue_entry(2500), invalid_entry()]);
    let mut tags = TagContainer::new();
    tags.parse_markers(&markers_data, TagFormat::ID3).unwrap();

    let mp4_data = tags.write_markers(TagFormat::MP4).unwrap();
    let mut tags2 = TagContainer::new();
    tags2.parse_markers(&mp4_data, TagFormat::MP4).unwrap();

    let cues = tags2.cues();
    assert_eq!(cues.len(), 1);
    assert_eq!(cues[0].position, Position { millis: 2500 });
    assert_eq!(cues[0].color, Color { red: 0xCC, green: 0x00, blue: 0x00 });
    assert_eq!(tags2.track_color(), Some(Color { red: 0xFF, green: 0x99, blue: 0xFF }));

    // re-encoding the re-parsed tag reproduces the MP4 bytes
    let mp4_again = tags2.write_markers(TagFormat::MP4).unwrap();
    assert_eq!(mp4_again, mp4_data);
}

#[test]
fn test_flip_roundtrip() {
    let flip = Flip {
        index: 0,
        is_enabled: true,
        label: String::from("Edit1"),
        is_loop: false,
        actions: vec![
            FlipAction::Censor(CensorFlipAction {
                start_position_seconds: (1.5f64).to_bits(),
                end_position_seconds: (2.5f64).to_bits(),
                speed_factor: (-1.0f64).to_bits(),
            }),
            FlipAction::Jump(JumpFlipAction {
                source_position_seconds: (2.5f64).to_bits(),
                target_position_seconds: (0.0f64).to_bits(),
            }),
        ],
    };
    let data = markers2_bytes_with(vec![Marker2::Flip(flip.clone())], 470);

    let mut tags = TagContainer::new();
    tags.parse_markers2(&data, TagFormat::ID3).unwrap();
    let flips = tags.flips().unwrap();
    assert_eq!(flips.len(), 1);
    assert_eq!(flips[0].label, "Edit1");
    assert!(flips[0].is_enabled);
    assert_eq!(flips[0].actions, flip.actions);

    let rewritten = tags.write_markers2(TagFormat::ID3).unwrap();
    assert_eq!(rewritten, data);
}

#[test]
fn test_unknown_submarker_preserved() {
    // a sub-marker with an unrecognized name survives a decode-encode
    // round trip unmodified
    let unknown = Marker2::Unknown(UnknownMarker {
        name: String::from("GROOVE"),
        data: vec![0x01, 0x02, 0x03],
    });
    let data = markers2_bytes_with(vec![unknown], 470);

    let mut tags = TagContainer::new();
    tags.parse_markers2(&data, TagFormat::ID3).unwrap();
    let rewritten = tags.write_markers2(TagFormat::ID3).unwrap();
    assert_eq!(rewritten, data);
}

#[test]
fn test_loop_merge_missing_position_drops() {
    // a legacy loop entry missing its end position removes the index even
    // though the other tag carries data for it
    let loop_entry = Marker {
        start_position: Some(Position { millis: 100 }),
        end_position: None,
        color: Color { red: 0x27, green: 0xAA, blue: 0xE1 },
        marker_type: MarkerType::Loop,
        is_locked: false,
    };
    let markers_data = markers_bytes_with(vec![loop_entry]);
    let m2_loop = Marker2::Loop(Loop {
        index: 0,
        start_position: Position { millis: 100 },
        end_position: Position { millis: 900 },
        color: Color { red: 0x27, green: 0xAA, blue: 0xE1 },
        is_locked: false,
        label: String::from("A"),
    });
    let markers2_data = markers2_bytes_with(vec![m2_loop], 470);

    let mut tags = TagContainer::new();
    tags.parse_markers(&markers_data, TagFormat::ID3).unwrap();
    tags.parse_markers2(&markers2_data, TagFormat::ID3).unwrap();
    assert_eq!(tags.loops().len(), 0);
}

#[test]
fn test_markers2_unterminated_is_error() {
    // the base64 run of an ID3-format tag must end at a NUL byte
    let mut data = markers2_bytes_with(vec![m2_cue(0, 1, "A")], 0);
    assert!(!data.contains(&0x00));
    let mut tags = TagContainer::new();
    assert_eq!(tags.parse_markers2(&data, TagFormat::ID3).unwrap_err(), Error::ParseError);
    // with a terminating NUL the same bytes parse
    data.push(0x00);
    tags.parse_markers2(&data, TagFormat::ID3).unwrap();
    assert_eq!(tags.cues().len(), 1);
}

#[test]
fn test_old_container_failure_means_unparseable() {
    let mut container = Container::new();
    // garbage fails and clears the slot; well-formed bytes then succeed
    assert!(container.parse_markers(&[0xDE, 0xAD, 0xBE, 0xEF]));
    let markers_data = markers_bytes_with(vec![cue_entry(42)]);
    assert!(!container.parse_markers(&markers_data));
    assert!(container.parse_markers(&markers_data[..markers_data.len() - 1]));
    assert_eq!(container.track_color(), None);
}
