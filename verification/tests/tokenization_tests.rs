use composer::chord::Chord;
use composer::error::SerializationError;
use composer::fixed::Fixed;
use composer::scale::ScaleFingerprint;
use composer::tokenization::{
    assemble_cluster, detokenize_cluster, detokenize_midi_like, parse_duration_token,
    parse_midi_note_token, parse_number, reconstruct_timeline, token_accepted, tokenize_chord_as_raw,
    tokenize_duration, tokenize_note_as_raw, validate_chord_cluster_token,
    validate_duration_token, validate_octave_token, validate_raw_note_token, validate_token,
    hex_number_text, Note, TokenEvent, TokenEventType, TokenLibrary,
};

fn beats(micros: i64) -> Fixed {
    Fixed { micros }
}

fn major() -> ScaleFingerprint {
    ScaleFingerprint::major_scale()
}

#[test]
fn test_tokenize_duration() {
    let token = tokenize_duration(beats(1_500_000));
    assert_eq!(token, "D_24");
}

#[test]
fn test_parse_duration_token() {
    let duration = parse_duration_token("D_24").unwrap();
    assert_eq!(duration.micros as f64 / 1e6, 1.5);
}

#[test]
fn test_validate_tokens() {
    assert!(validate_duration_token("D_24"));
    assert!(validate_raw_note_token("R_0"));
    assert!(validate_octave_token("O_4"));
    assert!(!validate_duration_token("invalid"));
}

#[test]
fn test_token_library() {
    let mut library = TokenLibrary::new();
    library.add_chord_token("test".to_string(), vec![1, 2, 3, 4, 5]);

    assert_eq!(library.get_library_size(), 1);
    let resolved = library.resolve_chord_token("test").unwrap();
    assert_eq!(resolved, vec![1, 2, 3, 4, 5]);
}

#[test]
fn a_token_added_again_takes_the_new_chord() {
    let mut library = TokenLibrary::default();
    assert_eq!(library.get_library_size(), 0);
    library.add_chord_token("a".to_string(), vec![1]);
    library.add_chord_token("b".to_string(), vec![2]);
    library.add_chord_token("a".to_string(), vec![3]);
    assert_eq!(library.get_library_size(), 2);
    assert_eq!(library.resolve_chord_token("a").unwrap(), vec![3]);
    assert_eq!(library.resolve_chord_token("b").unwrap(), vec![2]);
    match library.resolve_chord_token("c") {
        Err(SerializationError::InvalidFormat { message }) => {
            assert_eq!(message, "Token not found in library: c")
        }
        other => panic!("{:?}", other),
    }
}

#[test]
fn tokens_and_chords_are_added_in_pairs() {
    let mut library = TokenLibrary::new();
    library.update_library(
        vec!["x".to_string(), "y".to_string(), "x".to_string(), "z".to_string()],
        vec![vec![1], vec![2], vec![3]],
    );
    assert_eq!(library.get_library_size(), 2);
    assert_eq!(library.resolve_chord_token("x").unwrap(), vec![3]);
    assert_eq!(library.resolve_chord_token("y").unwrap(), vec![2]);
    assert!(library.resolve_chord_token("z").is_err());
}

#[test]
fn numbers_in_hexadecimal() {
    assert_eq!(hex_number_text(0), "0");
    assert_eq!(hex_number_text(15), "f");
    assert_eq!(hex_number_text(16), "10");
    assert_eq!(hex_number_text(0xDEAD_BEEF), "deadbeef");
    assert_eq!(hex_number_text(u32::MAX), "ffffffff");
}

#[test]
fn numbers_are_read_in_their_radix() {
    let chars: Vec<char> = "x+12ay".chars().collect();
    assert_eq!(parse_number(&chars, 1, 4, 10, 255), Some(12));
    assert_eq!(parse_number(&chars, 2, 4, 10, 255), Some(12));
    assert_eq!(parse_number(&chars, 2, 5, 16, 255), None);
    assert_eq!(parse_number(&chars, 2, 5, 16, 298), Some(0x12A));
    assert_eq!(parse_number(&chars, 2, 5, 10, 1000), None);
    assert_eq!(parse_number(&chars, 1, 2, 10, 255), None);
    assert_eq!(parse_number(&chars, 2, 2, 10, 255), None);
    assert_eq!(parse_number(&chars, 0, 3, 10, 255), None);
    let long: Vec<char> = "0000000000000000000000255".chars().collect();
    assert_eq!(parse_number(&long, 0, long.len(), 10, 255), Some(255));
    let over: Vec<char> = "256".chars().collect();
    assert_eq!(parse_number(&over, 0, 3, 10, 255), None);
    let many: Vec<char> = "99999999999999999999999999999".chars().collect();
    assert_eq!(parse_number(&many, 0, many.len(), 10, u32::MAX), None);
}

#[test]
fn durations_are_rounded_to_the_nearest_tick() {
    assert_eq!(tokenize_duration(beats(0)), "D_0");
    assert_eq!(tokenize_duration(beats(-1_000_000)), "D_0");
    assert_eq!(tokenize_duration(beats(1_000_000)), "D_18");
    // half a tick is 20 833.3 millionths
    assert_eq!(tokenize_duration(beats(20_833)), "D_0");
    assert_eq!(tokenize_duration(beats(20_834)), "D_1");
    assert_eq!(tokenize_duration(beats(4_000_000)), "D_60");
    assert_eq!(tokenize_duration(beats(i64::MAX)), "D_ffffffff");
}

#[test]
fn duration_tokens_are_read_back() {
    assert_eq!(parse_duration_token("D_0").unwrap().micros, 0);
    assert_eq!(parse_duration_token("D_18").unwrap().micros, 1_000_000);
    assert_eq!(parse_duration_token("D_1").unwrap().micros, 41_666);
    assert_eq!(parse_duration_token("D_FF").unwrap().micros, 10_625_000);
    assert_eq!(parse_duration_token("D_+c").unwrap().micros, 500_000);
    assert_eq!(
        parse_duration_token("D_ffffffff").unwrap().micros,
        178_956_970_625_000
    );
    for token in ["", "D", "D_", "d_18", "D_1g", "D_100000000", "X_18", "D_-1", "D_+"] {
        assert!(
            matches!(
                parse_duration_token(token),
                Err(SerializationError::InvalidFormat { .. })
            ),
            "{}",
            token
        );
    }
}

#[test]
fn notes_as_tokens() {
    let scale = major();
    let note = |scale_degree, octave, is_rest| Note { scale_degree, octave, is_rest };
    assert_eq!(
        tokenize_note_as_raw(&note(1, 4, false), &scale).unwrap(),
        "R_1 O_4"
    );
    assert_eq!(
        tokenize_note_as_raw(&note(11, 3, false), &scale).unwrap(),
        "R_b O_3"
    );
    // twelve steps make the next octave
    assert_eq!(
        tokenize_note_as_raw(&note(12, 3, false), &scale).unwrap(),
        "R_0 O_4"
    );
    // octaves are kept between 2 and 7
    assert_eq!(
        tokenize_note_as_raw(&note(0, 0, false), &scale).unwrap(),
        "R_0 O_2"
    );
    assert_eq!(
        tokenize_note_as_raw(&note(0, 9, false), &scale).unwrap(),
        "R_0 O_7"
    );
    // the octave counts in eight bits: 255 * 12 + 255 is 276 twelves and 3
    assert_eq!(
        tokenize_note_as_raw(&note(255, 255, false), &scale).unwrap(),
        "R_3 O_7"
    );
    assert_eq!(
        tokenize_note_as_raw(&note(0, 255, false), &scale).unwrap(),
        "R_0 O_7"
    );
    assert_eq!(
        tokenize_note_as_raw(&note(5, 4, true), &scale).unwrap(),
        "NOTE-REST"
    );
}

#[test]
fn chords_as_tokens() {
    let scale = major();
    assert_eq!(
        tokenize_chord_as_raw(&Chord::new(1, 5).unwrap(), &scale).unwrap(),
        "R_0-R_4-R_7"
    );
    assert_eq!(
        tokenize_chord_as_raw(&Chord::new(5, 7).unwrap(), &scale).unwrap(),
        "R_2-R_5-R_7-R_b"
    );
    // the degrees of the ninth chord on the second degree are 1, 2, 3, 4 and 6
    assert_eq!(
        tokenize_chord_as_raw(&Chord::new(2, 9).unwrap(), &scale).unwrap(),
        "R_0-R_2-R_4-R_5-R_9"
    );
    // an eleventh chord gives the degrees of the triad
    assert_eq!(
        tokenize_chord_as_raw(&Chord::new(4, 11).unwrap(), &scale).unwrap(),
        "R_0-R_5-R_9"
    );
    // an added ninth stands as degree 9, the second step of the scale
    let added = Chord::new(1, 5).unwrap().with_add(9).unwrap();
    assert_eq!(
        tokenize_chord_as_raw(&added, &scale).unwrap(),
        "R_0-R_4-R_7-R_2"
    );
    // an added tone that the chord has already is not written twice
    let sixth = Chord::new(4, 5).unwrap().with_add(6).unwrap();
    assert_eq!(
        tokenize_chord_as_raw(&sixth, &scale).unwrap(),
        "R_0-R_5-R_9"
    );
}

#[test]
fn forms_of_tokens() {
    assert!(token_accepted(Some(true)));
    assert!(!token_accepted(Some(false)));
    assert!(!token_accepted(None));

    assert!(validate_duration_token("D_0"));
    assert!(validate_duration_token("D_deadbeef1234"));
    assert!(!validate_duration_token("D_"));
    assert!(!validate_duration_token("D_2G"));
    assert!(!validate_duration_token("D_24 "));
    assert!(!validate_duration_token("xD_24"));
    assert!(!validate_duration_token("^D_[0-9a-f]+$"));

    assert!(validate_raw_note_token("R_b"));
    assert!(!validate_raw_note_token("R_c"));
    assert!(!validate_raw_note_token("R_10"));
    assert!(!validate_raw_note_token("^R_[0-9a-b]$"));

    assert!(validate_octave_token("O_2"));
    assert!(validate_octave_token("O_7"));
    assert!(!validate_octave_token("O_1"));
    assert!(!validate_octave_token("O_8"));
    assert!(!validate_octave_token("^O_[2-7]$"));

    assert!(validate_chord_cluster_token("R_0-R_4-R_7"));
    assert!(validate_chord_cluster_token("R_0R_4"));
    assert!(validate_chord_cluster_token("R_0-"));
    assert!(!validate_chord_cluster_token("R_0--R_4"));
    assert!(!validate_chord_cluster_token(""));
    assert!(!validate_chord_cluster_token("^(R_[0-9a-b]-?)+$"));

    assert!(validate_token("D_24"));
    assert!(validate_token("R_0"));
    assert!(validate_token("O_4"));
    assert!(validate_token("R_0-R_4"));
    assert!(!validate_token("NOTE-60-ON"));
    assert!(!validate_token(""));
}

#[test]
fn note_tokens_are_read() {
    assert_eq!(
        parse_midi_note_token("NOTE-60-ON").unwrap(),
        Note { scale_degree: 0, octave: 5, is_rest: false }
    );
    assert_eq!(
        parse_midi_note_token("a-255-b").unwrap(),
        Note { scale_degree: 3, octave: 21, is_rest: false }
    );
    assert_eq!(
        parse_midi_note_token("NOTE-+7-ON").unwrap(),
        Note { scale_degree: 7, octave: 0, is_rest: false }
    );
    for token in ["NOTE-256-ON", "NOTE-REST-ON", "NOTE-ON", "NOTE--ON", "NOTE-1-2-ON", "", "60"] {
        assert!(
            matches!(
                parse_midi_note_token(token),
                Err(SerializationError::InvalidFormat { .. })
            ),
            "{}",
            token
        );
    }
}

fn strings(tokens: &[&str]) -> Vec<String> {
    tokens.iter().map(|t| t.to_string()).collect()
}

#[test]
fn timeline_from_tokens() {
    let tokens = strings(&[
        "NOTE-60-ON",
        "DELAY-1.5",
        "CHORD-x-ON",
        "NOTE-REST-ON",
        "DELAY-abc",
        "DELAY-0.25",
        "NOTE-300-ON",
        "NOTE-62-ON",
        "DELAY-2",
        "something",
    ]);
    let timeline = detokenize_midi_like(&tokens, &major()).unwrap();
    assert_eq!(timeline.total_duration.micros, 3_750_000);
    assert_eq!(timeline.events.len(), 3);
    assert_eq!(timeline.events[0].beat.micros, 0);
    assert!(matches!(
        timeline.events[0].event_type,
        TokenEventType::Note(Note { scale_degree: 0, octave: 5, is_rest: false })
    ));
    assert_eq!(timeline.events[1].beat.micros, 1_500_000);
    match &timeline.events[1].event_type {
        TokenEventType::Chord(chord) => {
            assert_eq!(chord.root, 1);
            assert_eq!(chord.chord_type, 5);
        }
        other => panic!("{:?}", other),
    }
    assert_eq!(timeline.events[2].beat.micros, 1_750_000);
    assert!(matches!(
        timeline.events[2].event_type,
        TokenEventType::Note(Note { scale_degree: 2, octave: 5, is_rest: false })
    ));
}

#[test]
fn delays_in_decimal() {
    let total = |token: &str| {
        detokenize_midi_like(&strings(&[token]), &major())
            .unwrap()
            .total_duration
            .micros
    };
    assert_eq!(total("DELAY-1"), 1_000_000);
    assert_eq!(total("DELAY-+1"), 1_000_000);
    assert_eq!(total("DELAY-1."), 1_000_000);
    assert_eq!(total("DELAY-0.5"), 500_000);
    assert_eq!(total("DELAY-0.0000019"), 1);
    assert_eq!(total("DELAY-12.345678"), 12_345_678);
    assert_eq!(total("DELAY-1000000000"), 1_000_000_000_000_000);
    assert_eq!(total("DELAY-1000000001"), 0);
    assert_eq!(total("DELAY-"), 0);
    assert_eq!(total("DELAY-.5"), 0);
    assert_eq!(total("DELAY-1.5.2"), 0);
    assert_eq!(total("DELAY-1-2"), 0);
    assert_eq!(total("DELAY-1,5"), 0);
    assert_eq!(total("DELAY-a"), 0);
}

#[test]
fn empty_list_of_tokens_gives_an_empty_timeline() {
    let timeline = detokenize_midi_like(&[], &major()).unwrap();
    assert!(timeline.events.is_empty());
    assert_eq!(timeline.total_duration.micros, 0);
}

#[test]
fn cluster_from_what_was_found() {
    let (chords, notes, duration) = assemble_cluster(
        Some(strings(&["<CHORD>a</CHORD>", "<CHORD>b</CHORD>"])),
        Some(strings(&["<NOTES>c</NOTES>"])),
        Some(Some("D_24".to_string())),
    )
    .unwrap();
    assert_eq!(chords.len(), 2);
    assert_eq!((chords[0].root, chords[0].chord_type), (1, 5));
    assert_eq!((chords[1].root, chords[1].chord_type), (1, 5));
    assert_eq!(notes, vec![Note { scale_degree: 1, octave: 4, is_rest: false }]);
    assert_eq!(duration.micros, 1_500_000);

    let (chords, notes, duration) =
        assemble_cluster(Some(vec![]), Some(vec![]), Some(None)).unwrap();
    assert!(chords.is_empty());
    assert!(notes.is_empty());
    assert_eq!(duration.micros, 0);

    assert!(assemble_cluster(None, Some(vec![]), Some(None)).is_err());
    assert!(assemble_cluster(Some(vec![]), None, Some(None)).is_err());
    assert!(assemble_cluster(Some(vec![]), Some(vec![]), None).is_err());
    assert!(matches!(
        assemble_cluster(Some(vec![]), Some(vec![]), Some(Some("D_100000000".to_string()))),
        Err(SerializationError::InvalidFormat { .. })
    ));
}

#[test]
fn cluster_from_a_text() {
    let text = "<CHORD>R_0-R_4</CHORD> D_30 <NOTES>R_1 O_4</NOTES><NOTES></NOTES> <CHORD></CHORD> D_18";
    let (chords, notes, duration) = detokenize_cluster(text, &major()).unwrap();
    assert_eq!(chords.len(), 2);
    assert_eq!(notes.len(), 2);
    assert_eq!(duration.micros, 2_000_000);

    let (chords, notes, duration) = detokenize_cluster("nothing here", &major()).unwrap();
    assert!(chords.is_empty());
    assert!(notes.is_empty());
    assert_eq!(duration.micros, 0);

    // only hexadecimal digits in small letters belong to the duration
    let (_, _, duration) = detokenize_cluster("D_1G", &major()).unwrap();
    assert_eq!(duration.micros, 41_666);
    assert!(detokenize_cluster("D_123456789", &major()).is_err());
}

fn note_event(micros: i64, degree: u8) -> TokenEvent {
    TokenEvent {
        beat: beats(micros),
        event_type: TokenEventType::Note(Note { scale_degree: degree, octave: 4, is_rest: false }),
    }
}

fn degree_of(event: &TokenEvent) -> u8 {
    match &event.event_type {
        TokenEventType::Note(note) => note.scale_degree,
        _ => 0,
    }
}

#[test]
fn events_are_put_in_the_order_of_their_beats() {
    let events = vec![
        note_event(2_000_000, 1),
        note_event(1_000_000, 2),
        note_event(2_000_000, 3),
        note_event(0, 4),
        note_event(1_000_000, 5),
        TokenEvent { beat: beats(1_000_000), event_type: TokenEventType::Rest },
        note_event(3_010_000, 6),
    ];
    let timeline = reconstruct_timeline(events);
    let order: Vec<u8> = timeline.events.iter().map(degree_of).collect();
    assert_eq!(order, vec![4, 2, 5, 0, 1, 3, 6]);
    let at: Vec<i64> = timeline.events.iter().map(|e| e.beat.micros).collect();
    assert_eq!(
        at,
        vec![0, 1_000_000, 1_000_000, 1_000_000, 2_000_000, 2_000_000, 3_000_000]
    );
    assert_eq!(timeline.total_duration.micros, 3_010_000);
}

#[test]
fn beats_move_to_the_nearest_tick() {
    let beat_after = |micros: i64| reconstruct_timeline(vec![note_event(micros, 1)]).events[0]
        .beat
        .micros;
    assert_eq!(beat_after(0), 0);
    assert_eq!(beat_after(20_833), 0);
    assert_eq!(beat_after(20_834), 41_666);
    assert_eq!(beat_after(-20_834), -41_666);
    assert_eq!(beat_after(1_499_999), 1_500_000);
    assert_eq!(beat_after(i64::MAX), i64::MAX);
    assert_eq!(beat_after(i64::MIN), i64::MIN);
    let empty = reconstruct_timeline(Vec::new());
    assert!(empty.events.is_empty());
    assert_eq!(empty.total_duration.micros, 0);
}
