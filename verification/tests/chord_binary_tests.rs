use composer::chord::{BorrowedScale, Chord};
use composer::chord_binary::{
    chord_binary_to_hex, deserialize_chord, encode_byte_0, encode_byte_1, encode_byte_2,
    encode_byte_3, encode_byte_4, get_scale_index, get_scale_name_from_index,
    get_scale_type_index, hex_to_chord_binary, numeral_candidates, parse_chord_symbol,
    serialize_chord,
};
use composer::error::SerializationError;
use composer::scale::{ScaleFingerprint, ScaleType};

fn test_chord_c_major() -> Chord {
    Chord::new(1, 5).unwrap()
}

fn test_chord_v7() -> Chord {
    Chord::new(5, 7).unwrap()
}

fn test_chord_complex() -> Chord {
    Chord::new(5, 9)
        .unwrap()
        .with_inversion(1)
        .unwrap()
        .with_alteration("b9")
        .unwrap()
        .with_alteration("#11")
        .unwrap()
        .with_suspension(4)
        .unwrap()
        .with_add(6)
        .unwrap()
        .with_omit(5)
        .unwrap()
        .with_borrowed_scale(BorrowedScale::Named("harmonic_minor".to_string()))
        .unwrap()
}

#[test]
fn test_serialize_deserialize_c_major() {
    let chord = test_chord_c_major();
    let binary = serialize_chord(&chord).unwrap();
    let deserialized = deserialize_chord(&binary).unwrap();

    assert_eq!(chord.root, deserialized.root);
    assert_eq!(chord.chord_type, deserialized.chord_type);
    assert_eq!(chord.inversion, deserialized.inversion);
    assert_eq!(chord.applied, deserialized.applied);
}

#[test]
fn test_serialize_deserialize_v7() {
    let chord = test_chord_v7();
    let binary = serialize_chord(&chord).unwrap();
    let deserialized = deserialize_chord(&binary).unwrap();

    assert_eq!(chord.root, deserialized.root);
    assert_eq!(chord.chord_type, deserialized.chord_type);
}

#[test]
fn test_serialize_deserialize_complex() {
    let chord = test_chord_complex();
    let binary = serialize_chord(&chord).unwrap();
    let deserialized = deserialize_chord(&binary).unwrap();

    assert_eq!(chord.root, deserialized.root);
    assert_eq!(chord.chord_type, deserialized.chord_type);
    assert_eq!(chord.inversion, deserialized.inversion);
    assert!(deserialized.alterations.contains("b9"));
    assert!(deserialized.alterations.contains("#11"));
    assert!(deserialized.suspensions.contains(4));
    assert!(deserialized.adds.contains(6));
    assert!(deserialized.omits.contains(5));
    assert!(deserialized.borrowed.is_some());
}

#[test]
fn test_serialize_rest_chord() {
    let chord = Chord::rest();
    let binary = serialize_chord(&chord).unwrap();
    let deserialized = deserialize_chord(&binary).unwrap();

    assert_eq!(deserialized.root, 0);
    assert!(deserialized.is_rest);
}

#[test]
fn test_byte_0_encoding() {
    let chord = Chord::new(3, 5)
        .unwrap()
        .with_add(4)
        .unwrap()
        .with_add(6)
        .unwrap()
        .with_add(9)
        .unwrap();

    let byte = encode_byte_0(&chord).unwrap();
    assert_eq!(byte, 0x3E);
}

#[test]
fn test_byte_1_encoding() {
    let chord = Chord::new(2, 9).unwrap().with_inversion(2).unwrap().with_applied(5).unwrap();

    let byte = encode_byte_1(&chord).unwrap();
    assert_eq!(byte, 0x95);
}

#[test]
fn test_byte_2_encoding() {
    let chord = Chord::new(1, 7)
        .unwrap()
        .with_alteration("b5")
        .unwrap()
        .with_alteration("#9")
        .unwrap()
        .with_alteration("b13")
        .unwrap();

    let byte = encode_byte_2(&chord).unwrap();
    assert_eq!(byte, 0x29);
}

#[test]
fn test_hex_conversion() {
    let chord = test_chord_c_major();
    let binary = serialize_chord(&chord).unwrap();
    let hex = chord_binary_to_hex(&binary);
    let back_to_binary = hex_to_chord_binary(&hex).unwrap();

    assert_eq!(binary, back_to_binary);
}

#[test]
fn test_binary_format_exactly_5_bytes() {
    let chord = test_chord_complex();
    let binary = serialize_chord(&chord).unwrap();

    assert_eq!(binary.len(), 5);
}

#[test]
fn test_invalid_chord_serialization() {
    let mut chord = Chord::new(1, 5).unwrap();
    chord.root = 8;

    assert!(serialize_chord(&chord).is_err());
}

#[test]
fn test_invalid_hex_format() {
    assert!(hex_to_chord_binary("invalid").is_err());
    assert!(hex_to_chord_binary("123").is_err());
    assert!(hex_to_chord_binary("12345678901234").is_err());
}

#[test]
fn test_serialization_round_trip() {
    let test_chords = vec![
        Chord::new(1, 5).unwrap(),
        Chord::new(5, 7).unwrap().with_inversion(2).unwrap(),
        Chord::new(2, 9)
            .unwrap()
            .with_alteration("b5")
            .unwrap()
            .with_alteration("#11")
            .unwrap()
            .with_suspension(4)
            .unwrap()
            .with_add(6)
            .unwrap()
            .with_omit(3)
            .unwrap()
            .with_applied(5)
            .unwrap()
            .with_borrowed_scale(BorrowedScale::Named("harmonic_minor".to_string()))
            .unwrap(),
        Chord::rest(),
    ];

    for original_chord in &test_chords {
        let binary = serialize_chord(original_chord).unwrap();
        assert_eq!(binary.len(), 5);

        let hex = chord_binary_to_hex(&binary);
        assert_eq!(hex.len(), 10);

        let binary_from_hex = hex_to_chord_binary(&hex).unwrap();
        assert_eq!(binary, binary_from_hex);

        let deserialized_chord = deserialize_chord(&binary).unwrap();

        assert_eq!(original_chord.root, deserialized_chord.root);
        assert_eq!(original_chord.chord_type, deserialized_chord.chord_type);
        assert_eq!(original_chord.inversion, deserialized_chord.inversion);
        assert_eq!(original_chord.applied, deserialized_chord.applied);
        assert_eq!(original_chord.is_rest, deserialized_chord.is_rest);

        for alteration in original_chord.alterations.as_slice() {
            assert!(deserialized_chord.alterations.contains(alteration));
        }

        for &suspension in original_chord.suspensions.as_slice() {
            assert!(deserialized_chord.suspensions.contains(suspension));
        }

        for &add in original_chord.adds.as_slice() {
            assert!(deserialized_chord.adds.contains(add));
        }

        for &omit in original_chord.omits.as_slice() {
            assert!(deserialized_chord.omits.contains(omit));
        }

        println!("Serialization test passed for: {} -> {}", original_chord.to_text(), hex);
    }
}

#[test]
fn canonical_chords_come_back_field_by_field() {
    let test_chords = vec![
        Chord::new(1, 5).unwrap(),
        Chord::new(5, 7).unwrap(),
        Chord::new(2, 9).unwrap().with_alteration("#11").unwrap(),
        Chord::new(4, 7).unwrap().with_inversion(2).unwrap(),
        Chord::new(6, 7).unwrap().with_suspension(4).unwrap(),
        Chord::new(3, 7).unwrap().with_applied(6).unwrap(),
        Chord::new(7, 5)
            .unwrap()
            .with_borrowed_scale(BorrowedScale::Named("harmonic_minor".to_string()))
            .unwrap(),
        Chord::rest(),
    ];
    for chord in &test_chords {
        let binary = serialize_chord(chord).unwrap();
        let back = deserialize_chord(&binary).unwrap();
        assert_eq!(&back, chord);
    }
}

#[test]
fn exact_bytes_of_a_full_chord() {
    let binary = serialize_chord(&test_chord_complex()).unwrap();
    // root 5, add 6 | inversion 1, type index 2, applied 0 | #11, b9 | sus4, scale 2 | omit 5
    assert_eq!(binary, [0x54, 0x50, 0x14, 0x82, 0x02]);
    assert_eq!(chord_binary_to_hex(&binary), "5450148202");
    assert_eq!(hex_to_chord_binary("5450148202").unwrap(), binary);
    assert_eq!(hex_to_chord_binary("54501482AB").unwrap(), [0x54, 0x50, 0x14, 0x82, 0xAB]);
    assert_eq!(chord_binary_to_hex(&[0x00, 0xff, 0x0a, 0xa0, 0x9c]), "00ff0aa09c");
}

#[test]
fn decoding_lists_items_in_bit_order() {
    let chord = Chord::new(3, 13)
        .unwrap()
        .with_add(4)
        .unwrap()
        .with_add(9)
        .unwrap()
        .with_alteration("b5")
        .unwrap()
        .with_alteration("b13")
        .unwrap()
        .with_omit(3)
        .unwrap()
        .with_omit(5)
        .unwrap();
    let back = deserialize_chord(&serialize_chord(&chord).unwrap()).unwrap();
    assert_eq!(back.adds.as_slice(), &[9, 4]);
    assert_eq!(back.omits.as_slice(), &[5, 3]);
    assert_eq!(back.alterations.as_slice(), &["b13".to_string(), "b5".to_string()]);
    // encoding what was decoded gives the same bytes
    assert_eq!(serialize_chord(&back).unwrap(), serialize_chord(&chord).unwrap());
    // and a chord in that order comes back field by field
    assert_eq!(deserialize_chord(&serialize_chord(&back).unwrap()).unwrap(), back);
}

#[test]
fn every_plain_chord_round_trips() {
    for root in 1..=7u8 {
        for chord_type in [5u8, 7, 9, 11, 13] {
            for inversion in 0..=3u8 {
                for applied in [0u8, 3, 7] {
                    let chord = Chord::new(root, chord_type)
                        .unwrap()
                        .with_inversion(inversion)
                        .unwrap()
                        .with_applied(applied)
                        .unwrap();
                    let binary = serialize_chord(&chord).unwrap();
                    assert_eq!(deserialize_chord(&binary).unwrap(), chord);
                }
            }
        }
    }
}

#[test]
fn every_combination_of_flags_round_trips() {
    let tokens = ["b13", "#11", "#9", "b9", "#5", "b5"];
    for bits in 0u8..64 {
        let fifths = bits & 0x03 == 0x03;
        let ninths = bits & 0x0c == 0x0c;
        for extra in 0u8..32 {
            let mut chord = Chord::new(4, 7).unwrap();
            for (k, token) in tokens.iter().enumerate() {
                if bits & (0x20 >> k) != 0 {
                    chord.alterations.push(token.to_string());
                }
            }
            if extra & 16 != 0 {
                chord.adds.push(9);
            }
            if extra & 8 != 0 {
                chord.adds.push(6);
            }
            if extra & 4 != 0 {
                chord.adds.push(4);
            }
            if extra & 2 != 0 {
                chord.omits.push(5);
            }
            if extra & 1 != 0 {
                chord.omits.push(3);
            }
            if bits % 3 == 1 {
                chord.suspensions.push(4);
            } else if bits % 3 == 2 {
                chord.suspensions.push(2);
            }
            let binary = serialize_chord(&chord).unwrap();
            assert_eq!(binary[2], bits);
            let back = deserialize_chord(&binary);
            if fifths || ninths {
                assert!(chord.validate().is_err());
                assert!(back.is_err());
            } else {
                assert!(chord.validate().is_ok());
                assert_eq!(back.unwrap(), chord);
            }
        }
    }
}

#[test]
fn borrowed_scales_in_the_binary_form() {
    let base = || Chord::new(1, 5).unwrap();
    for (index, name) in ["minor", "harmonic_minor", "dorian", "mixolydian", "chromatic"]
        .iter()
        .enumerate()
    {
        let chord = base().with_borrowed_scale(BorrowedScale::Named(name.to_string())).unwrap();
        let binary = serialize_chord(&chord).unwrap();
        assert_eq!(binary[3], index as u8 + 1);
        assert_eq!(deserialize_chord(&binary).unwrap(), chord);
    }
    for offset in -8i8..=23 {
        let chord = base().with_borrowed_scale(BorrowedScale::Numeric(offset)).unwrap();
        let binary = serialize_chord(&chord).unwrap();
        assert_eq!(binary[3], 0x20 | (offset + 8) as u8);
        assert_eq!(deserialize_chord(&binary).unwrap(), chord);
    }
    // a name that heads the table has the code of "no borrowed scale"
    let major = base().with_borrowed_scale(BorrowedScale::Named("major".to_string())).unwrap();
    let binary = serialize_chord(&major).unwrap();
    assert_eq!(binary[3], 0);
    assert_eq!(deserialize_chord(&binary).unwrap().borrowed, None);
    // a scale type comes back as the name of its index
    let dorian = base().with_borrowed_scale(BorrowedScale::ScaleType(ScaleType::Dorian)).unwrap();
    assert_eq!(
        deserialize_chord(&serialize_chord(&dorian).unwrap()).unwrap().borrowed,
        Some(BorrowedScale::Named("dorian".to_string()))
    );
    let custom = base()
        .with_borrowed_scale(BorrowedScale::ScaleType(ScaleType::Custom(
            ScaleFingerprint::major_scale(),
        )))
        .unwrap();
    assert_eq!(serialize_chord(&custom).unwrap()[3], 15);
    assert!(deserialize_chord(&serialize_chord(&custom).unwrap()).is_err());
}

#[test]
fn encoding_errors() {
    let base = || Chord::new(1, 5).unwrap();
    let mut chord = base();
    chord.chord_type = 6;
    assert!(matches!(encode_byte_1(&chord), Err(SerializationError::InvalidChordData { .. })));
    let mut chord = base();
    chord.inversion = 4;
    assert!(serialize_chord(&chord).is_err());
    let mut chord = base();
    chord.applied = 8;
    assert!(serialize_chord(&chord).is_err());
    let mut chord = base();
    chord.alterations.push("x".to_string());
    assert!(encode_byte_2(&chord).is_err());
    let mut chord = base();
    chord.borrowed = Some(BorrowedScale::Numeric(24));
    assert!(encode_byte_3(&chord).is_err());
    chord.borrowed = Some(BorrowedScale::Numeric(-9));
    assert!(encode_byte_3(&chord).is_err());
    chord.borrowed = Some(BorrowedScale::Named("lydian".to_string()));
    assert!(serialize_chord(&chord).is_err());
    assert_eq!(encode_byte_4(&base().with_omit(3).unwrap()).unwrap(), 0x01);
    assert_eq!(get_scale_index("dorian").unwrap(), 3);
    assert!(get_scale_index("Dorian").is_err());
    assert_eq!(get_scale_type_index(&ScaleType::Chromatic).unwrap(), 5);
    assert_eq!(get_scale_name_from_index(4).unwrap(), "mixolydian");
    assert!(get_scale_name_from_index(6).is_err());
}

#[test]
fn decoding_errors() {
    let good = serialize_chord(&Chord::new(1, 5).unwrap()).unwrap();
    assert_eq!(good, [0x10, 0x00, 0x00, 0x00, 0x00]);
    for (index, bad) in [(0usize, 0x80u8), (0, 0x01), (1, 0x28), (2, 0x40), (2, 0x80), (3, 0x06), (3, 0x1f), (4, 0x04), (4, 0x80)] {
        let mut binary = good;
        binary[index] |= bad;
        assert!(
            matches!(deserialize_chord(&binary), Err(SerializationError::InvalidChordData { .. })),
            "byte {} with {:#x}",
            index,
            bad
        );
    }
    // both suspensions, or both forms of the fifth, spell no valid chord
    assert!(deserialize_chord(&[0x10, 0x00, 0x00, 0xc0, 0x00]).is_err());
    assert!(deserialize_chord(&[0x10, 0x00, 0x03, 0x00, 0x00]).is_err());
    // a rest is only held to its root
    let rest = deserialize_chord(&[0x00, 0x00, 0x03, 0xc0, 0x00]).unwrap();
    assert!(rest.is_rest);
    assert_eq!(serialize_chord(&rest).unwrap(), [0x00, 0x00, 0x03, 0xc0, 0x00]);
}

#[test]
fn hex_errors() {
    assert!(matches!(
        hex_to_chord_binary("12345678g0"),
        Err(SerializationError::InvalidBinaryFormat { .. })
    ));
    assert!(hex_to_chord_binary("+f+f+f+f+f").is_err());
    assert!(hex_to_chord_binary("").is_err());
    assert!(hex_to_chord_binary("ééééé").is_err());
    assert!(hex_to_chord_binary("0123456789").is_ok());
}

#[test]
fn numerals_in_small_letters() {
    let hex = |root: u8, chord_type: u8| {
        chord_binary_to_hex(&serialize_chord(&Chord::new(root, chord_type).unwrap()).unwrap())
    };
    assert_eq!(numeral_candidates("i", false).unwrap(), vec![hex(1, 5)]);
    assert_eq!(numeral_candidates("ii", false).unwrap(), vec![hex(2, 5)]);
    assert_eq!(numeral_candidates("iii", false).unwrap(), vec![hex(3, 5)]);
    assert_eq!(numeral_candidates("iv", false).unwrap(), vec![hex(4, 5)]);
    assert_eq!(numeral_candidates("v", true).unwrap(), vec![hex(5, 7)]);
    assert_eq!(numeral_candidates("vi", false).unwrap(), vec![hex(6, 5)]);
    assert_eq!(numeral_candidates("vii", false).unwrap(), vec![hex(7, 5)]);
    // sevens and signs for diminished at the end do not count
    assert_eq!(numeral_candidates("v777", true).unwrap(), vec![hex(5, 7)]);
    assert_eq!(numeral_candidates("vii\u{b0}\u{b0}", false).unwrap(), vec![hex(7, 5)]);
    assert_eq!(numeral_candidates("vii\u{b0}7", true).unwrap(), vec![hex(7, 7)]);
    for text in ["", "7", "\u{b0}", "viii", "I", "v7\u{b0}", "x", "iv ", "vi7i"] {
        assert!(
            matches!(
                numeral_candidates(text, false),
                Err(SerializationError::InvalidFormat { .. })
            ),
            "{}",
            text
        );
    }
}

#[test]
fn symbols_of_chords() {
    let hex = |root: u8| {
        chord_binary_to_hex(&serialize_chord(&Chord::new(root, 5).unwrap()).unwrap())
    };
    assert_eq!(parse_chord_symbol("I", "major").unwrap(), vec![hex(1)]);
    assert_eq!(parse_chord_symbol("iv", "major").unwrap(), vec![hex(4)]);
    assert_eq!(parse_chord_symbol("VII\u{b0}", "major").unwrap(), vec![hex(7)]);
    assert_eq!(parse_chord_symbol("V", "major").unwrap(), vec!["5000000000".to_string()]);
    // a digit is neither a letter nor a sign
    assert_eq!(parse_chord_symbol("V7", "major").unwrap(), Vec::<String>::new());
    assert_eq!(parse_chord_symbol("I 6", "major").unwrap(), Vec::<String>::new());
    for text in ["", "VIII", "Cm", "\u{266d}VII", "#iv", "x"] {
        assert!(
            matches!(
                parse_chord_symbol(text, "major"),
                Err(SerializationError::InvalidFormat { .. })
            ),
            "{}",
            text
        );
    }
}

fn fault_of(chord: &Chord) -> String {
    match serialize_chord(chord) {
        Err(SerializationError::InvalidChordData { field }) => field,
        other => panic!("{:?}", other),
    }
}

#[test]
fn encoding_errors_say_what_is_wrong() {
    let base = || Chord::new(1, 5).unwrap();
    let mut chord = base();
    chord.root = 8;
    chord.inversion = 9;
    assert_eq!(fault_of(&chord), "root 8 out of range 0-7");
    let mut chord = base();
    chord.inversion = 255;
    chord.chord_type = 6;
    assert_eq!(fault_of(&chord), "inversion 255 out of range 0-3");
    let mut chord = base();
    chord.chord_type = 6;
    chord.applied = 8;
    assert_eq!(fault_of(&chord), "unsupported chord type 6");
    let mut chord = base();
    chord.applied = 8;
    chord.alterations.push("x".to_string());
    assert_eq!(fault_of(&chord), "applied 8 out of range 0-7");
    let mut chord = base();
    chord.alterations.push("b9".to_string());
    chord.alterations.push("up".to_string());
    chord.alterations.push("down".to_string());
    chord.borrowed = Some(BorrowedScale::Numeric(24));
    assert_eq!(fault_of(&chord), "unsupported alteration up");
    let mut chord = base();
    chord.borrowed = Some(BorrowedScale::Numeric(24));
    assert_eq!(fault_of(&chord), "numeric offset 24 out of range -8 to +23");
    chord.borrowed = Some(BorrowedScale::Numeric(-9));
    assert_eq!(fault_of(&chord), "numeric offset -9 out of range -8 to +23");
    chord.borrowed = Some(BorrowedScale::Numeric(-128));
    assert_eq!(fault_of(&chord), "numeric offset -128 out of range -8 to +23");
    chord.borrowed = Some(BorrowedScale::Named("lydian".to_string()));
    assert_eq!(fault_of(&chord), "unknown scale name lydian");
    assert_eq!(
        get_scale_index("Dorian"),
        Err(SerializationError::InvalidChordData { field: "unknown scale name Dorian".to_string() })
    );
    assert_eq!(
        serialize_chord(&chord).unwrap_err().to_text(),
        "Invalid chord data structure: unknown scale name lydian"
    );
}
