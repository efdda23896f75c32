use composer::error::{ChordTheoryError, ConfigError, SerializationError};

#[test]
fn chord_theory_errors() {
    assert_eq!(
        ChordTheoryError::InvalidChordRoot { root: 8 }.to_text(),
        "Invalid chord root degree: 8. Must be 0-7"
    );
    assert_eq!(
        ChordTheoryError::InvalidChordType { chord_type: 6 }.to_text(),
        "Invalid chord type: 6. Must be one of [5, 7, 9, 11, 13]"
    );
    assert_eq!(
        ChordTheoryError::IncompatibleAlterations {
            alterations: vec!["b5".to_string(), "#5".to_string()]
        }
        .to_text(),
        "Incompatible chord alterations: [\"b5\", \"#5\"]"
    );
    assert_eq!(
        ChordTheoryError::IncompatibleAlterations { alterations: vec![] }.to_text(),
        "Incompatible chord alterations: []"
    );
    assert_eq!(
        ChordTheoryError::InvalidAlteration { alteration: "x".to_string() }.to_text(),
        "Invalid alteration: x. Must be one of [b5, #5, b9, #9, #11, b13]"
    );
    assert_eq!(
        ChordTheoryError::InvalidSuspension { suspension: 255 }.to_text(),
        "Invalid suspension: 255. Must be 2 or 4"
    );
    assert!(!ChordTheoryError::InvalidChordRoot { root: 8 }.is_recoverable());
    assert!(!ChordTheoryError::InvalidSuspension { suspension: 3 }.is_recoverable());
    assert!(ChordTheoryError::InvalidScaleFingerprint { reason: String::new() }.is_recoverable());
    assert!(ChordTheoryError::CalculationOverflow { operation: String::new() }.is_recoverable());
}

#[test]
fn serialization_errors() {
    assert_eq!(SerializationError::UnexpectedEof.to_text(), "Unexpected end of file");
    assert_eq!(SerializationError::BufferOverflow.to_text(), "Serialization buffer overflow");
    assert_eq!(
        SerializationError::InvalidChordData { field: "root".to_string() }.to_text(),
        "Invalid chord data structure: root"
    );
    assert!(!SerializationError::BufferOverflow.is_recoverable());
    assert!(!SerializationError::InvalidBinaryFormat { reason: String::new() }.is_recoverable());
    assert!(SerializationError::UnexpectedEof.is_recoverable());
    assert!(SerializationError::TokenLibraryMissing.is_recoverable());
}

#[test]
fn config_errors() {
    assert_eq!(
        ConfigError::InvalidValue { field: "a".to_string(), value: "0".to_string() }.to_text(),
        "Invalid configuration value: a = 0"
    );
    assert_eq!(
        ConfigError::OutOfRange {
            field: "tempo".to_string(),
            min: "60".to_string(),
            max: "200".to_string()
        }
        .to_text(),
        "Configuration value out of range: tempo must be between 60 and 200"
    );
    assert_eq!(
        ConfigError::MissingRequired { field: "x".to_string() }.to_text(),
        "Missing required configuration: x"
    );
}
