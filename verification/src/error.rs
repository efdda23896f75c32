//! Error types of the engine: chord theory, serialization, pattern store and
//! scorer, and configuration.

use vstd::prelude::*;
use crate::text::{decimal_text, decimal_digits};

verus! {

/// What can be wrong with a chord or a scale.
#[derive(Debug, Clone, PartialEq)]
pub enum ChordTheoryError {
    InvalidChordRoot { root: u8 },
    InvalidChordType { chord_type: u8 },
    InvalidInversion { inversion: u8 },
    InvalidApplied { applied: u8 },
    InvalidScaleFingerprint { reason: String },
    IncompatibleAlterations { alterations: Vec<String> },
    MissingRequiredProperty { property: String },
    ScaleDegreeOutOfRange { degree: u8 },
    InvalidAlteration { alteration: String },
    InvalidSuspension { suspension: u8 },
    CalculationOverflow { operation: String },
}

pub type ChordTheoryResult<T> = Result<T, ChordTheoryError>;

impl ChordTheoryError {
    /// The errors that a caller can get past by supplying other context; a
    /// value that is simply out of range is not among them.
    pub open spec fn recoverable(self) -> bool {
        self is InvalidScaleFingerprint || self is IncompatibleAlterations
            || self is MissingRequiredProperty || self is CalculationOverflow
    }

    pub fn is_recoverable(&self) -> (r: bool)
        ensures
            r == self.recoverable(),
    {
        match self {
            ChordTheoryError::InvalidChordRoot { .. }
            | ChordTheoryError::InvalidChordType { .. }
            | ChordTheoryError::InvalidInversion { .. }
            | ChordTheoryError::InvalidApplied { .. }
            | ChordTheoryError::ScaleDegreeOutOfRange { .. }
            | ChordTheoryError::InvalidAlteration { .. }
            | ChordTheoryError::InvalidSuspension { .. } => false,
            ChordTheoryError::InvalidScaleFingerprint { .. }
            | ChordTheoryError::IncompatibleAlterations { .. }
            | ChordTheoryError::MissingRequiredProperty { .. }
            | ChordTheoryError::CalculationOverflow { .. } => true,
        }
    }
}

/// What can go wrong while encoding or decoding binary data and tokens.
#[derive(Debug, Clone, PartialEq)]
pub enum SerializationError {
    InvalidBinaryFormat { reason: String },
    UnsupportedVersion { version: String },
    CorruptedBinary { details: String },
    TokenLibraryMissing,
    InvalidTokenFormat { token: String },
    BufferOverflow,
    DeserializationFailed { reason: String },
    InvalidChordData { field: String },
    InvalidTrieStructure { reason: String },
    IoError { details: String },
    InvalidFormat { message: String },
    UnexpectedEof,
}

pub type SerializationResult<T> = Result<T, SerializationError>;

impl SerializationError {
    /// Everything but a broken format, an unknown version, corrupted data and
    /// a buffer overflow can be recovered from.
    pub open spec fn recoverable(self) -> bool {
        !(self is InvalidBinaryFormat || self is UnsupportedVersion || self is CorruptedBinary
            || self is BufferOverflow)
    }

    pub fn is_recoverable(&self) -> (r: bool)
        ensures
            r == self.recoverable(),
    {
        match self {
            SerializationError::InvalidBinaryFormat { .. }
            | SerializationError::UnsupportedVersion { .. }
            | SerializationError::CorruptedBinary { .. }
            | SerializationError::BufferOverflow => false,
            SerializationError::TokenLibraryMissing
            | SerializationError::InvalidTokenFormat { .. }
            | SerializationError::DeserializationFailed { .. }
            | SerializationError::InvalidChordData { .. }
            | SerializationError::InvalidTrieStructure { .. }
            | SerializationError::IoError { .. }
            | SerializationError::InvalidFormat { .. }
            | SerializationError::UnexpectedEof => true,
        }
    }
}

/// What can go wrong in the pattern store, the scorer and the engine.
#[derive(Debug, Clone, PartialEq)]
pub enum AiError {
    EngineNotInitialized,
    DataCorruption { details: String },
    MemoryExhausted { limit_mb: u32 },
    PerformanceDegradation { operation: String, ms: u64, limit_ms: u64 },
    InvalidPattern { reason: String },
    SuggestionFailed { reason: String },
    ModelNotFound { model_name: String },
    InvalidModelVersion { version: String },
    CacheFull { cache_name: String },
    AnalysisFailed { reason: String },
}

pub type AiResult<T> = Result<T, AiError>;

/// How grave an error is.
#[derive(Debug, Clone, Copy, PartialEq, Eq, Structural)]
pub enum Severity {
    Low,
    Medium,
    High,
    Critical,
}

impl AiError {
    /// Errors of state and resources can be recovered from; a missing engine,
    /// a malformed pattern and an unknown model cannot.
    pub open spec fn recoverable(self) -> bool {
        self is DataCorruption || self is MemoryExhausted || self is PerformanceDegradation
            || self is SuggestionFailed || self is CacheFull || self is AnalysisFailed
    }

    /// The severity that each error carries.
    pub open spec fn severity_of(self) -> Severity {
        if self is EngineNotInitialized || self is DataCorruption {
            Severity::Critical
        } else if self is MemoryExhausted || self is ModelNotFound || self is InvalidModelVersion {
            Severity::High
        } else if self is InvalidPattern || self is CacheFull {
            Severity::Low
        } else {
            Severity::Medium
        }
    }

    pub fn is_recoverable(&self) -> (r: bool)
        ensures
            r == self.recoverable(),
    {
        match self {
            AiError::EngineNotInitialized
            | AiError::InvalidPattern { .. }
            | AiError::ModelNotFound { .. }
            | AiError::InvalidModelVersion { .. } => false,
            AiError::DataCorruption { .. }
            | AiError::MemoryExhausted { .. }
            | AiError::PerformanceDegradation { .. }
            | AiError::SuggestionFailed { .. }
            | AiError::CacheFull { .. }
            | AiError::AnalysisFailed { .. } => true,
        }
    }

    pub fn severity(&self) -> (s: Severity)
        ensures
            s == self.severity_of(),
    {
        match self {
            AiError::EngineNotInitialized => Severity::Critical,
            AiError::DataCorruption { .. } => Severity::Critical,
            AiError::MemoryExhausted { .. } => Severity::High,
            AiError::PerformanceDegradation { .. } => Severity::Medium,
            AiError::InvalidPattern { .. } => Severity::Low,
            AiError::SuggestionFailed { .. } => Severity::Medium,
            AiError::ModelNotFound { .. } => Severity::High,
            AiError::InvalidModelVersion { .. } => Severity::High,
            AiError::CacheFull { .. } => Severity::Low,
            AiError::AnalysisFailed { .. } => Severity::Medium,
        }
    }
}

/// A configuration value that does not pass validation.
#[derive(Debug, Clone, PartialEq)]
pub enum ConfigError {
    InvalidValue { field: String, value: String },
    OutOfRange { field: String, min: String, max: String },
    MissingRequired { field: String },
}

/// The texts of a list, each in double quotes, with commas between them and
/// square brackets around them.
pub open spec fn quoted_list(items: Seq<String>, upto: nat) -> Seq<char>
    decreases upto,
{
    if upto == 0 || upto > items.len() {
        "["@
    } else if upto == 1 {
        "["@ + "\""@ + items[0]@ + "\""@
    } else {
        quoted_list(items, (upto - 1) as nat) + ", "@ + "\""@ + items[upto - 1]@ + "\""@
    }
}

/// The texts of a list, quoted, between square brackets.
fn quote_list(items: &Vec<String>) -> (s: String)
    ensures
        s@ == quoted_list(items@, items@.len()) + "]"@,
{
    let mut s = String::from_str("[");
    let mut i: usize = 0;
    while i < items.len()
        invariant
            i <= items@.len(),
            s@ == quoted_list(items@, i as nat),
        decreases items@.len() - i,
    {
        if i > 0 {
            s.append(", ");
        }
        s.append("\"");
        s.append(items[i].as_str());
        s.append("\"");
        i = i + 1;
        assert(s@ =~= quoted_list(items@, i as nat));
    }
    s.append("]");
    s
}

impl ChordTheoryError {
    /// The error in words.
    pub open spec fn text(self) -> Seq<char> {
        match self {
            ChordTheoryError::InvalidChordRoot { root } => "Invalid chord root degree: "@
                + decimal_digits(root as nat) + ". Must be 0-7"@,
            ChordTheoryError::InvalidChordType { chord_type } => "Invalid chord type: "@
                + decimal_digits(chord_type as nat) + ". Must be one of [5, 7, 9, 11, 13]"@,
            ChordTheoryError::InvalidInversion { inversion } => "Invalid inversion level: "@
                + decimal_digits(inversion as nat) + ". Must be 0-3"@,
            ChordTheoryError::InvalidApplied { applied } => "Invalid applied degree: "@
                + decimal_digits(applied as nat) + ". Must be 0-7"@,
            ChordTheoryError::InvalidScaleFingerprint { reason } => "Invalid scale fingerprint: "@
                + reason@,
            ChordTheoryError::IncompatibleAlterations {
                alterations,
            } => "Incompatible chord alterations: "@ + quoted_list(
                alterations@,
                alterations@.len(),
            ) + "]"@,
            ChordTheoryError::MissingRequiredProperty {
                property,
            } => "Missing required chord property: "@ + property@,
            ChordTheoryError::ScaleDegreeOutOfRange { degree } => "Scale degree out of range: "@
                + decimal_digits(degree as nat) + ". Must be 1-7"@,
            ChordTheoryError::InvalidAlteration { alteration } => "Invalid alteration: "@
                + alteration@ + ". Must be one of [b5, #5, b9, #9, #11, b13]"@,
            ChordTheoryError::InvalidSuspension { suspension } => "Invalid suspension: "@
                + decimal_digits(suspension as nat) + ". Must be 2 or 4"@,
            ChordTheoryError::CalculationOverflow { operation } => "Calculation overflow in "@
                + operation@,
        }
    }

    /// The error in words.
    pub fn to_text(&self) -> (s: String)
        ensures
            s@ == self.text(),
    {
        match self {
            ChordTheoryError::InvalidChordRoot { root } => {
                frame("Invalid chord root degree: ", decimal_text(*root as u64).as_str(), ". Must be 0-7")
            },
            ChordTheoryError::InvalidChordType { chord_type } => {
                frame("Invalid chord type: ", decimal_text(*chord_type as u64).as_str(), ". Must be one of [5, 7, 9, 11, 13]")
            },
            ChordTheoryError::InvalidInversion { inversion } => {
                frame("Invalid inversion level: ", decimal_text(*inversion as u64).as_str(), ". Must be 0-3")
            },
            ChordTheoryError::InvalidApplied { applied } => {
                frame("Invalid applied degree: ", decimal_text(*applied as u64).as_str(), ". Must be 0-7")
            },
            ChordTheoryError::InvalidScaleFingerprint { reason } => {
                prefixed("Invalid scale fingerprint: ", reason.as_str())
            },
            ChordTheoryError::IncompatibleAlterations { alterations } => {
                prefixed("Incompatible chord alterations: ", quote_list(alterations).as_str())
            },
            ChordTheoryError::MissingRequiredProperty { property } => {
                prefixed("Missing required chord property: ", property.as_str())
            },
            ChordTheoryError::ScaleDegreeOutOfRange { degree } => {
                frame("Scale degree out of range: ", decimal_text(*degree as u64).as_str(), ". Must be 1-7")
            },
            ChordTheoryError::InvalidAlteration { alteration } => {
                frame("Invalid alteration: ", alteration.as_str(), ". Must be one of [b5, #5, b9, #9, #11, b13]")
            },
            ChordTheoryError::InvalidSuspension { suspension } => {
                frame("Invalid suspension: ", decimal_text(*suspension as u64).as_str(), ". Must be 2 or 4")
            },
            ChordTheoryError::CalculationOverflow { operation } => {
                prefixed("Calculation overflow in ", operation.as_str())
            },
        }
    }
}

/// A text behind another.
fn prefixed(before: &str, rest: &str) -> (s: String)
    ensures
        s@ == before@ + rest@,
{
    let mut s = String::from_str(before);
    s.append(rest);
    s
}

/// A text between two others.
fn frame(before: &str, middle: &str, after: &str) -> (s: String)
    ensures
        s@ == before@ + middle@ + after@,
{
    let mut s = String::from_str(before);
    s.append(middle);
    s.append(after);
    s
}

impl SerializationError {
    /// The error in words.
    pub open spec fn text(self) -> Seq<char> {
        match self {
            SerializationError::InvalidBinaryFormat { reason } => "Invalid binary format: "@
                + reason@,
            SerializationError::UnsupportedVersion {
                version,
            } => "Unsupported serialization version: "@ + version@,
            SerializationError::CorruptedBinary { details } => "Corrupted binary data: "@
                + details@,
            SerializationError::TokenLibraryMissing => "Token library not initialized"@,
            SerializationError::InvalidTokenFormat { token } => "Invalid token format: "@ + token@,
            SerializationError::BufferOverflow => "Serialization buffer overflow"@,
            SerializationError::DeserializationFailed { reason } => "Deserialization failed: "@
                + reason@,
            SerializationError::InvalidChordData { field } => "Invalid chord data structure: "@
                + field@,
            SerializationError::InvalidTrieStructure {
                reason,
            } => "Trie structure validation failed: "@ + reason@,
            SerializationError::IoError { details } => "IO error during serialization: "@
                + details@,
            SerializationError::InvalidFormat { message } => "Invalid format: "@ + message@,
            SerializationError::UnexpectedEof => "Unexpected end of file"@,
        }
    }

    /// The error in words.
    pub fn to_text(&self) -> (s: String)
        ensures
            s@ == self.text(),
    {
        match self {
            SerializationError::InvalidBinaryFormat { reason } => {
                prefixed("Invalid binary format: ", reason.as_str())
            },
            SerializationError::UnsupportedVersion { version } => {
                prefixed("Unsupported serialization version: ", version.as_str())
            },
            SerializationError::CorruptedBinary { details } => {
                prefixed("Corrupted binary data: ", details.as_str())
            },
            SerializationError::TokenLibraryMissing => {
                String::from_str("Token library not initialized")
            },
            SerializationError::InvalidTokenFormat { token } => {
                prefixed("Invalid token format: ", token.as_str())
            },
            SerializationError::BufferOverflow => String::from_str("Serialization buffer overflow"),
            SerializationError::DeserializationFailed { reason } => {
                prefixed("Deserialization failed: ", reason.as_str())
            },
            SerializationError::InvalidChordData { field } => {
                prefixed("Invalid chord data structure: ", field.as_str())
            },
            SerializationError::InvalidTrieStructure { reason } => {
                prefixed("Trie structure validation failed: ", reason.as_str())
            },
            SerializationError::IoError { details } => {
                prefixed("IO error during serialization: ", details.as_str())
            },
            SerializationError::InvalidFormat { message } => {
                prefixed("Invalid format: ", message.as_str())
            },
            SerializationError::UnexpectedEof => String::from_str("Unexpected end of file"),
        }
    }
}

impl AiError {
    /// The error in words.
    pub open spec fn text(self) -> Seq<char> {
        match self {
            AiError::EngineNotInitialized => "Engine not initialized"@,
            AiError::DataCorruption { details } => "Data corruption detected: "@ + details@,
            AiError::MemoryExhausted { limit_mb } => "Memory exhausted: "@ + decimal_digits(
                limit_mb as nat,
            ) + "MB limit exceeded"@,
            AiError::PerformanceDegradation {
                operation,
                ms,
                limit_ms,
            } => "Performance degradation: "@ + operation@ + " took "@ + decimal_digits(ms as nat)
                + "ms (limit: "@ + decimal_digits(limit_ms as nat) + "ms)"@,
            AiError::InvalidPattern { reason } => "Invalid pattern: "@ + reason@,
            AiError::SuggestionFailed { reason } => "Suggestion generation failed: "@ + reason@,
            AiError::ModelNotFound { model_name } => "Model not found: "@ + model_name@,
            AiError::InvalidModelVersion { version } => "Invalid model version: "@ + version@,
            AiError::CacheFull { cache_name } => "Cache full: "@ + cache_name@ + " at capacity"@,
            AiError::AnalysisFailed { reason } => "Analysis failed: "@ + reason@,
        }
    }

    /// The error in words.
    pub fn to_text(&self) -> (s: String)
        ensures
            s@ == self.text(),
    {
        match self {
            AiError::EngineNotInitialized => String::from_str("Engine not initialized"),
            AiError::DataCorruption { details } => {
                prefixed("Data corruption detected: ", details.as_str())
            },
            AiError::MemoryExhausted { limit_mb } => {
                frame("Memory exhausted: ", decimal_text(*limit_mb as u64).as_str(), "MB limit exceeded")
            },
            AiError::PerformanceDegradation { operation, ms, limit_ms } => {
                let mut s = frame("Performance degradation: ", operation.as_str(), " took ");
                s.append(decimal_text(*ms).as_str());
                s.append("ms (limit: ");
                s.append(decimal_text(*limit_ms).as_str());
                s.append("ms)");
                s
            },
            AiError::InvalidPattern { reason } => prefixed("Invalid pattern: ", reason.as_str()),
            AiError::SuggestionFailed { reason } => {
                prefixed("Suggestion generation failed: ", reason.as_str())
            },
            AiError::ModelNotFound { model_name } => {
                prefixed("Model not found: ", model_name.as_str())
            },
            AiError::InvalidModelVersion { version } => {
                prefixed("Invalid model version: ", version.as_str())
            },
            AiError::CacheFull { cache_name } => {
                frame("Cache full: ", cache_name.as_str(), " at capacity")
            },
            AiError::AnalysisFailed { reason } => prefixed("Analysis failed: ", reason.as_str()),
        }
    }
}

impl ConfigError {
    /// The error in words.
    pub open spec fn text(self) -> Seq<char> {
        match self {
            ConfigError::InvalidValue { field, value } => "Invalid configuration value: "@ + field@
                + " = "@ + value@,
            ConfigError::OutOfRange {
                field,
                min,
                max,
            } => "Configuration value out of range: "@ + field@ + " must be between "@ + min@
                + " and "@ + max@,
            ConfigError::MissingRequired { field } => "Missing required configuration: "@ + field@,
        }
    }

    /// The error in words.
    pub fn to_text(&self) -> (s: String)
        ensures
            s@ == self.text(),
    {
        match self {
            ConfigError::InvalidValue { field, value } => {
                let mut s = frame("Invalid configuration value: ", field.as_str(), " = ");
                s.append(value.as_str());
                s
            },
            ConfigError::OutOfRange { field, min, max } => {
                let mut s = frame("Configuration value out of range: ", field.as_str(), " must be between ");
                s.append(min.as_str());
                s.append(" and ");
                s.append(max.as_str());
                s
            },
            ConfigError::MissingRequired { field } => {
                prefixed("Missing required configuration: ", field.as_str())
            },
        }
    }
}

} // verus!
