//! The failures that the store reports, as one closed set.

use vstd::prelude::*;
use vstd::string::*;

verus! {

/// The broad class of a failure, for callers that react to the class alone.
#[derive(Clone, Copy, PartialEq, Eq, Debug, Structural)]
pub enum ErrorKind {
    /// A parameter names something unsupported or is too weak to accept.
    Configuration,
    /// The passphrase, the metadata or the ciphertext is not the one that was sealed.
    Authentication,
    /// No entry is stored under the path that was asked for.
    NotFound,
    /// The store's own records contradict each other.
    Integrity,
    /// Bytes that were read are not in the form they must have.
    Format,
    /// The machine could not supply what was asked of it.
    Io,
}

/// Every failure of the library.
#[derive(Clone, Copy, PartialEq, Eq, Debug, Structural)]
pub enum Error {
    /// The key-derivation algorithm named in the metadata is not supported.
    UnsupportedKdf,
    /// The cipher named in the metadata is not supported.
    UnsupportedAead,
    /// The binary encoding named in the metadata is not supported.
    UnsupportedEncoding,
    /// The key length is below 128 bits.
    KeyTooShort,
    /// The key length is not a whole number of bytes.
    KeyLengthNotByteAligned,
    /// The key length is not the one the cipher takes.
    KeyLengthMismatch,
    /// The iteration count is below the floor.
    TooFewIterations,
    /// The nonce in the metadata does not have the length the cipher takes.
    NonceLengthMismatch,
    /// A bit count that must be a whole number of bytes is not.
    BitsNotByteAligned,
    /// An input is longer than the primitive accepts.
    InputTooLong,
    /// Opening the ciphertext failed.
    Authentication,
    /// No entry has the path.
    NotFound,
    /// The nonce is already in the ledger.
    NonceAlreadyBurnt,
    /// No unused nonce was found within the retry budget.
    NonceExhausted,
    /// No unused file name was found within the retry budget.
    NameExhausted,
    /// More than one manifest row has the path.
    DuplicateEntry,
    /// A file that a manifest row or the layout names is missing.
    MissingFile,
    /// A merge left conflicts in the index.
    MergeConflict,
    /// The logical path is empty or holds a reserved character.
    InvalidPath,
    /// Text that must be URL-safe base64 is not.
    BadEncoding,
    /// Bytes that must be a document of the expected shape are not.
    Malformed,
    /// The system's random source failed.
    RandomSource,
    /// The version-control engine reported a failure.
    Repository,
}

impl Error {
    /// The class of this failure.
    pub open spec fn spec_kind(self) -> ErrorKind {
        match self {
            Error::UnsupportedKdf
            | Error::UnsupportedAead
            | Error::UnsupportedEncoding
            | Error::KeyTooShort
            | Error::KeyLengthNotByteAligned
            | Error::KeyLengthMismatch
            | Error::TooFewIterations
            | Error::NonceLengthMismatch
            | Error::BitsNotByteAligned
            | Error::InputTooLong => ErrorKind::Configuration,
            Error::Authentication => ErrorKind::Authentication,
            Error::NotFound => ErrorKind::NotFound,
            Error::NonceAlreadyBurnt
            | Error::NonceExhausted
            | Error::NameExhausted
            | Error::DuplicateEntry
            | Error::MissingFile
            | Error::MergeConflict => ErrorKind::Integrity,
            Error::InvalidPath | Error::BadEncoding | Error::Malformed => ErrorKind::Format,
            Error::RandomSource | Error::Repository => ErrorKind::Io,
        }
    }

    #[verifier::when_used_as_spec(spec_kind)]
    pub fn kind(self) -> (k: ErrorKind)
        ensures
            k == self.spec_kind(),
    {
        match self {
            Error::UnsupportedKdf
            | Error::UnsupportedAead
            | Error::UnsupportedEncoding
            | Error::KeyTooShort
            | Error::KeyLengthNotByteAligned
            | Error::KeyLengthMismatch
            | Error::TooFewIterations
            | Error::NonceLengthMismatch
            | Error::BitsNotByteAligned
            | Error::InputTooLong => ErrorKind::Configuration,
            Error::Authentication => ErrorKind::Authentication,
            Error::NotFound => ErrorKind::NotFound,
            Error::NonceAlreadyBurnt
            | Error::NonceExhausted
            | Error::NameExhausted
            | Error::DuplicateEntry
            | Error::MissingFile
            | Error::MergeConflict => ErrorKind::Integrity,
            Error::InvalidPath | Error::BadEncoding | Error::Malformed => ErrorKind::Format,
            Error::RandomSource | Error::Repository => ErrorKind::Io,
        }
    }

    /// What is shown for this failure.
    pub open spec fn spec_message(self) -> Seq<char> {
        match self {
            Error::UnsupportedKdf => "the key-derivation algorithm is not supported"@,
            Error::UnsupportedAead => "the cipher is not supported"@,
            Error::UnsupportedEncoding => "the binary encoding is not supported"@,
            Error::KeyTooShort => "the key is shorter than 128 bits"@,
            Error::KeyLengthNotByteAligned => "the key length is not a multiple of 8 bits"@,
            Error::KeyLengthMismatch => "the key length is not the one the cipher takes"@,
            Error::TooFewIterations => "the iteration count is below the floor"@,
            Error::NonceLengthMismatch => "the nonce length is not the one the cipher takes"@,
            Error::BitsNotByteAligned => "the number of bits is not a multiple of 8"@,
            Error::InputTooLong => "an input is longer than the primitive accepts"@,
            Error::Authentication => "failed to decrypt: wrong passphrase, or changed metadata or ciphertext"@,
            Error::NotFound => "no entry with the given path"@,
            Error::NonceAlreadyBurnt => "the nonce has already been burnt"@,
            Error::NonceExhausted => "failed to generate a unique nonce"@,
            Error::NameExhausted => "failed to generate an unused file name"@,
            Error::DuplicateEntry => "multiple entries with the given path"@,
            Error::MissingFile => "a file of the store is missing"@,
            Error::MergeConflict => "the merge left conflicts"@,
            Error::InvalidPath => "the logical path is empty or holds a reserved character"@,
            Error::BadEncoding => "not URL-safe base64"@,
            Error::Malformed => "not a document of the expected shape"@,
            Error::RandomSource => "the random source failed"@,
            Error::Repository => "the version-control engine failed"@,
        }
    }

    /// The text that is shown for this failure.
    pub fn message(self) -> (s: String)
        ensures
            s@ == self.spec_message(),
    {
        match self {
            Error::UnsupportedKdf => "the key-derivation algorithm is not supported".to_owned(),
            Error::UnsupportedAead => "the cipher is not supported".to_owned(),
            Error::UnsupportedEncoding => "the binary encoding is not supported".to_owned(),
            Error::KeyTooShort => "the key is shorter than 128 bits".to_owned(),
            Error::KeyLengthNotByteAligned => "the key length is not a multiple of 8 bits".to_owned(),
            Error::KeyLengthMismatch => "the key length is not the one the cipher takes".to_owned(),
            Error::TooFewIterations => "the iteration count is below the floor".to_owned(),
            Error::NonceLengthMismatch => "the nonce length is not the one the cipher takes".to_owned(),
            Error::BitsNotByteAligned => "the number of bits is not a multiple of 8".to_owned(),
            Error::InputTooLong => "an input is longer than the primitive accepts".to_owned(),
            Error::Authentication => "failed to decrypt: wrong passphrase, or changed metadata or ciphertext".to_owned(),
            Error::NotFound => "no entry with the given path".to_owned(),
            Error::NonceAlreadyBurnt => "the nonce has already been burnt".to_owned(),
            Error::NonceExhausted => "failed to generate a unique nonce".to_owned(),
            Error::NameExhausted => "failed to generate an unused file name".to_owned(),
            Error::DuplicateEntry => "multiple entries with the given path".to_owned(),
            Error::MissingFile => "a file of the store is missing".to_owned(),
            Error::MergeConflict => "the merge left conflicts".to_owned(),
            Error::InvalidPath => "the logical path is empty or holds a reserved character".to_owned(),
            Error::BadEncoding => "not URL-safe base64".to_owned(),
            Error::Malformed => "not a document of the expected shape".to_owned(),
            Error::RandomSource => "the random source failed".to_owned(),
            Error::Repository => "the version-control engine failed".to_owned(),
        }
    }

    /// Whether this is the answer to a lookup of a path that holds nothing.
    pub fn is_not_found(self) -> (b: bool)
        ensures
            b == (self == Error::NotFound),
    {
        match self {
            Error::NotFound => true,
            _ => false,
        }
    }
}

} // verus!
