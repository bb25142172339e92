use xcm_teleport::error::{CallError, DecodeError, SignerError};

#[test]
fn decode_errors_have_words() {
    assert_eq!(DecodeError::UnexpectedEnd.message(), "unexpected end of input");
    assert_eq!(DecodeError::UnknownTag.message(), "unknown variant tag");
    assert_eq!(DecodeError::NonCanonical.message(), "compact integer not in its shortest form");
    assert_eq!(DecodeError::OutOfRange.message(), "integer out of range");
    assert_eq!(DecodeError::TooManyJunctions.message(), "more than eight junctions");
    assert_eq!(
        DecodeError::VersionMismatch.message(),
        "version tag differs from the expected one"
    );
    assert_eq!(DecodeError::TrailingBytes.message(), "bytes left over after the value");
}

#[test]
fn call_and_signer_errors_have_words() {
    assert_eq!(
        CallError::FeeItemOutOfRange.message(),
        "fee asset index names no entry of the asset bundle"
    );
    assert_eq!(SignerError::SecretString.message(), "Secret string error");
}
