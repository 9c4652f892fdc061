use slsify::error::Error;

#[test]
fn every_error_has_its_message() {
    assert_eq!(Error::Os(5).message(), "kernel call failed");
    assert_eq!(Error::Io.message(), "disk I/O or path manipulation failed");
    assert_eq!(Error::Decode.message(), "corrupted checkpoint");
    assert_eq!(Error::Precondition.message(), "operation misused");
    assert_eq!(Error::Assemble.message(), "bootstrapper program could not be assembled");
}

#[test]
fn errors_are_compared_by_kind_and_number() {
    assert_eq!(Error::Os(5), Error::Os(5));
    assert_ne!(Error::Os(5), Error::Os(3));
    assert_ne!(Error::Io, Error::Decode);
}
