use vstd::prelude::*;

verus! {

/// Failure taxonomy shared by every decoder and encoder in this crate.
///
/// `IOError` is reserved for callers that drive a byte source and need to
/// surface a transport failure through the same result type; the verified
/// code in this crate never constructs it.
#[derive(Clone, Copy, Debug, PartialEq, Eq, Structural)]
pub enum CodecErrorKind {
    InvalidData,
    NegativeSize,
    BadVersion,
    NotImplemented,
    DepthLimit,
    UnknownMethod,
    IOError,
}

/// An error carrying its taxonomy kind and a short static message.
#[derive(Clone, Copy, Debug)]
pub struct CodecError {
    pub kind: CodecErrorKind,
    pub message: &'static str,
}

impl CodecError {
    /// Build an error of the given kind with a descriptive message.
    pub fn new(kind: CodecErrorKind, message: &'static str) -> (r: CodecError)
        ensures
            r.kind == kind,
            r.message@ == message@,
    {
        CodecError { kind, message }
    }

    /// The generic malformed-input error.
    pub fn invalid_data() -> (r: CodecError)
        ensures
            r.kind == CodecErrorKind::InvalidData,
            r.message@ == "invalid data"@,
    {
        CodecError { kind: CodecErrorKind::InvalidData, message: "invalid data" }
    }
}

impl CodecErrorKind {
    /// A short name for the kind, for error reports.
    pub fn as_str(self) -> (r: &'static str)
        ensures
            self == CodecErrorKind::InvalidData ==> r@ == "InvalidData"@,
            self == CodecErrorKind::NegativeSize ==> r@ == "NegativeSize"@,
            self == CodecErrorKind::BadVersion ==> r@ == "BadVersion"@,
            self == CodecErrorKind::NotImplemented ==> r@ == "NotImplemented"@,
            self == CodecErrorKind::DepthLimit ==> r@ == "DepthLimit"@,
            self == CodecErrorKind::UnknownMethod ==> r@ == "UnknownMethod"@,
            self == CodecErrorKind::IOError ==> r@ == "IOError"@,
    {
        match self {
            CodecErrorKind::InvalidData => "InvalidData",
            CodecErrorKind::NegativeSize => "NegativeSize",
            CodecErrorKind::BadVersion => "BadVersion",
            CodecErrorKind::NotImplemented => "NotImplemented",
            CodecErrorKind::DepthLimit => "DepthLimit",
            CodecErrorKind::UnknownMethod => "UnknownMethod",
            CodecErrorKind::IOError => "IOError",
        }
    }
}

} // verus!
