//! IPP tag tables: delimiter and value tags, operation identifiers and
//! status codes, each a bidirectional map between variant and wire byte or
//! code. Unknown bytes and codes are protocol errors, never silently mapped.
use vstd::prelude::*;

use crate::error::IppError;

verus! {

/// A delimiter tag (0x01 to 0x05, marking attribute-group boundaries and
/// end-of-attributes) or a value tag (0x10 and up, typing an attribute
/// value). During decoding, any byte below 0x10 ends the current
/// attribute-group scan.
#[derive(Debug, Clone, Copy, PartialEq, Eq, Structural)]
pub enum DelimiterOrValueTag {
    OperationAttributesTag,
    JobAttributesTag,
    EndOfAttributesTag,
    PrinterAttributesTag,
    UnsupportedAttributesTag,
    Unsupported,
    Unknown,
    NoValue,
    Integer,
    Boolean,
    Enum,
    OctetStringUnspecified,
    DateTime,
    Resolution,
    RangeOfInteger,
    BegCollection,
    TextWithLanguage,
    NameWithLanguage,
    EndCollection,
    TextWithoutLanguage,
    NameWithoutLanguage,
    Keyword,
    Uri,
    UriScheme,
    Charset,
    NaturalLanguage,
    MimeMediaType,
    MemberAttrName,
}

/// The wire byte of each tag.
pub open spec fn tag_code(t: DelimiterOrValueTag) -> u8 {
    match t {
        DelimiterOrValueTag::OperationAttributesTag => 0x01,
        DelimiterOrValueTag::JobAttributesTag => 0x02,
        DelimiterOrValueTag::EndOfAttributesTag => 0x03,
        DelimiterOrValueTag::PrinterAttributesTag => 0x04,
        DelimiterOrValueTag::UnsupportedAttributesTag => 0x05,
        DelimiterOrValueTag::Unsupported => 0x10,
        DelimiterOrValueTag::Unknown => 0x12,
        DelimiterOrValueTag::NoValue => 0x13,
        DelimiterOrValueTag::Integer => 0x21,
        DelimiterOrValueTag::Boolean => 0x22,
        DelimiterOrValueTag::Enum => 0x23,
        DelimiterOrValueTag::OctetStringUnspecified => 0x30,
        DelimiterOrValueTag::DateTime => 0x31,
        DelimiterOrValueTag::Resolution => 0x32,
        DelimiterOrValueTag::RangeOfInteger => 0x33,
        DelimiterOrValueTag::BegCollection => 0x34,
        DelimiterOrValueTag::TextWithLanguage => 0x35,
        DelimiterOrValueTag::NameWithLanguage => 0x36,
        DelimiterOrValueTag::EndCollection => 0x37,
        DelimiterOrValueTag::TextWithoutLanguage => 0x41,
        DelimiterOrValueTag::NameWithoutLanguage => 0x42,
        DelimiterOrValueTag::Keyword => 0x44,
        DelimiterOrValueTag::Uri => 0x45,
        DelimiterOrValueTag::UriScheme => 0x46,
        DelimiterOrValueTag::Charset => 0x47,
        DelimiterOrValueTag::NaturalLanguage => 0x48,
        DelimiterOrValueTag::MimeMediaType => 0x49,
        DelimiterOrValueTag::MemberAttrName => 0x4A,
    }
}

/// The tag a wire byte stands for, if any.
pub open spec fn spec_tag_from_byte(b: u8) -> Option<DelimiterOrValueTag> {
    match b {
        0x01u8 => Some(DelimiterOrValueTag::OperationAttributesTag),
        0x02u8 => Some(DelimiterOrValueTag::JobAttributesTag),
        0x03u8 => Some(DelimiterOrValueTag::EndOfAttributesTag),
        0x04u8 => Some(DelimiterOrValueTag::PrinterAttributesTag),
        0x05u8 => Some(DelimiterOrValueTag::UnsupportedAttributesTag),
        0x10u8 => Some(DelimiterOrValueTag::Unsupported),
        0x12u8 => Some(DelimiterOrValueTag::Unknown),
        0x13u8 => Some(DelimiterOrValueTag::NoValue),
        0x21u8 => Some(DelimiterOrValueTag::Integer),
        0x22u8 => Some(DelimiterOrValueTag::Boolean),
        0x23u8 => Some(DelimiterOrValueTag::Enum),
        0x30u8 => Some(DelimiterOrValueTag::OctetStringUnspecified),
        0x31u8 => Some(DelimiterOrValueTag::DateTime),
        0x32u8 => Some(DelimiterOrValueTag::Resolution),
        0x33u8 => Some(DelimiterOrValueTag::RangeOfInteger),
        0x34u8 => Some(DelimiterOrValueTag::BegCollection),
        0x35u8 => Some(DelimiterOrValueTag::TextWithLanguage),
        0x36u8 => Some(DelimiterOrValueTag::NameWithLanguage),
        0x37u8 => Some(DelimiterOrValueTag::EndCollection),
        0x41u8 => Some(DelimiterOrValueTag::TextWithoutLanguage),
        0x42u8 => Some(DelimiterOrValueTag::NameWithoutLanguage),
        0x44u8 => Some(DelimiterOrValueTag::Keyword),
        0x45u8 => Some(DelimiterOrValueTag::Uri),
        0x46u8 => Some(DelimiterOrValueTag::UriScheme),
        0x47u8 => Some(DelimiterOrValueTag::Charset),
        0x48u8 => Some(DelimiterOrValueTag::NaturalLanguage),
        0x49u8 => Some(DelimiterOrValueTag::MimeMediaType),
        0x4Au8 => Some(DelimiterOrValueTag::MemberAttrName),
        _ => None,
    }
}

/// Whether the tag delimits attribute groups rather than typing a value.
pub open spec fn spec_is_delimiter(t: DelimiterOrValueTag) -> bool {
    crate::spec_is_delimiter_byte(tag_code(t))
}

impl DelimiterOrValueTag {
    /// The wire byte of this tag.
    pub fn to_byte(self) -> (b: u8)
        ensures
            b == tag_code(self),
    {
        match self {
            DelimiterOrValueTag::OperationAttributesTag => 0x01,
            DelimiterOrValueTag::JobAttributesTag => 0x02,
            DelimiterOrValueTag::EndOfAttributesTag => 0x03,
            DelimiterOrValueTag::PrinterAttributesTag => 0x04,
            DelimiterOrValueTag::UnsupportedAttributesTag => 0x05,
            DelimiterOrValueTag::Unsupported => 0x10,
            DelimiterOrValueTag::Unknown => 0x12,
            DelimiterOrValueTag::NoValue => 0x13,
            DelimiterOrValueTag::Integer => 0x21,
            DelimiterOrValueTag::Boolean => 0x22,
            DelimiterOrValueTag::Enum => 0x23,
            DelimiterOrValueTag::OctetStringUnspecified => 0x30,
            DelimiterOrValueTag::DateTime => 0x31,
            DelimiterOrValueTag::Resolution => 0x32,
            DelimiterOrValueTag::RangeOfInteger => 0x33,
            DelimiterOrValueTag::BegCollection => 0x34,
            DelimiterOrValueTag::TextWithLanguage => 0x35,
            DelimiterOrValueTag::NameWithLanguage => 0x36,
            DelimiterOrValueTag::EndCollection => 0x37,
            DelimiterOrValueTag::TextWithoutLanguage => 0x41,
            DelimiterOrValueTag::NameWithoutLanguage => 0x42,
            DelimiterOrValueTag::Keyword => 0x44,
            DelimiterOrValueTag::Uri => 0x45,
            DelimiterOrValueTag::UriScheme => 0x46,
            DelimiterOrValueTag::Charset => 0x47,
            DelimiterOrValueTag::NaturalLanguage => 0x48,
            DelimiterOrValueTag::MimeMediaType => 0x49,
            DelimiterOrValueTag::MemberAttrName => 0x4A,
        }
    }

    /// The tag a wire byte stands for; an unknown byte is a protocol error.
    pub fn from_byte(b: u8) -> (r: Result<DelimiterOrValueTag, IppError>)
        ensures
            (match r {
                Ok(t) => spec_tag_from_byte(b) == Some(t),
                Err(e) => spec_tag_from_byte(b) is None && e == IppError::Protocol,
            }),
    {
        match b {
            0x01u8 => Ok(DelimiterOrValueTag::OperationAttributesTag),
            0x02u8 => Ok(DelimiterOrValueTag::JobAttributesTag),
            0x03u8 => Ok(DelimiterOrValueTag::EndOfAttributesTag),
            0x04u8 => Ok(DelimiterOrValueTag::PrinterAttributesTag),
            0x05u8 => Ok(DelimiterOrValueTag::UnsupportedAttributesTag),
            0x10u8 => Ok(DelimiterOrValueTag::Unsupported),
            0x12u8 => Ok(DelimiterOrValueTag::Unknown),
            0x13u8 => Ok(DelimiterOrValueTag::NoValue),
            0x21u8 => Ok(DelimiterOrValueTag::Integer),
            0x22u8 => Ok(DelimiterOrValueTag::Boolean),
            0x23u8 => Ok(DelimiterOrValueTag::Enum),
            0x30u8 => Ok(DelimiterOrValueTag::OctetStringUnspecified),
            0x31u8 => Ok(DelimiterOrValueTag::DateTime),
            0x32u8 => Ok(DelimiterOrValueTag::Resolution),
            0x33u8 => Ok(DelimiterOrValueTag::RangeOfInteger),
            0x34u8 => Ok(DelimiterOrValueTag::BegCollection),
            0x35u8 => Ok(DelimiterOrValueTag::TextWithLanguage),
            0x36u8 => Ok(DelimiterOrValueTag::NameWithLanguage),
            0x37u8 => Ok(DelimiterOrValueTag::EndCollection),
            0x41u8 => Ok(DelimiterOrValueTag::TextWithoutLanguage),
            0x42u8 => Ok(DelimiterOrValueTag::NameWithoutLanguage),
            0x44u8 => Ok(DelimiterOrValueTag::Keyword),
            0x45u8 => Ok(DelimiterOrValueTag::Uri),
            0x46u8 => Ok(DelimiterOrValueTag::UriScheme),
            0x47u8 => Ok(DelimiterOrValueTag::Charset),
            0x48u8 => Ok(DelimiterOrValueTag::NaturalLanguage),
            0x49u8 => Ok(DelimiterOrValueTag::MimeMediaType),
            0x4Au8 => Ok(DelimiterOrValueTag::MemberAttrName),
            _ => Err(IppError::Protocol),
        }
    }

    /// Whether this tag delimits attribute groups.
    pub fn is_delimiter(self) -> (r: bool)
        ensures
            r == spec_is_delimiter(self),
    {
        crate::is_delimiter_byte(self.to_byte())
    }
}

/// Tag bijection, one way: every known wire byte maps to a tag whose wire
/// byte is itself.
pub proof fn lemma_tag_byte_round_trip()
    ensures
        forall|b: u8|
            (#[trigger] spec_tag_from_byte(b)) is Some ==> tag_code(spec_tag_from_byte(b).unwrap())
                == b,
{
}

/// Tag bijection, the other way: every tag's wire byte maps back to the tag.
pub proof fn lemma_tag_round_trip()
    ensures
        forall|t: DelimiterOrValueTag| spec_tag_from_byte(#[trigger] tag_code(t)) == Some(t),
{
}

/// An IPP operation identifier.
#[derive(Debug, Clone, Copy, PartialEq, Eq, Structural)]
pub enum PrinterOperation {
    PrintJob,
    PrintURI,
    ValidateJob,
    CreateJob,
    SendDocument,
    SendURI,
    CancelJob,
    GetJobAttributes,
    GetJobs,
    GetPrinterAttributes,
    HoldJob,
    ReleaseJob,
    RestartJob,
    PausePrinter,
    ResumePrinter,
    PurgeJobs,
}

/// The wire code of each operation.
pub open spec fn operation_code(op: PrinterOperation) -> i16 {
    match op {
        PrinterOperation::PrintJob => 0x0002,
        PrinterOperation::PrintURI => 0x0003,
        PrinterOperation::ValidateJob => 0x0004,
        PrinterOperation::CreateJob => 0x0005,
        PrinterOperation::SendDocument => 0x0006,
        PrinterOperation::SendURI => 0x0007,
        PrinterOperation::CancelJob => 0x0008,
        PrinterOperation::GetJobAttributes => 0x0009,
        PrinterOperation::GetJobs => 0x000A,
        PrinterOperation::GetPrinterAttributes => 0x000B,
        PrinterOperation::HoldJob => 0x000C,
        PrinterOperation::ReleaseJob => 0x000D,
        PrinterOperation::RestartJob => 0x000E,
        PrinterOperation::PausePrinter => 0x0010,
        PrinterOperation::ResumePrinter => 0x0011,
        PrinterOperation::PurgeJobs => 0x0012,
    }
}

/// The operation a wire code stands for, if any.
pub open spec fn spec_operation_from_code(c: i16) -> Option<PrinterOperation> {
    match c {
        0x0002i16 => Some(PrinterOperation::PrintJob),
        0x0003i16 => Some(PrinterOperation::PrintURI),
        0x0004i16 => Some(PrinterOperation::ValidateJob),
        0x0005i16 => Some(PrinterOperation::CreateJob),
        0x0006i16 => Some(PrinterOperation::SendDocument),
        0x0007i16 => Some(PrinterOperation::SendURI),
        0x0008i16 => Some(PrinterOperation::CancelJob),
        0x0009i16 => Some(PrinterOperation::GetJobAttributes),
        0x000Ai16 => Some(PrinterOperation::GetJobs),
        0x000Bi16 => Some(PrinterOperation::GetPrinterAttributes),
        0x000Ci16 => Some(PrinterOperation::HoldJob),
        0x000Di16 => Some(PrinterOperation::ReleaseJob),
        0x000Ei16 => Some(PrinterOperation::RestartJob),
        0x0010i16 => Some(PrinterOperation::PausePrinter),
        0x0011i16 => Some(PrinterOperation::ResumePrinter),
        0x0012i16 => Some(PrinterOperation::PurgeJobs),
        _ => None,
    }
}

impl PrinterOperation {
    /// The wire code of this operation.
    pub fn to_code(self) -> (c: i16)
        ensures
            c == operation_code(self),
    {
        match self {
            PrinterOperation::PrintJob => 0x0002,
            PrinterOperation::PrintURI => 0x0003,
            PrinterOperation::ValidateJob => 0x0004,
            PrinterOperation::CreateJob => 0x0005,
            PrinterOperation::SendDocument => 0x0006,
            PrinterOperation::SendURI => 0x0007,
            PrinterOperation::CancelJob => 0x0008,
            PrinterOperation::GetJobAttributes => 0x0009,
            PrinterOperation::GetJobs => 0x000A,
            PrinterOperation::GetPrinterAttributes => 0x000B,
            PrinterOperation::HoldJob => 0x000C,
            PrinterOperation::ReleaseJob => 0x000D,
            PrinterOperation::RestartJob => 0x000E,
            PrinterOperation::PausePrinter => 0x0010,
            PrinterOperation::ResumePrinter => 0x0011,
            PrinterOperation::PurgeJobs => 0x0012,
        }
    }

    /// The operation a wire code stands for; an unregistered code is a
    /// protocol error.
    pub fn from_code(c: i16) -> (r: Result<PrinterOperation, IppError>)
        ensures
            (match r {
                Ok(op) => spec_operation_from_code(c) == Some(op),
                Err(e) => spec_operation_from_code(c) is None && e == IppError::Protocol,
            }),
    {
        match c {
            0x0002i16 => Ok(PrinterOperation::PrintJob),
            0x0003i16 => Ok(PrinterOperation::PrintURI),
            0x0004i16 => Ok(PrinterOperation::ValidateJob),
            0x0005i16 => Ok(PrinterOperation::CreateJob),
            0x0006i16 => Ok(PrinterOperation::SendDocument),
            0x0007i16 => Ok(PrinterOperation::SendURI),
            0x0008i16 => Ok(PrinterOperation::CancelJob),
            0x0009i16 => Ok(PrinterOperation::GetJobAttributes),
            0x000Ai16 => Ok(PrinterOperation::GetJobs),
            0x000Bi16 => Ok(PrinterOperation::GetPrinterAttributes),
            0x000Ci16 => Ok(PrinterOperation::HoldJob),
            0x000Di16 => Ok(PrinterOperation::ReleaseJob),
            0x000Ei16 => Ok(PrinterOperation::RestartJob),
            0x0010i16 => Ok(PrinterOperation::PausePrinter),
            0x0011i16 => Ok(PrinterOperation::ResumePrinter),
            0x0012i16 => Ok(PrinterOperation::PurgeJobs),
            _ => Err(IppError::Protocol),
        }
    }
}

/// Operation bijection: every operation's wire code maps back to it, and
/// every registered code maps to an operation carrying that code.
pub proof fn lemma_operation_round_trip()
    ensures
        forall|op: PrinterOperation|
            spec_operation_from_code(#[trigger] operation_code(op)) == Some(op),
        forall|c: i16|
            (#[trigger] spec_operation_from_code(c)) is Some ==> operation_code(
                spec_operation_from_code(c).unwrap(),
            ) == c,
{
}

/// An IPP status code.
#[derive(Debug, Clone, Copy, PartialEq, Eq, Structural)]
pub enum StatusCode {
    SuccessfulOk,
    SuccessfulOkIgnoredOrSubstitutedAttributes,
    SuccessfulOkConflictingAttributes,
    ClientErrorBadRequest,
    ClientErrorForbidden,
    ClientErrorNotAuthenticated,
    ClientErrorNotAuthorized,
    ClientErrorNotPossible,
    ClientErrorTimeout,
    ClientErrorNotFound,
    ClientErrorGone,
    ClientErrorRequestEntityTooLarge,
    ClientErrorRequestValueTooLong,
    ClientErrorDocumentFormatNotSupported,
    ClientErrorAttributesOrValuesNotSupported,
    ClientErrorUriSchemeNotSupported,
    ClientErrorCharsetNotSupported,
    ClientErrorConflictingAttributes,
    ClientErrorCompressionNotSupported,
    ClientErrorCompressionError,
    ClientErrorDocumentFormatError,
    ClientErrorDocumentAccessError,
    ServerErrorInternalError,
    ServerErrorOperationNotSupported,
    ServerErrorServiceUnavailable,
    ServerErrorVersionNotSupported,
    ServerErrorDeviceError,
    ServerErrorTemporaryError,
    ServerErrorNotAcceptingJobs,
    ServerErrorBusy,
    ServerErrorJobCanceled,
    ServerErrorMultipleDocumentJobsNotSupported,
}

/// The wire code of each status.
pub open spec fn status_code(s: StatusCode) -> i16 {
    match s {
        StatusCode::SuccessfulOk => 0x0000,
        StatusCode::SuccessfulOkIgnoredOrSubstitutedAttributes => 0x0001,
        StatusCode::SuccessfulOkConflictingAttributes => 0x0002,
        StatusCode::ClientErrorBadRequest => 0x0400,
        StatusCode::ClientErrorForbidden => 0x0401,
        StatusCode::ClientErrorNotAuthenticated => 0x0402,
        StatusCode::ClientErrorNotAuthorized => 0x0403,
        StatusCode::ClientErrorNotPossible => 0x0404,
        StatusCode::ClientErrorTimeout => 0x0405,
        StatusCode::ClientErrorNotFound => 0x0406,
        StatusCode::ClientErrorGone => 0x0407,
        StatusCode::ClientErrorRequestEntityTooLarge => 0x0408,
        StatusCode::ClientErrorRequestValueTooLong => 0x0409,
        StatusCode::ClientErrorDocumentFormatNotSupported => 0x040A,
        StatusCode::ClientErrorAttributesOrValuesNotSupported => 0x040B,
        StatusCode::ClientErrorUriSchemeNotSupported => 0x040C,
        StatusCode::ClientErrorCharsetNotSupported => 0x040D,
        StatusCode::ClientErrorConflictingAttributes => 0x040E,
        StatusCode::ClientErrorCompressionNotSupported => 0x040F,
        StatusCode::ClientErrorCompressionError => 0x0410,
        StatusCode::ClientErrorDocumentFormatError => 0x0411,
        StatusCode::ClientErrorDocumentAccessError => 0x0412,
        StatusCode::ServerErrorInternalError => 0x0500,
        StatusCode::ServerErrorOperationNotSupported => 0x0501,
        StatusCode::ServerErrorServiceUnavailable => 0x0502,
        StatusCode::ServerErrorVersionNotSupported => 0x0503,
        StatusCode::ServerErrorDeviceError => 0x0504,
        StatusCode::ServerErrorTemporaryError => 0x0505,
        StatusCode::ServerErrorNotAcceptingJobs => 0x0506,
        StatusCode::ServerErrorBusy => 0x0507,
        StatusCode::ServerErrorJobCanceled => 0x0508,
        StatusCode::ServerErrorMultipleDocumentJobsNotSupported => 0x0509,
    }
}

/// The status a wire code stands for, if any.
pub open spec fn spec_status_from_code(c: i16) -> Option<StatusCode> {
    match c {
        0x0000i16 => Some(StatusCode::SuccessfulOk),
        0x0001i16 => Some(StatusCode::SuccessfulOkIgnoredOrSubstitutedAttributes),
        0x0002i16 => Some(StatusCode::SuccessfulOkConflictingAttributes),
        0x0400i16 => Some(StatusCode::ClientErrorBadRequest),
        0x0401i16 => Some(StatusCode::ClientErrorForbidden),
        0x0402i16 => Some(StatusCode::ClientErrorNotAuthenticated),
        0x0403i16 => Some(StatusCode::ClientErrorNotAuthorized),
        0x0404i16 => Some(StatusCode::ClientErrorNotPossible),
        0x0405i16 => Some(StatusCode::ClientErrorTimeout),
        0x0406i16 => Some(StatusCode::ClientErrorNotFound),
        0x0407i16 => Some(StatusCode::ClientErrorGone),
        0x0408i16 => Some(StatusCode::ClientErrorRequestEntityTooLarge),
        0x0409i16 => Some(StatusCode::ClientErrorRequestValueTooLong),
        0x040Ai16 => Some(StatusCode::ClientErrorDocumentFormatNotSupported),
        0x040Bi16 => Some(StatusCode::ClientErrorAttributesOrValuesNotSupported),
        0x040Ci16 => Some(StatusCode::ClientErrorUriSchemeNotSupported),
        0x040Di16 => Some(StatusCode::ClientErrorCharsetNotSupported),
        0x040Ei16 => Some(StatusCode::ClientErrorConflictingAttributes),
        0x040Fi16 => Some(StatusCode::ClientErrorCompressionNotSupported),
        0x0410i16 => Some(StatusCode::ClientErrorCompressionError),
        0x0411i16 => Some(StatusCode::ClientErrorDocumentFormatError),
        0x0412i16 => Some(StatusCode::ClientErrorDocumentAccessError),
        0x0500i16 => Some(StatusCode::ServerErrorInternalError),
        0x0501i16 => Some(StatusCode::ServerErrorOperationNotSupported),
        0x0502i16 => Some(StatusCode::ServerErrorServiceUnavailable),
        0x0503i16 => Some(StatusCode::ServerErrorVersionNotSupported),
        0x0504i16 => Some(StatusCode::ServerErrorDeviceError),
        0x0505i16 => Some(StatusCode::ServerErrorTemporaryError),
        0x0506i16 => Some(StatusCode::ServerErrorNotAcceptingJobs),
        0x0507i16 => Some(StatusCode::ServerErrorBusy),
        0x0508i16 => Some(StatusCode::ServerErrorJobCanceled),
        0x0509i16 => Some(StatusCode::ServerErrorMultipleDocumentJobsNotSupported),
        _ => None,
    }
}

impl StatusCode {
    /// The wire code of this status.
    pub fn to_code(self) -> (c: i16)
        ensures
            c == status_code(self),
    {
        match self {
            StatusCode::SuccessfulOk => 0x0000,
            StatusCode::SuccessfulOkIgnoredOrSubstitutedAttributes => 0x0001,
            StatusCode::SuccessfulOkConflictingAttributes => 0x0002,
            StatusCode::ClientErrorBadRequest => 0x0400,
            StatusCode::ClientErrorForbidden => 0x0401,
            StatusCode::ClientErrorNotAuthenticated => 0x0402,
            StatusCode::ClientErrorNotAuthorized => 0x0403,
            StatusCode::ClientErrorNotPossible => 0x0404,
            StatusCode::ClientErrorTimeout => 0x0405,
            StatusCode::ClientErrorNotFound => 0x0406,
            StatusCode::ClientErrorGone => 0x0407,
            StatusCode::ClientErrorRequestEntityTooLarge => 0x0408,
            StatusCode::ClientErrorRequestValueTooLong => 0x0409,
            StatusCode::ClientErrorDocumentFormatNotSupported => 0x040A,
            StatusCode::ClientErrorAttributesOrValuesNotSupported => 0x040B,
            StatusCode::ClientErrorUriSchemeNotSupported => 0x040C,
            StatusCode::ClientErrorCharsetNotSupported => 0x040D,
            StatusCode::ClientErrorConflictingAttributes => 0x040E,
            StatusCode::ClientErrorCompressionNotSupported => 0x040F,
            StatusCode::ClientErrorCompressionError => 0x0410,
            StatusCode::ClientErrorDocumentFormatError => 0x0411,
            StatusCode::ClientErrorDocumentAccessError => 0x0412,
            StatusCode::ServerErrorInternalError => 0x0500,
            StatusCode::ServerErrorOperationNotSupported => 0x0501,
            StatusCode::ServerErrorServiceUnavailable => 0x0502,
            StatusCode::ServerErrorVersionNotSupported => 0x0503,
            StatusCode::ServerErrorDeviceError => 0x0504,
            StatusCode::ServerErrorTemporaryError => 0x0505,
            StatusCode::ServerErrorNotAcceptingJobs => 0x0506,
            StatusCode::ServerErrorBusy => 0x0507,
            StatusCode::ServerErrorJobCanceled => 0x0508,
            StatusCode::ServerErrorMultipleDocumentJobsNotSupported => 0x0509,
        }
    }

    /// The status a wire code stands for; an unregistered code is a protocol
    /// error.
    pub fn from_code(c: i16) -> (r: Result<StatusCode, IppError>)
        ensures
            (match r {
                Ok(s) => spec_status_from_code(c) == Some(s),
                Err(e) => spec_status_from_code(c) is None && e == IppError::Protocol,
            }),
    {
        match c {
            0x0000i16 => Ok(StatusCode::SuccessfulOk),
            0x0001i16 => Ok(StatusCode::SuccessfulOkIgnoredOrSubstitutedAttributes),
            0x0002i16 => Ok(StatusCode::SuccessfulOkConflictingAttributes),
            0x0400i16 => Ok(StatusCode::ClientErrorBadRequest),
            0x0401i16 => Ok(StatusCode::ClientErrorForbidden),
            0x0402i16 => Ok(StatusCode::ClientErrorNotAuthenticated),
            0x0403i16 => Ok(StatusCode::ClientErrorNotAuthorized),
            0x0404i16 => Ok(StatusCode::ClientErrorNotPossible),
            0x0405i16 => Ok(StatusCode::ClientErrorTimeout),
            0x0406i16 => Ok(StatusCode::ClientErrorNotFound),
            0x0407i16 => Ok(StatusCode::ClientErrorGone),
            0x0408i16 => Ok(StatusCode::ClientErrorRequestEntityTooLarge),
            0x0409i16 => Ok(StatusCode::ClientErrorRequestValueTooLong),
            0x040Ai16 => Ok(StatusCode::ClientErrorDocumentFormatNotSupported),
            0x040Bi16 => Ok(StatusCode::ClientErrorAttributesOrValuesNotSupported),
            0x040Ci16 => Ok(StatusCode::ClientErrorUriSchemeNotSupported),
            0x040Di16 => Ok(StatusCode::ClientErrorCharsetNotSupported),
            0x040Ei16 => Ok(StatusCode::ClientErrorConflictingAttributes),
            0x040Fi16 => Ok(StatusCode::ClientErrorCompressionNotSupported),
            0x0410i16 => Ok(StatusCode::ClientErrorCompressionError),
            0x0411i16 => Ok(StatusCode::ClientErrorDocumentFormatError),
            0x0412i16 => Ok(StatusCode::ClientErrorDocumentAccessError),
            0x0500i16 => Ok(StatusCode::ServerErrorInternalError),
            0x0501i16 => Ok(StatusCode::ServerErrorOperationNotSupported),
            0x0502i16 => Ok(StatusCode::ServerErrorServiceUnavailable),
            0x0503i16 => Ok(StatusCode::ServerErrorVersionNotSupported),
            0x0504i16 => Ok(StatusCode::ServerErrorDeviceError),
            0x0505i16 => Ok(StatusCode::ServerErrorTemporaryError),
            0x0506i16 => Ok(StatusCode::ServerErrorNotAcceptingJobs),
            0x0507i16 => Ok(StatusCode::ServerErrorBusy),
            0x0508i16 => Ok(StatusCode::ServerErrorJobCanceled),
            0x0509i16 => Ok(StatusCode::ServerErrorMultipleDocumentJobsNotSupported),
            _ => Err(IppError::Protocol),
        }
    }
}

/// Status bijection: every status's wire code maps back to it, and every
/// registered code maps to a status carrying that code.
pub proof fn lemma_status_round_trip()
    ensures
        forall|s: StatusCode| spec_status_from_code(#[trigger] status_code(s)) == Some(s),
        forall|c: i16|
            (#[trigger] spec_status_from_code(c)) is Some ==> status_code(
                spec_status_from_code(c).unwrap(),
            ) == c,
{
}

} // verus!
