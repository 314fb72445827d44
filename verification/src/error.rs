//! The crate's error type and its `Result` alias.
use vstd::prelude::*;
use vstd::string::*;

verus! {

/// `Result` alias for everything in this crate that can fail.
pub type Result<T> = core::result::Result<T, QoiError>;

/// Why a byte stream or a frame was refused.
///
/// The format has no optional chunks and no extension points, so there are
/// only two kinds of failure: the bytes are malformed, or they describe an
/// image that this machine's integers cannot measure.
#[derive(Debug, Clone, PartialEq, Eq)]
pub enum QoiError {
    /// The byte stream is malformed (bad magic, truncated, ...).
    InvalidData(String),
    /// The byte stream may be well formed but exceeds an internal limit
    /// (`width * height * channels` does not fit the machine's integers).
    Unsupported(String),
}

/// The mathematical content of a [`QoiError`]: its variant and its message.
pub enum ErrorView {
    InvalidData(Seq<char>),
    Unsupported(Seq<char>),
}

impl View for QoiError {
    type V = ErrorView;

    open spec fn view(&self) -> ErrorView {
        match self {
            QoiError::InvalidData(msg) => ErrorView::InvalidData(msg@),
            QoiError::Unsupported(msg) => ErrorView::Unsupported(msg@),
        }
    }
}

impl ErrorView {
    /// The human-readable rendering: a prefix naming the variant, then the message.
    pub open spec fn text(self) -> Seq<char> {
        match self {
            ErrorView::InvalidData(msg) => "invalid data: "@ + msg,
            ErrorView::Unsupported(msg) => "unsupported: "@ + msg,
        }
    }
}

/// A result with its error taken by view.
pub open spec fn outcome<T>(r: Result<T>) -> core::result::Result<T, ErrorView> {
    match r {
        Ok(value) => Ok(value),
        Err(e) => Err(e@),
    }
}

impl QoiError {
    /// Construct a [`QoiError::InvalidData`] from anything that converts into a `String`.
    pub fn invalid<T: Into<String>>(msg: T) -> (e: Self)
        ensures
            e matches QoiError::InvalidData(s) && call_ensures(T::into, (msg,), s),
    {
        QoiError::InvalidData(msg.into())
    }

    /// Construct a [`QoiError::Unsupported`] from anything that converts into a `String`.
    pub fn unsupported<T: Into<String>>(msg: T) -> (e: Self)
        ensures
            e matches QoiError::Unsupported(s) && call_ensures(T::into, (msg,), s),
    {
        QoiError::Unsupported(msg.into())
    }

    /// The error as one line of text: `invalid data: ...` or `unsupported: ...`.
    pub fn to_text(&self) -> (text: String)
        ensures
            text@ == self@.text(),
    {
        match self {
            QoiError::InvalidData(msg) => String::from_str("invalid data: ").concat(msg.as_str()),
            QoiError::Unsupported(msg) => String::from_str("unsupported: ").concat(msg.as_str()),
        }
    }
}

/// [`QoiError::InvalidData`] with the given message.
pub(crate) fn invalid_data(msg: &str) -> (e: QoiError)
    ensures
        e@ == ErrorView::InvalidData(msg@),
{
    QoiError::InvalidData(String::from_str(msg))
}

/// [`QoiError::Unsupported`] with the given message.
pub(crate) fn over_limit(msg: &str) -> (e: QoiError)
    ensures
        e@ == ErrorView::Unsupported(msg@),
{
    QoiError::Unsupported(String::from_str(msg))
}

} // verus!
