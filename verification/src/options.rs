//! Encoder options.
use vstd::prelude::*;
use vstd::string::*;

use crate::error;
use crate::error::{invalid_data, ErrorView, Result};

verus! {

/// Name of the encoder's only option.
pub const COLORSPACE_OPTION: &'static str = "colorspace";

/// Values that the option accepts.
pub const COLORSPACE_VALUES: &'static [&'static str; 4] = &["0", "srgb", "1", "linear"];

/// The encoder's one tuning knob: the informational colorspace byte.
#[derive(Debug, Clone, Copy, PartialEq, Eq, Structural)]
pub struct QoiEncoderOptions {
    /// Colorspace header byte, 0 or 1. Defaults to 0 (sRGB with linear alpha).
    pub colorspace: u8,
}

impl Default for QoiEncoderOptions {
    fn default() -> (options: Self)
        ensures
            options.colorspace == 0,
    {
        QoiEncoderOptions { colorspace: 0 }
    }
}

/// The colorspace byte that an option value names.
pub open spec fn colorspace_named(value: Seq<char>) -> Option<u8> {
    if value == "0"@ || value == "srgb"@ {
        Some(0)
    } else if value == "1"@ || value == "linear"@ {
        Some(1)
    } else {
        None
    }
}

/// The numeric option value for a colorspace byte.
pub open spec fn colorspace_value(byte: u8) -> Seq<char> {
    if byte == 0 {
        "0"@
    } else {
        "1"@
    }
}

/// A text as `std` formats it with `{:?}`: in double quotes, with escapes.
pub uninterp spec fn quoted_text(text: Seq<char>) -> Seq<char>;

/// `std`'s `Debug` formatting of a string. What it escapes, and how, is left unsaid.
#[verifier::external_body]
fn quoted(text: &str) -> (q: String)
    ensures
        q@ == quoted_text(text@),
{
    format!("{text:?}")
}

/// Whether two texts are the same.
fn same_text(a: &str, b: &str) -> (same: bool)
    ensures
        same == (a@ == b@),
{
    String::from_str(a) == String::from_str(b)
}

/// What setting an option yields: the options, or the reason why it is refused.
pub open spec fn applied(
    options: QoiEncoderOptions,
    key: Seq<char>,
    value: Seq<char>,
) -> core::result::Result<QoiEncoderOptions, ErrorView> {
    if key != "colorspace"@ {
        Err(ErrorView::InvalidData("QOI encoder: unknown option "@ + quoted_text(key)))
    } else {
        match colorspace_named(value) {
            Some(byte) => Ok(QoiEncoderOptions { colorspace: byte }),
            None => Err(
                ErrorView::InvalidData("QOI encoder: invalid colorspace "@ + quoted_text(value)),
            ),
        }
    }
}

impl QoiEncoderOptions {
    /// Set one option by name. The only name is `colorspace`, with the values
    /// `0` or `srgb`, and `1` or `linear`. A refused option changes nothing.
    pub fn apply(&mut self, key: &str, value: &str) -> (r: Result<()>)
        ensures
            match applied(*old(self), key@, value@) {
                Ok(options) => r is Ok && *final(self) == options,
                Err(refusal) => error::outcome(r) == Err::<(), ErrorView>(refusal) && *final(self)
                    == *old(self),
            },
    {
        if !same_text(key, "colorspace") {
            let msg = String::from_str("QOI encoder: unknown option ").concat(
                quoted(key).as_str(),
            );
            return Err(invalid_data(msg.as_str()));
        }
        if same_text(value, "0") || same_text(value, "srgb") {
            self.colorspace = 0;
        } else if same_text(value, "1") || same_text(value, "linear") {
            self.colorspace = 1;
        } else {
            let msg = String::from_str("QOI encoder: invalid colorspace ").concat(
                quoted(value).as_str(),
            );
            return Err(invalid_data(msg.as_str()));
        }
        Ok(())
    }

    /// The value of the `colorspace` option, in its numeric form.
    pub fn colorspace_option(&self) -> (value: &'static str)
        requires
            self.colorspace <= 1,
        ensures
            value@ == colorspace_value(self.colorspace),
    {
        if self.colorspace == 0 {
            "0"
        } else {
            "1"
        }
    }
}

} // verus!
