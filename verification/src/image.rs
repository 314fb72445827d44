//! Image metadata and the decoded-image container.
use vstd::prelude::*;

verus! {

/// Channel layout of an image: the header byte at offset 12.
///
/// The variants carry no numbers of their own: `as u8` is not the header byte
/// and not the bytes per pixel. [`QoiChannels::to_byte`] gives both.
#[derive(Debug, Clone, Copy, PartialEq, Eq, Structural)]
pub enum QoiChannels {
    /// 3 bytes per pixel, R/G/B (alpha implicit `0xFF`); header byte 3.
    Rgb,
    /// 4 bytes per pixel, R/G/B/A; header byte 4.
    Rgba,
}

impl QoiChannels {
    /// Bytes per pixel, which is also the header byte.
    pub open spec fn width(self) -> nat {
        match self {
            QoiChannels::Rgb => 3,
            QoiChannels::Rgba => 4,
        }
    }

    /// Bytes taken by `n` pixels.
    pub open spec fn bytes_for(self, n: nat) -> nat {
        match self {
            QoiChannels::Rgb => 3 * n,
            QoiChannels::Rgba => 4 * n,
        }
    }

    /// `h` rows of `w` pixels take as many bytes as `w * h` pixels.
    pub proof fn lemma_rows_of_pixels(self, w: nat, h: nat)
        ensures
            self.bytes_for(w) * h == self.bytes_for(w * h),
    {
        assert((3 * w) * h == 3 * (w * h)) by (nonlinear_arith);
        assert((4 * w) * h == 4 * (w * h)) by (nonlinear_arith);
    }

    /// The header byte for this layout: 3 or 4.
    pub fn to_byte(self) -> (b: u8)
        ensures
            b == self.width(),
            b == if self is Rgb {
                3int
            } else {
                4
            },
    {
        match self {
            QoiChannels::Rgb => 3,
            QoiChannels::Rgba => 4,
        }
    }
}

/// Colorspace tag: the header byte at offset 13.
///
/// Purely informational. Both values yield the same pixel bytes and no
/// colour conversion is ever performed. [`QoiColorspace::to_byte`] gives the header byte.
#[derive(Debug, Clone, Copy, PartialEq, Eq, Structural)]
pub enum QoiColorspace {
    /// sRGB with linear alpha; header byte 0.
    SrgbWithLinearAlpha,
    /// All channels linear; header byte 1.
    AllLinear,
}

impl QoiColorspace {
    /// The header byte for this tag.
    pub open spec fn byte(self) -> u8 {
        match self {
            QoiColorspace::SrgbWithLinearAlpha => 0,
            QoiColorspace::AllLinear => 1,
        }
    }

    /// The header byte for this tag: 0 or 1.
    pub fn to_byte(self) -> (b: u8)
        ensures
            b == self.byte(),
            b == if self is AllLinear {
                1int
            } else {
                0
            },
    {
        match self {
            QoiColorspace::SrgbWithLinearAlpha => 0,
            QoiColorspace::AllLinear => 1,
        }
    }
}

/// The four fields of a file's 14-byte header.
#[derive(Debug, Clone, Copy, PartialEq, Eq, Structural)]
pub struct QoiHeader {
    /// Picture width in pixels.
    pub width: u32,
    /// Picture height in pixels.
    pub height: u32,
    /// 3 (RGB) or 4 (RGBA) bytes per pixel.
    pub channels: QoiChannels,
    /// Colorspace hint; does not affect pixel bytes.
    pub colorspace: QoiColorspace,
}

impl QoiHeader {
    /// Number of pixels the header announces.
    pub open spec fn pixel_count(self) -> nat {
        (self.width as nat) * (self.height as nat)
    }

    /// Number of pixel bytes the header announces.
    pub open spec fn byte_count(self) -> nat {
        self.channels.bytes_for(self.pixel_count())
    }
}

/// One decoded image.
///
/// `pixels` is a flat row-major buffer of `width * height` pixels without row
/// padding, in R/G/B or R/G/B/A order according to `channels`.
#[derive(Debug, Clone)]
pub struct QoiImage {
    /// Picture width in pixels.
    pub width: u32,
    /// Picture height in pixels.
    pub height: u32,
    /// 3 (RGB) or 4 (RGBA) bytes per pixel.
    pub channels: QoiChannels,
    /// Colorspace hint; does not affect pixel bytes.
    pub colorspace: QoiColorspace,
    /// Flat tightly-packed pixel buffer.
    pub pixels: Vec<u8>,
    /// Presentation timestamp, where the image came out of a timed stream.
    pub pts: Option<i64>,
}

impl QoiImage {
    /// The image's metadata as a header.
    pub open spec fn header(self) -> QoiHeader {
        QoiHeader {
            width: self.width,
            height: self.height,
            channels: self.channels,
            colorspace: self.colorspace,
        }
    }
}

} // verus!
