//! Packet-by-packet decoding and frame-by-frame encoding.
//!
//! Both directions hold at most one result. It stays until it is taken or
//! replaced, and once the end has been announced an empty session says so.
use vstd::prelude::*;
use vstd::slice::*;
use vstd::string::*;

use crate::decoder;
use crate::decoder::parse_qoi;
use crate::encoder;
use crate::encoder::encode_qoi_full;
use crate::error;
use crate::error::{invalid_data, ErrorView, Result};
use crate::image::{QoiChannels, QoiColorspace, QoiHeader};
use crate::laws::files;
use crate::options::QoiEncoderOptions;

verus! {

/// Why a session has nothing to hand out.
#[derive(Debug, Clone, Copy, PartialEq, Eq, Structural)]
pub enum Starved {
    /// Nothing is there yet: send more.
    NeedMore,
    /// The end was announced, and everything has been taken.
    Eof,
}

/// The answer of a session that holds nothing.
pub open spec fn starved(eof: bool) -> Starved {
    if eof {
        Starved::Eof
    } else {
        Starved::NeedMore
    }
}

/// The answer of a session that holds nothing.
fn starvation(eof: bool) -> (s: Starved)
    ensures
        s == starved(eof),
{
    if eof {
        Starved::Eof
    } else {
        Starved::NeedMore
    }
}

/// A decoded image on its way out of a session: one packed plane.
#[derive(Debug)]
pub struct PendingFrame {
    /// Picture width in pixels.
    pub width: u32,
    /// Picture height in pixels.
    pub height: u32,
    /// Channel layout of the plane.
    pub channels: QoiChannels,
    /// Bytes from one row to the next.
    pub stride: usize,
    /// Presentation timestamp of the packet that the image came from.
    pub pts: Option<i64>,
    /// The plane.
    pub pixels: Vec<u8>,
}

/// The mathematical content of a [`PendingFrame`].
pub struct FrameView {
    pub width: u32,
    pub height: u32,
    pub channels: QoiChannels,
    pub stride: nat,
    pub pts: Option<i64>,
    pub pixels: Seq<u8>,
}

impl View for PendingFrame {
    type V = FrameView;

    open spec fn view(&self) -> FrameView {
        FrameView {
            width: self.width,
            height: self.height,
            channels: self.channels,
            stride: self.stride as nat,
            pts: self.pts,
            pixels: self.pixels@,
        }
    }
}

/// The frame for a decoded image: rows without padding, and the packet's timestamp.
pub open spec fn frame_for(header: QoiHeader, pixels: Seq<u8>, pts: Option<i64>) -> FrameView {
    FrameView {
        width: header.width,
        height: header.height,
        channels: header.channels,
        stride: header.channels.bytes_for(header.width as nat),
        pts,
        pixels,
    }
}

/// The mathematical content of a [`QoiDecoder`].
pub struct DecoderView {
    pub pending: Option<FrameView>,
    pub eof: bool,
}

impl DecoderView {
    /// Nothing is held, and the end has not been announced.
    pub open spec fn fresh() -> DecoderView {
        DecoderView { pending: None, eof: false }
    }

    /// The session after a packet: its image is held, unless the packet is refused.
    pub open spec fn sent(self, data: Seq<u8>, pts: Option<i64>) -> DecoderView {
        match decoder::decode(data) {
            Ok((header, pixels)) => DecoderView {
                pending: Some(frame_for(header, pixels, pts)),
                eof: self.eof,
            },
            Err(_) => self,
        }
    }

    /// What the session hands out.
    pub open spec fn answer(self) -> core::result::Result<FrameView, Starved> {
        match self.pending {
            Some(frame) => Ok(frame),
            None => Err(starved(self.eof)),
        }
    }

    /// The session after it has handed out what it can.
    pub open spec fn taken(self) -> DecoderView {
        DecoderView { pending: None, eof: self.eof }
    }

    /// The session after its end has been announced.
    pub open spec fn flushed(self) -> DecoderView {
        DecoderView { pending: self.pending, eof: true }
    }
}

/// A decoding session. Every packet is a complete file.
#[derive(Debug)]
pub struct QoiDecoder {
    pending: Option<PendingFrame>,
    eof: bool,
}

impl View for QoiDecoder {
    type V = DecoderView;

    closed spec fn view(&self) -> DecoderView {
        DecoderView {
            pending: match self.pending {
                Some(frame) => Some(frame@),
                None => None,
            },
            eof: self.eof,
        }
    }
}

impl QoiDecoder {
    /// A session that holds nothing and has not reached its end.
    pub fn new() -> (s: Self)
        ensures
            s@ == DecoderView::fresh(),
    {
        QoiDecoder { pending: None, eof: false }
    }

    /// Decode a packet and hold the image, in place of any that is still held.
    /// A packet that is refused changes nothing.
    pub fn send_packet(&mut self, data: &[u8], pts: Option<i64>) -> (r: Result<()>)
        ensures
            final(self)@ == old(self)@.sent(data@, pts),
            error::outcome(r) == match decoder::decode(data@) {
                Ok(_) => Ok::<(), ErrorView>(()),
                Err(refusal) => Err(refusal),
            },
    {
        let image = match parse_qoi(data) {
            Ok(image) => image,
            Err(e) => return Err(e),
        };
        proof {
            files::law_accepted_file(data@);
            let (w, h) = (image.width as int, image.height as int);
            assert(w <= w * h) by (nonlinear_arith)
                requires
                    w >= 0,
                    h >= 1,
            ;
            assert(image.pixels.len() == image.header().byte_count());
        }
        let stride: usize = match image.channels {
            QoiChannels::Rgb => image.width as usize * 3,
            QoiChannels::Rgba => image.width as usize * 4,
        };
        self.pending = Some(
            PendingFrame {
                width: image.width,
                height: image.height,
                channels: image.channels,
                stride,
                pts,
                pixels: image.pixels,
            },
        );
        Ok(())
    }

    /// Take the image that is held.
    pub fn receive_frame(&mut self) -> (r: core::result::Result<PendingFrame, Starved>)
        ensures
            final(self)@ == old(self)@.taken(),
            match r {
                Ok(frame) => old(self)@.answer() == Ok::<FrameView, Starved>(frame@),
                Err(why) => old(self)@.answer() == Err::<FrameView, Starved>(why),
            },
    {
        match self.pending.take() {
            Some(frame) => Ok(frame),
            None => Err(starvation(self.eof)),
        }
    }

    /// Announce that no more packets come. An image that is held can still be taken.
    pub fn flush(&mut self)
        ensures
            final(self)@ == old(self)@.flushed(),
    {
        self.eof = true;
    }

    /// Forget everything: the session is as new.
    pub fn reset(&mut self)
        ensures
            final(self)@ == DecoderView::fresh(),
    {
        self.pending = None;
        self.eof = false;
    }
}

/// The pixel format of the frames that an encoding session is given.
#[derive(Debug, Clone, PartialEq, Eq)]
pub enum SourceFormat {
    /// Packed R/G/B/A, 8 bits each.
    Rgba,
    /// Packed R/G/B, 8 bits each.
    Rgb24,
    /// Any other format, by name.
    Other(String),
}

/// One plane of a frame.
#[derive(Debug, Clone, Copy)]
pub struct SourcePlane<'a> {
    /// Bytes from the start of one row to the start of the next.
    pub stride: usize,
    /// The plane's bytes.
    pub data: &'a [u8],
}

/// A frame handed to an encoding session.
#[derive(Debug, Clone, Copy)]
pub enum SourceFrame<'a> {
    /// A video frame, by its first plane if it has one.
    Video(Option<SourcePlane<'a>>),
    /// Anything that is not a video frame.
    Other,
}

/// What an encoding session knows of its frames.
#[derive(Debug)]
pub struct EncoderConfig {
    /// Picture width in pixels.
    pub width: Option<u32>,
    /// Picture height in pixels.
    pub height: Option<u32>,
    /// Pixel format.
    pub format: Option<SourceFormat>,
    /// Colorspace tag for the files.
    pub colorspace: QoiColorspace,
}

/// The rows of a plane without what stands between them: `rows` times `row`
/// bytes, each `stride` bytes behind the last.
pub open spec fn packed_rows(data: Seq<u8>, stride: nat, row: nat, rows: nat) -> Seq<u8>
    decreases rows,
{
    if rows == 0 {
        Seq::empty()
    } else {
        let start = (rows - 1) * stride;
        packed_rows(data, stride, row, (rows - 1) as nat) + data.subrange(start, start + row)
    }
}

/// Whether a plane has all its rows.
pub open spec fn rows_present(data: Seq<u8>, stride: nat, row: nat, rows: nat) -> bool {
    rows > 0 ==> (rows - 1) * stride + row <= data.len()
}

/// An image that is ready to be encoded.
pub struct PackedImage {
    pub width: u32,
    pub height: u32,
    pub channels: u8,
    pub pixels: Seq<u8>,
}

/// The image that a frame holds, or why it holds none.
pub open spec fn packed_image(config: EncoderConfig, frame: SourceFrame) -> core::result::Result<
    PackedImage,
    Seq<char>,
> {
    match frame {
        SourceFrame::Other => Err("QOI encoder: expected video frame"@),
        SourceFrame::Video(first) => match (config.format, config.width, config.height) {
            (None, _, _) => Err("QOI encoder: pixel_format missing in CodecParameters"@),
            (_, None, _) => Err("QOI encoder: width missing in CodecParameters"@),
            (_, _, None) => Err("QOI encoder: height missing in CodecParameters"@),
            (Some(SourceFormat::Other(name)), _, _) => Err(
                "QOI encoder: unsupported pixel format "@ + name@,
            ),
            (Some(format), Some(width), Some(height)) => {
                let channels: u8 = if format is Rgba {
                    4
                } else {
                    3
                };
                let row = encoder::layout(channels).bytes_for(width as nat);
                match first {
                    None => Err("QOI encoder: empty frame plane"@),
                    Some(plane) => if rows_present(
                        plane.data@,
                        plane.stride as nat,
                        row,
                        height as nat,
                    ) {
                        Ok(
                            PackedImage {
                                width,
                                height,
                                channels,
                                pixels: packed_rows(
                                    plane.data@,
                                    plane.stride as nat,
                                    row,
                                    height as nat,
                                ),
                            },
                        )
                    } else {
                        Err("QOI encoder: frame plane truncated"@)
                    },
                }
            },
        },
    }
}

/// Which frames an encoding session can take: where a frame holds an image,
/// its file must be small enough to allocate, and a plane whose rows stand
/// without gaps must end with its last row. Frames that are refused are no trouble.
pub open spec fn frame_fits(config: EncoderConfig, frame: SourceFrame) -> bool {
    packed_image(config, frame) matches Ok(image) ==> {
        let plane = frame->Video_0->0;
        let row = encoder::layout(image.channels).bytes_for(image.width as nat);
        &&& crate::HEADER_SIZE + 5 * (image.width * image.height) + 8 <= isize::MAX
        &&& plane.stride == row ==> plane.data@.len() == row * image.height
    }
}

/// An encoded image on its way out of a session.
#[derive(Debug)]
pub struct EncodedPacket {
    /// The file.
    pub data: Vec<u8>,
    /// Whether the packet can be decoded on its own.
    pub keyframe: bool,
}

/// The mathematical content of a [`QoiEncoder`].
pub struct EncoderView {
    pub config: EncoderConfig,
    pub pending: Option<Seq<u8>>,
    pub eof: bool,
}

impl EncoderView {
    /// Nothing is held, and the end has not been announced.
    pub open spec fn fresh(config: EncoderConfig) -> EncoderView {
        EncoderView { config, pending: None, eof: false }
    }

    /// The session after a frame: its file is held, unless the frame is refused.
    pub open spec fn sent(self, frame: SourceFrame) -> EncoderView {
        match packed_image(self.config, frame) {
            Ok(image) => EncoderView {
                config: self.config,
                pending: Some(
                    encoder::encoded(
                        image.width,
                        image.height,
                        image.channels,
                        self.config.colorspace.byte(),
                        image.pixels,
                    ),
                ),
                eof: self.eof,
            },
            Err(_) => self,
        }
    }

    /// What the session hands out.
    pub open spec fn answer(self) -> core::result::Result<Seq<u8>, Starved> {
        match self.pending {
            Some(file) => Ok(file),
            None => Err(starved(self.eof)),
        }
    }

    /// The session after it has handed out what it can.
    pub open spec fn taken(self) -> EncoderView {
        EncoderView { config: self.config, pending: None, eof: self.eof }
    }

    /// The session after its end has been announced.
    pub open spec fn flushed(self) -> EncoderView {
        EncoderView { config: self.config, pending: self.pending, eof: true }
    }
}

/// An encoding session. Every frame becomes a complete file.
#[derive(Debug)]
pub struct QoiEncoder {
    config: EncoderConfig,
    pending: Option<Vec<u8>>,
    eof: bool,
}

impl View for QoiEncoder {
    type V = EncoderView;

    closed spec fn view(&self) -> EncoderView {
        EncoderView {
            config: self.config,
            pending: match self.pending {
                Some(file) => Some(file@),
                None => None,
            },
            eof: self.eof,
        }
    }
}

impl QoiEncoder {
    /// A session that holds nothing and has not reached its end.
    pub fn new(
        width: Option<u32>,
        height: Option<u32>,
        format: Option<SourceFormat>,
        options: QoiEncoderOptions,
    ) -> (s: Self)
        requires
            options.colorspace <= 1,
        ensures
            s@ == EncoderView::fresh(
                (EncoderConfig {
                    width,
                    height,
                    format,
                    colorspace: files::colorspace_of(options.colorspace),
                }),
            ),
    {
        let colorspace = if options.colorspace == 0 {
            QoiColorspace::SrgbWithLinearAlpha
        } else {
            QoiColorspace::AllLinear
        };
        QoiEncoder {
            config: EncoderConfig { width, height, format, colorspace },
            pending: None,
            eof: false,
        }
    }

    /// Whether [`QoiEncoder::send_frame`] can be called with a frame: true of
    /// every frame that it refuses, and of every image whose file can be
    /// allocated and whose plane, if packed, ends with its last row.
    pub fn can_take(&self, frame: SourceFrame<'_>) -> (b: bool)
        ensures
            b == frame_fits(self@.config, frame),
    {
        let plane = match frame {
            SourceFrame::Video(Some(plane)) => plane,
            _ => return true,
        };
        let channels: u8 = match &self.config.format {
            Some(SourceFormat::Rgba) => 4,
            Some(SourceFormat::Rgb24) => 3,
            _ => return true,
        };
        match (self.config.width, self.config.height) {
            (Some(width), Some(height)) => {
                if !has_all_rows(plane, width, height, channels) {
                    return true;
                }
                proof {
                    decoder::lemma_pixel_count_bound(width, height);
                    encoder::layout(channels).lemma_rows_of_pixels(width as nat, height as nat);
                }
                let area: u128 = width as u128 * height as u128;
                let row: u64 = row_width(width, channels);
                let bytes: u128 = if channels == 3 {
                    3 * area
                } else {
                    4 * area
                };
                let ends_with_last_row: bool = plane.stride as u64 != row || plane.data.len()
                    as u128 == bytes;
                14 + 5 * area + 8 <= isize::MAX as u128 && ends_with_last_row
            },
            _ => true,
        }
    }

    /// Encode a frame and hold the file, in place of any that is still held.
    /// A frame that is refused changes nothing.
    pub fn send_frame(&mut self, frame: SourceFrame<'_>) -> (r: Result<()>)
        requires
            frame_fits(old(self)@.config, frame),
        ensures
            final(self)@ == old(self)@.sent(frame),
            error::outcome(r) == match packed_image(old(self)@.config, frame) {
                Ok(_) => Ok::<(), ErrorView>(()),
                Err(reason) => Err(ErrorView::InvalidData(reason)),
            },
    {
        let first = match frame {
            SourceFrame::Video(first) => first,
            SourceFrame::Other => return Err(invalid_data("QOI encoder: expected video frame")),
        };
        let format = match &self.config.format {
            Some(format) => format,
            None => return Err(
                invalid_data("QOI encoder: pixel_format missing in CodecParameters"),
            ),
        };
        let width: u32 = match self.config.width {
            Some(width) => width,
            None => return Err(invalid_data("QOI encoder: width missing in CodecParameters")),
        };
        let height: u32 = match self.config.height {
            Some(height) => height,
            None => return Err(invalid_data("QOI encoder: height missing in CodecParameters")),
        };
        let channels: u8 = match format {
            SourceFormat::Rgba => 4,
            SourceFormat::Rgb24 => 3,
            SourceFormat::Other(name) => {
                let msg = String::from_str("QOI encoder: unsupported pixel format ").concat(
                    name.as_str(),
                );
                return Err(invalid_data(msg.as_str()));
            },
        };
        let plane = match first {
            Some(plane) => plane,
            None => return Err(invalid_data("QOI encoder: empty frame plane")),
        };
        let pixels = match pack_rows(plane, width, height, channels) {
            Some(pixels) => pixels,
            None => return Err(invalid_data("QOI encoder: frame plane truncated")),
        };
        proof {
            encoder::layout(channels).lemma_rows_of_pixels(width as nat, height as nat);
        }
        let file = encode_qoi_full(width, height, channels, self.config.colorspace.to_byte(), &pixels);
        self.pending = Some(file);
        Ok(())
    }

    /// Take the file that is held. Every file is a keyframe.
    pub fn receive_packet(&mut self) -> (r: core::result::Result<EncodedPacket, Starved>)
        ensures
            final(self)@ == old(self)@.taken(),
            match r {
                Ok(packet) => old(self)@.answer() == Ok::<Seq<u8>, Starved>(packet.data@)
                    && packet.keyframe,
                Err(why) => old(self)@.answer() == Err::<Seq<u8>, Starved>(why),
            },
    {
        match self.pending.take() {
            Some(data) => Ok(EncodedPacket { data, keyframe: true }),
            None => Err(starvation(self.eof)),
        }
    }

    /// Announce that no more frames come. A file that is held can still be taken.
    pub fn flush(&mut self)
        ensures
            final(self)@ == old(self)@.flushed(),
    {
        self.eof = true;
    }
}

/// Bytes of one row of pixels.
fn row_width(width: u32, channels: u8) -> (n: u64)
    requires
        channels == 3 || channels == 4,
    ensures
        n == encoder::layout(channels).bytes_for(width as nat),
{
    if channels == 3 {
        3 * width as u64
    } else {
        4 * width as u64
    }
}

/// Whether a plane has all its rows.
fn has_all_rows(plane: SourcePlane<'_>, width: u32, height: u32, channels: u8) -> (b: bool)
    requires
        channels == 3 || channels == 4,
    ensures
        b == rows_present(
            plane.data@,
            plane.stride as nat,
            encoder::layout(channels).bytes_for(width as nat),
            height as nat,
        ),
{
    if height == 0 {
        return true;
    }
    proof {
        assert((height - 1) * plane.stride <= 0xffff_ffff * 0xffff_ffff_ffff_ffff)
            by (nonlinear_arith)
            requires
                0 <= height - 1 <= 0xffff_ffff,
                0 <= plane.stride <= 0xffff_ffff_ffff_ffff,
        ;
    }
    let last: u128 = (height as u128 - 1) * plane.stride as u128;
    let row: u64 = row_width(width, channels);
    last + row as u128 <= plane.data.len() as u128
}

/// The rows of a plane without what stands between them, if they are all there.
fn pack_rows(plane: SourcePlane<'_>, width: u32, height: u32, channels: u8) -> (r: Option<Vec<u8>>)
    requires
        channels == 3 || channels == 4,
        ({
            let row = encoder::layout(channels).bytes_for(width as nat);
            rows_present(plane.data@, plane.stride as nat, row, height as nat) && plane.stride
                == row ==> plane.data@.len() == row * height
        }),
    ensures
        ({
            let row = encoder::layout(channels).bytes_for(width as nat);
            let present = rows_present(plane.data@, plane.stride as nat, row, height as nat);
            match r {
                Some(pixels) => present && pixels@ == packed_rows(
                    plane.data@,
                    plane.stride as nat,
                    row,
                    height as nat,
                ) && pixels@.len() == row * height,
                None => !present,
            }
        }),
{
    let ghost stride = plane.stride as nat;
    let ghost row = encoder::layout(channels).bytes_for(width as nat);
    let row_bytes: u64 = row_width(width, channels);
    let len: usize = plane.data.len();
    if !has_all_rows(plane, width, height, channels) {
        return None;
    }
    proof {
        lemma_packed_rows_len(plane.data@, stride, row, height as nat);
    }
    if height > 0 && plane.stride as u64 == row_bytes {
        proof {
            lemma_tight_rows(plane.data@, row, height as nat);
            assert(plane.data@.take((row * height) as int) =~= plane.data@);
        }
        return Some(slice_to_vec(plane.data));
    }
    let mut packed: Vec<u8> = Vec::new();
    let mut y: u32 = 0;
    let mut start: usize = 0;
    while y < height
        invariant
            y <= height,
            row_bytes == row,
            stride == plane.stride,
            plane.data@.len() == len,
            rows_present(plane.data@, stride, row, height as nat),
            y < height ==> start == y * stride,
            packed@ == packed_rows(plane.data@, stride, row, y as nat),
        decreases height - y,
    {
        proof {
            assert(y * stride <= (height - 1) * stride) by (nonlinear_arith)
                requires
                    0 <= y <= height - 1,
                    0 <= stride,
            ;
            assert((y + 1) * stride == y * stride + stride) by (nonlinear_arith);
        }
        let end: usize = start + row_bytes as usize;
        packed.extend_from_slice(slice_subrange(plane.data, start, end));
        y += 1;
        if y < height {
            proof {
                assert(y * stride <= (height - 1) * stride) by (nonlinear_arith)
                    requires
                        0 <= y <= height - 1,
                        0 <= stride,
                ;
            }
            start = start + plane.stride;
        }
    }
    Some(packed)
}

/// Packing yields `rows` times `row` bytes.
pub proof fn lemma_packed_rows_len(data: Seq<u8>, stride: nat, row: nat, rows: nat)
    requires
        rows_present(data, stride, row, rows),
    ensures
        packed_rows(data, stride, row, rows).len() == row * rows,
    decreases rows,
{
    if rows > 0 {
        let m = (rows - 1) as nat;
        assert(row * rows == row * m + row) by (nonlinear_arith)
            requires
                rows == m + 1,
        ;
        assert(0 <= m * stride) by (nonlinear_arith);
        if m > 0 {
            assert((m - 1) * stride <= m * stride) by (nonlinear_arith)
                requires
                    m > 0,
                    stride >= 0,
            ;
        } else {
            assert(row * 0 == 0);
        }
        lemma_packed_rows_len(data, stride, row, m);
    } else {
        assert(row * rows == 0) by (nonlinear_arith)
            requires
                rows == 0,
        ;
    }
}

/// Rows that stand without gaps are already packed.
pub proof fn lemma_tight_rows(data: Seq<u8>, row: nat, rows: nat)
    requires
        rows_present(data, row, row, rows),
    ensures
        row * rows <= data.len(),
        packed_rows(data, row, row, rows) == data.take((row * rows) as int),
    decreases rows,
{
    if rows > 0 {
        let m = (rows - 1) as nat;
        assert(row * rows == m * row + row) by (nonlinear_arith)
            requires
                rows == m + 1,
        ;
        assert(row * m == m * row) by (nonlinear_arith);
        assert(0 <= m * row) by (nonlinear_arith);
        if m > 0 {
            assert((m - 1) * row + row == m * row) by (nonlinear_arith);
        }
        lemma_tight_rows(data, row, m);
        assert(packed_rows(data, row, row, rows) =~= data.take((row * rows) as int));
    } else {
        assert(row * rows == 0) by (nonlinear_arith)
            requires
                rows == 0,
        ;
        assert(packed_rows(data, row, row, rows) =~= data.take(0));
    }
}

} // verus!
