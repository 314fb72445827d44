//! Laws of decoding and encoding sessions, and of the encoder's option.
use vstd::prelude::*;

use crate::decoder;
use crate::encoder;
use crate::error::ErrorView;
use crate::laws::files;
use crate::options;
use crate::options::{QoiEncoderOptions, COLORSPACE_VALUES};
use crate::session;
use crate::session::{
    DecoderView, EncoderConfig, EncoderView, FrameView, PackedImage, PendingFrame, SourceFormat,
    SourceFrame, SourcePlane, Starved,
};

verus! {

/// A packet that decodes is handed out as a frame with the packet's
/// timestamp, whatever was held before, and only once.
pub proof fn law_packet_comes_out_once(v: DecoderView, data: Seq<u8>, pts: Option<i64>)
    requires
        decoder::decode(data) is Ok,
    ensures
        ({
            let (header, pixels) = decoder::decode(data)->Ok_0;
            let sent = v.sent(data, pts);
            &&& sent.answer() == Ok::<FrameView, Starved>(session::frame_for(header, pixels, pts))
            &&& sent.taken().answer() == Err::<FrameView, Starved>(session::starved(v.eof))
        }),
{
}

/// A packet that is refused leaves the session as it was.
pub proof fn law_refused_packet_changes_nothing(v: DecoderView, data: Seq<u8>, pts: Option<i64>)
    requires
        decoder::decode(data) is Err,
    ensures
        v.sent(data, pts) == v,
{
}

/// A frame has exactly as many bytes as its rows take.
pub proof fn law_frame_is_packed(v: DecoderView, data: Seq<u8>, pts: Option<i64>)
    requires
        decoder::decode(data) is Ok,
    ensures
        v.sent(data, pts).answer() matches Ok(frame) && frame.pixels.len() == frame.stride
            * frame.height && frame.pts == pts,
{
    files::law_accepted_file(data);
    let (header, pixels) = decoder::decode(data)->Ok_0;
    header.channels.lemma_rows_of_pixels(header.width as nat, header.height as nat);
}

/// Announcing the end keeps what is held; once that is taken, the answer is `Eof`.
pub proof fn law_decoder_drains_after_flush(v: DecoderView)
    ensures
        v.pending is Some ==> v.flushed().answer() == v.answer(),
        v.flushed().taken().answer() == Err::<FrameView, Starved>(Starved::Eof),
{
}

/// Announcing the end keeps what is held; once that is taken, the answer is `Eof`.
pub proof fn law_encoder_drains_after_flush(v: EncoderView)
    ensures
        v.pending is Some ==> v.flushed().answer() == v.answer(),
        v.flushed().taken().answer() == Err::<Seq<u8>, Starved>(Starved::Eof),
{
}

/// A frame that holds an image is handed out as that image's file, whatever
/// was held before, and only once.
pub proof fn law_frame_comes_out_once(v: EncoderView, frame: SourceFrame)
    requires
        session::packed_image(v.config, frame) is Ok,
    ensures
        ({
            let image = session::packed_image(v.config, frame)->Ok_0;
            let sent = v.sent(frame);
            &&& sent.answer() == Ok::<Seq<u8>, Starved>(
                encoder::encoded(
                    image.width,
                    image.height,
                    image.channels,
                    v.config.colorspace.byte(),
                    image.pixels,
                ),
            )
            &&& sent.taken().answer() == Err::<Seq<u8>, Starved>(session::starved(v.eof))
        }),
{
}

/// A frame that is refused leaves the session as it was.
pub proof fn law_refused_frame_changes_nothing(v: EncoderView, frame: SourceFrame)
    requires
        session::packed_image(v.config, frame) is Err,
    ensures
        v.sent(frame) == v,
{
}

/// Row padding is invisible: a plane whose rows carry the rows of a packed
/// image is packed into that image.
pub proof fn law_padding_is_invisible(
    data: Seq<u8>,
    stride: nat,
    image: Seq<u8>,
    row: nat,
    rows: nat,
)
    requires
        session::rows_present(data, stride, row, rows),
        image.len() == row * rows,
        forall|y: int|
            0 <= y < rows ==> #[trigger] data.subrange(y * stride, y * stride + row)
                == image.subrange(y * row, y * row + row),
    ensures
        session::packed_rows(data, stride, row, rows) == image,
{
    lemma_rows_agree(data, stride, image, row, rows, rows);
    if rows > 0 {
        assert((rows - 1) * row + row == row * rows) by (nonlinear_arith);
    }
    session::lemma_tight_rows(image, row, rows);
    assert(image.take((row * rows) as int) =~= image);
}

/// The first `n` rows of two planes with the same rows are packed alike.
proof fn lemma_rows_agree(
    data: Seq<u8>,
    stride: nat,
    image: Seq<u8>,
    row: nat,
    rows: nat,
    n: nat,
)
    requires
        n <= rows,
        forall|y: int|
            0 <= y < rows ==> #[trigger] data.subrange(y * stride, y * stride + row)
                == image.subrange(y * row, y * row + row),
    ensures
        session::packed_rows(data, stride, row, n) == session::packed_rows(image, row, row, n),
    decreases n,
{
    if n > 0 {
        lemma_rows_agree(data, stride, image, row, rows, (n - 1) as nat);
        let y = n - 1;
        assert(data.subrange(y * stride, y * stride + row) == image.subrange(
            y * row,
            y * row + row,
        ));
    }
}

/// What an encoding session hands out for an image, a decoding session takes
/// in and hands out as that image.
pub proof fn law_sessions_roundtrip(
    enc: EncoderView,
    frame: SourceFrame,
    dec: DecoderView,
    pts: Option<i64>,
)
    requires
        session::packed_image(enc.config, frame) is Ok,
        session::frame_fits(enc.config, frame),
        (session::packed_image(enc.config, frame)->Ok_0).width > 0,
        (session::packed_image(enc.config, frame)->Ok_0).height > 0,
    ensures
        ({
            let image = session::packed_image(enc.config, frame)->Ok_0;
            &&& enc.sent(frame).answer() is Ok
            &&& dec.sent(enc.sent(frame).answer()->Ok_0, pts).answer() matches Ok(out)
                && out.width == image.width && out.height == image.height && out.channels
                == encoder::layout(image.channels) && out.pts == pts && out.pixels
                == image.pixels
        }),
{
    let image = session::packed_image(enc.config, frame)->Ok_0;
    let plane = frame->Video_0->0;
    let row = encoder::layout(image.channels).bytes_for(image.width as nat);
    session::lemma_packed_rows_len(plane.data@, plane.stride as nat, row, image.height as nat);
    encoder::layout(image.channels).lemma_rows_of_pixels(image.width as nat, image.height as nat);
    files::law_roundtrip_is_lossless(
        image.width,
        image.height,
        image.channels,
        enc.config.colorspace.byte(),
        image.pixels,
    );
}

/// Setting the `colorspace` option to the value that options report gives those options again.
pub proof fn law_reported_option_applies(current: QoiEncoderOptions, reported: QoiEncoderOptions)
    requires
        reported.colorspace <= 1,
    ensures
        options::applied(current, "colorspace"@, options::colorspace_value(reported.colorspace)) == Ok::<
            QoiEncoderOptions,
            ErrorView,
        >(reported),
{
    reveal_strlit("0");
    reveal_strlit("1");
    reveal_strlit("srgb");
    assert("1"@[0] != "0"@[0]);
}

/// Applied options hold a colorspace byte that an encoder accepts.
pub proof fn law_applied_options_are_valid(
    current: QoiEncoderOptions,
    key: Seq<char>,
    value: Seq<char>,
)
    ensures
        options::applied(current, key, value) matches Ok(set) ==> set.colorspace <= 1,
{
}

/// The listed values are the ones that the option accepts.
pub proof fn law_listed_values_are_accepted(value: Seq<char>)
    ensures
        options::colorspace_named(value) is Some <==> exists|i: int|
            0 <= i < 4 && #[trigger] COLORSPACE_VALUES@[i]@ == value,
{
    assert(COLORSPACE_VALUES@[0]@ == "0"@);
    assert(COLORSPACE_VALUES@[1]@ == "srgb"@);
    assert(COLORSPACE_VALUES@[2]@ == "1"@);
    assert(COLORSPACE_VALUES@[3]@ == "linear"@);
}

/// The frame of a packet, field by field: the header's size and layout, rows
/// of 3 or 4 bytes a pixel without padding, the packet's timestamp, the image's bytes.
pub proof fn law_frame_of_packet(v: DecoderView, data: Seq<u8>, pts: Option<i64>)
    requires
        decoder::decode(data) is Ok,
    ensures
        ({
            let (header, pixels) = decoder::decode(data)->Ok_0;
            &&& v.sent(data, pts).eof == v.eof
            &&& v.sent(data, pts).pending matches Some(f) && f.width == header.width && f.height
                == header.height && f.channels == header.channels && f.pts == pts && f.pixels
                == pixels && f.stride == if header.channels is Rgb {
                3 * header.width
            } else {
                4 * header.width
            }
        }),
{
}

/// A frame is seen with all its fields.
pub proof fn law_frames_are_seen_whole(f: PendingFrame)
    ensures
        f@.width == f.width,
        f@.height == f.height,
        f@.channels == f.channels,
        f@.stride == f.stride,
        f@.pts == f.pts,
        f@.pixels == f.pixels@,
{
}

/// What a decoding session answers, and what each call changes of it.
pub proof fn law_decoder_steps(v: DecoderView)
    ensures
        v.pending matches Some(f) ==> v.answer() == Ok::<FrameView, Starved>(f),
        v.pending is None && v.eof ==> v.answer() == Err::<FrameView, Starved>(Starved::Eof),
        v.pending is None && !v.eof ==> v.answer() == Err::<FrameView, Starved>(Starved::NeedMore),
        v.taken().pending is None && v.taken().eof == v.eof,
        v.flushed().pending == v.pending && v.flushed().eof,
        DecoderView::fresh().pending is None && !DecoderView::fresh().eof,
{
}

/// What an encoding session answers, and what each call changes of it.
pub proof fn law_encoder_steps(v: EncoderView)
    ensures
        v.pending matches Some(f) ==> v.answer() == Ok::<Seq<u8>, Starved>(f),
        v.pending is None && v.eof ==> v.answer() == Err::<Seq<u8>, Starved>(Starved::Eof),
        v.pending is None && !v.eof ==> v.answer() == Err::<Seq<u8>, Starved>(Starved::NeedMore),
        v.taken().pending is None && v.taken().eof == v.eof && v.taken().config == v.config,
        v.flushed().pending == v.pending && v.flushed().eof && v.flushed().config == v.config,
        EncoderView::fresh(v.config).pending is None,
        !EncoderView::fresh(v.config).eof,
        EncoderView::fresh(v.config).config == v.config,
{
}

/// The file of a frame: its image's size, channels and pixels, with byte 0 or
/// 1 for the session's colorspace.
pub proof fn law_file_of_frame(v: EncoderView, frame: SourceFrame)
    requires
        session::packed_image(v.config, frame) is Ok,
    ensures
        ({
            let image = session::packed_image(v.config, frame)->Ok_0;
            let byte: u8 = if v.config.colorspace is AllLinear {
                1
            } else {
                0
            };
            &&& v.sent(frame).pending == Some(
                encoder::encoded(image.width, image.height, image.channels, byte, image.pixels),
            )
            &&& v.sent(frame).eof == v.eof
            &&& v.sent(frame).config == v.config
        }),
{
}

/// The colorspace of a byte.
pub proof fn law_colorspace_of_byte()
    ensures
        files::colorspace_of(0) is SrgbWithLinearAlpha,
        files::colorspace_of(1) is AllLinear,
{
}

/// Why a frame is refused, in the order in which its faults are looked for.
pub proof fn law_frame_refusals(config: EncoderConfig, first: Option<SourcePlane>)
    ensures
        ({
            let got = session::packed_image(config, SourceFrame::Video(first));
            let known = config.format is Some && config.width is Some && config.height is Some;
            &&& session::packed_image(config, SourceFrame::Other) == Err::<PackedImage, Seq<char>>(
                "QOI encoder: expected video frame"@,
            )
            &&& config.format is None ==> got == Err::<PackedImage, Seq<char>>(
                "QOI encoder: pixel_format missing in CodecParameters"@,
            )
            &&& config.format is Some && config.width is None ==> got == Err::<
                PackedImage,
                Seq<char>,
            >("QOI encoder: width missing in CodecParameters"@)
            &&& config.format is Some && config.width is Some && config.height is None ==> got
                == Err::<PackedImage, Seq<char>>("QOI encoder: height missing in CodecParameters"@)
            &&& known ==> (config.format matches Some(SourceFormat::Other(name)) ==> got == Err::<
                PackedImage,
                Seq<char>,
            >("QOI encoder: unsupported pixel format "@ + name@))
            &&& known && !(config.format->Some_0 is Other) && first is None ==> got == Err::<
                PackedImage,
                Seq<char>,
            >("QOI encoder: empty frame plane"@)
        }),
{
}

/// A frame that is refused can be sent.
pub proof fn law_refused_frame_fits(config: EncoderConfig, frame: SourceFrame)
    requires
        session::packed_image(config, frame) is Err,
    ensures
        session::frame_fits(config, frame),
{
}

/// The image of a plane. It is there exactly if the last row ends within the
/// plane. Byte `x` of row `y` is the plane's byte `x` behind `y` strides.
pub proof fn law_image_of_plane(config: EncoderConfig, plane: SourcePlane, y: int, x: int)
    requires
        config.format == Some(SourceFormat::Rgba) || config.format == Some(SourceFormat::Rgb24),
        config.width is Some,
        config.height is Some,
    ensures
        ({
            let c: int = if config.format == Some(SourceFormat::Rgba) {
                4
            } else {
                3
            };
            let w = config.width->Some_0;
            let h = config.height->Some_0;
            let row = c * w;
            let whole = h == 0 || (h - 1) * plane.stride + row <= plane.data@.len();
            let got = session::packed_image(config, SourceFrame::Video(Some(plane)));
            &&& !whole ==> got == Err::<PackedImage, Seq<char>>(
                "QOI encoder: frame plane truncated"@,
            )
            &&& whole ==> (got matches Ok(image) && image.width == w && image.height == h
                && image.channels == c && image.pixels.len() == row * h && (0 <= y < h && 0 <= x
                < row ==> image.pixels[y * row + x] == plane.data@[y * plane.stride + x]))
            &&& session::frame_fits(config, SourceFrame::Video(Some(plane))) <==> (whole ==> 22 + 5
                * (w * h) <= isize::MAX && (plane.stride == row ==> plane.data@.len() == row * h))
        }),
{
    let c: int = if config.format == Some(SourceFormat::Rgba) {
        4
    } else {
        3
    };
    let w = config.width->Some_0;
    let h = config.height->Some_0;
    let row = (c * w) as nat;
    assert(c * w >= 0) by (nonlinear_arith)
        requires
            c == 3 || c == 4,
            w >= 0,
    ;
    let channels: u8 = if config.format == Some(SourceFormat::Rgba) {
        4
    } else {
        3
    };
    assert(encoder::layout(channels).bytes_for(w as nat) == row);
    if session::rows_present(plane.data@, plane.stride as nat, row, h as nat) {
        session::lemma_packed_rows_len(plane.data@, plane.stride as nat, row, h as nat);
        if 0 <= y < h && 0 <= x < row {
            lemma_packed_byte(plane.data@, plane.stride as nat, row, h as nat, y, x);
        }
    }
}

/// Packing puts byte `x` of row `y` behind `y` rows.
proof fn lemma_packed_byte(data: Seq<u8>, stride: nat, row: nat, rows: nat, y: int, x: int)
    requires
        session::rows_present(data, stride, row, rows),
        0 <= y < rows,
        0 <= x < row,
    ensures
        session::packed_rows(data, stride, row, rows)[y * row + x] == data[y * stride + x],
    decreases rows,
{
    let m = (rows - 1) as nat;
    assert(0 <= m * stride) by (nonlinear_arith);
    assert(0 <= y * row) by (nonlinear_arith)
        requires
            0 <= y,
    ;
    if m > 0 {
        assert((m - 1) * stride <= m * stride) by (nonlinear_arith)
            requires
                m > 0,
                stride >= 0,
        ;
    }
    session::lemma_packed_rows_len(data, stride, row, m);
    assert(row * m == m * row) by (nonlinear_arith);
    if y < m {
        lemma_packed_byte(data, stride, row, m, y, x);
        assert(y * row + row <= m * row) by (nonlinear_arith)
            requires
                y + 1 <= m,
        ;
    }
}

/// What setting an option yields: byte 0 for `0` and `srgb`, byte 1 for `1`
/// and `linear`, a refusal of any other value and of any other option.
pub proof fn law_option_values(current: QoiEncoderOptions, key: Seq<char>, value: Seq<char>)
    ensures
        ({
            let got = options::applied(current, key, value);
            let zero = value == "0"@ || value == "srgb"@;
            let one = value == "1"@ || value == "linear"@;
            &&& key == "colorspace"@ && zero ==> (got matches Ok(set) && set.colorspace == 0)
            &&& key == "colorspace"@ && one ==> (got matches Ok(set) && set.colorspace == 1)
            &&& key == "colorspace"@ && !zero && !one ==> got == Err::<
                QoiEncoderOptions,
                ErrorView,
            >(
                ErrorView::InvalidData(
                    "QOI encoder: invalid colorspace "@ + options::quoted_text(value),
                ),
            )
            &&& key != "colorspace"@ ==> got == Err::<QoiEncoderOptions, ErrorView>(
                ErrorView::InvalidData("QOI encoder: unknown option "@ + options::quoted_text(key)),
            )
        }),
{
    reveal_strlit("0");
    reveal_strlit("1");
    reveal_strlit("srgb");
    reveal_strlit("linear");
    assert("1"@[0] != "0"@[0]);
    assert("1"@[0] != "srgb"@[0]);
    assert("linear"@[0] != "0"@[0]);
    assert("linear"@[0] != "srgb"@[0]);
}

/// The value that options report is `0` or `1`, by their byte.
pub proof fn law_reported_values()
    ensures
        options::colorspace_value(0) == "0"@,
        options::colorspace_value(1) == "1"@,
{
}

} // verus!
