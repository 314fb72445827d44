//! Laws of whole files: what decoding gives back of encoding, and what the
//! header, the colorspace byte and the sizes have to do with it.
use vstd::prelude::*;

use crate::decoder;
use crate::encoder;
use crate::error::ErrorView;
use crate::image::{QoiChannels, QoiColorspace, QoiHeader};
use crate::laws::canonical;
use crate::laws::chunks;
use crate::model;
use crate::model::{CodecState, Pixel};
use crate::ops;
use crate::ops::QoiOp;
use crate::{END_MARKER, HEADER_SIZE, MAGIC};

verus! {

/// The colorspace that a header byte of 0 or 1 stands for.
pub open spec fn colorspace_of(byte: u8) -> QoiColorspace {
    if byte == 0 {
        QoiColorspace::SrgbWithLinearAlpha
    } else {
        QoiColorspace::AllLinear
    }
}

/// The header of an image with these arguments.
pub open spec fn header_for(width: u32, height: u32, channels: u8, colorspace: u8) -> QoiHeader {
    QoiHeader {
        width,
        height,
        channels: encoder::layout(channels),
        colorspace: colorspace_of(colorspace),
    }
}

/// Big-endian bytes spell the number they were made of.
proof fn lemma_be_bytes(n: u32)
    ensures
        ({
            let b = encoder::be_bytes(n);
            decoder::be_u32(b[0], b[1], b[2], b[3]) == n
        }),
{
}

/// A buffer consists of its pixels' bytes.
proof fn lemma_image_bytes_of_pixels(buffer: Seq<u8>, channels: QoiChannels, n: nat)
    requires
        buffer.len() == channels.bytes_for(n),
    ensures
        model::image_bytes(model::pixels_of(buffer, channels, n), channels) == buffer,
    decreases n,
{
    let pixels = model::pixels_of(buffer, channels, n);
    if n == 0 {
        assert(model::image_bytes(pixels, channels) =~= buffer);
    } else {
        let m = (n - 1) as nat;
        let front = buffer.take(channels.bytes_for(m) as int);
        lemma_image_bytes_of_pixels(front, channels, m);
        assert(pixels.drop_last() =~= model::pixels_of(front, channels, m));
        assert(front + pixels.last().bytes(channels) =~= buffer);
    }
}

/// Header, chunks and end marker of a file are where a decoder looks for them.
proof fn lemma_file_parts(header: Seq<u8>, chunks: Seq<u8>)
    requires
        header.len() == HEADER_SIZE,
    ensures
        ({
            let file = header + chunks + END_MARKER@;
            &&& file.len() == HEADER_SIZE + chunks.len() + 8
            &&& file.take(HEADER_SIZE as int) == header
            &&& decoder::chunk_section(file) == chunks
            &&& decoder::trailer(file) == END_MARKER@
        }),
{
    let file = header + chunks + END_MARKER@;
    assert(file.take(HEADER_SIZE as int) =~= header);
    assert(decoder::chunk_section(file) =~= chunks);
    assert(decoder::trailer(file) =~= END_MARKER@);
}

/// Every file starts with the header bytes for its arguments (magic,
/// big-endian width and height, channels, colorspace) and ends with the end marker.
pub proof fn law_file_framing(
    width: u32,
    height: u32,
    channels: u8,
    colorspace: u8,
    pixels: Seq<u8>,
)
    ensures
        ({
            let file = encoder::encoded(width, height, channels, colorspace, pixels);
            &&& file.len() >= HEADER_SIZE + 8
            &&& file.take(4) == MAGIC@
            &&& file.subrange(4, 8) == encoder::be_bytes(width)
            &&& file.subrange(8, 12) == encoder::be_bytes(height)
            &&& file[12] == channels
            &&& file[13] == colorspace
            &&& file.skip(file.len() - 8) == END_MARKER@
            &&& decoder::chunk_section(file) == model::stream_bytes(
                encoder::image_ops(width, height, channels, pixels),
            )
        }),
{
    let file = encoder::encoded(width, height, channels, colorspace, pixels);
    let header = encoder::header_bytes(width, height, channels, colorspace);
    let ops = encoder::image_ops(width, height, channels, pixels);
    lemma_file_parts(header, model::stream_bytes(ops));
    assert(file.take(4) =~= MAGIC@);
    assert(file.subrange(4, 8) =~= encoder::be_bytes(width));
    assert(file.subrange(8, 12) =~= encoder::be_bytes(height));
}

/// A file's header reads back as the arguments that it was written for. An
/// image without pixels is refused there.
pub proof fn law_header_reads_back(
    width: u32,
    height: u32,
    channels: u8,
    colorspace: u8,
    pixels: Seq<u8>,
)
    requires
        channels == 3 || channels == 4,
        colorspace <= 1,
    ensures
        decoder::header_of(encoder::encoded(width, height, channels, colorspace, pixels)) == if width
            == 0 || height == 0 {
            Err::<QoiHeader, ErrorView>(ErrorView::InvalidData("QOI: zero dimension in header"@))
        } else {
            Ok(header_for(width, height, channels, colorspace))
        },
{
    let file = encoder::encoded(width, height, channels, colorspace, pixels);
    law_file_framing(width, height, channels, colorspace, pixels);
    lemma_be_bytes(width);
    lemma_be_bytes(height);
    assert(file[4] == file.subrange(4, 8)[0]);
    assert(file[5] == file.subrange(4, 8)[1]);
    assert(file[6] == file.subrange(4, 8)[2]);
    assert(file[7] == file.subrange(4, 8)[3]);
    assert(file[8] == file.subrange(8, 12)[0]);
    assert(file[9] == file.subrange(8, 12)[1]);
    assert(file[10] == file.subrange(8, 12)[2]);
    assert(file[11] == file.subrange(8, 12)[3]);
}

/// The chunks of an image: they can stand in a stream, they denote the
/// image, and there are as many pixels in them as in the image.
proof fn lemma_image_ops(width: u32, height: u32, channels: u8, pixels: Seq<u8>)
    requires
        pixels.len() == encoder::layout(channels).bytes_for((width * height) as nat),
    ensures
        ({
            let layout = encoder::layout(channels);
            let ops = encoder::image_ops(width, height, channels, pixels);
            &&& model::all_in_range(ops)
            &&& model::walk(model::stream_bytes(ops)) == ops
            &&& model::total_pixels(ops) == width * height
            &&& model::image_bytes(model::render(CodecState::start(), ops), layout) == pixels
        }),
{
    let layout = encoder::layout(channels);
    let image = model::pixels_of(pixels, layout, (width * height) as nat);
    let ops = encoder::image_ops(width, height, channels, pixels);
    assert(width * height >= 0) by (nonlinear_arith);
    canonical::law_encoding_is_lossless(CodecState::start(), image);
    chunks::law_walk_inverts_write(ops);
    chunks::law_render_length(CodecState::start(), ops);
    lemma_image_bytes_of_pixels(pixels, layout, (width * height) as nat);
}

/// Decoding an encoded image gives back its size, channels, colorspace and
/// every pixel byte.
pub proof fn law_roundtrip_is_lossless(
    width: u32,
    height: u32,
    channels: u8,
    colorspace: u8,
    pixels: Seq<u8>,
)
    requires
        encoder::encodable(width, height, channels, colorspace, pixels),
        width > 0,
        height > 0,
    ensures
        decoder::decode(encoder::encoded(width, height, channels, colorspace, pixels)) == Ok::<
            (QoiHeader, Seq<u8>),
            ErrorView,
        >((header_for(width, height, channels, colorspace), pixels)),
{
    let file = encoder::encoded(width, height, channels, colorspace, pixels);
    let ops = encoder::image_ops(width, height, channels, pixels);
    let header = header_for(width, height, channels, colorspace);
    law_file_framing(width, height, channels, colorspace, pixels);
    law_header_reads_back(width, height, channels, colorspace, pixels);
    lemma_image_ops(width, height, channels, pixels);
    let n = (width * height) as nat;
    assert(header.pixel_count() == n);
    chunks::law_accepted_when_exact(model::stream_bytes(ops), n);
    chunks::law_pixels_per_byte(ops);
    assert(model::complete(ops)) by {
        assert forall|i: int| 0 <= i < ops.len() implies !(#[trigger] ops[i] is Truncated) by {
            assert(ops[i].in_range());
        }
    }
}

/// An image without pixels can be encoded, but a decoder refuses its file.
pub proof fn law_empty_image_is_refused(
    width: u32,
    height: u32,
    channels: u8,
    colorspace: u8,
    pixels: Seq<u8>,
)
    requires
        encoder::encodable(width, height, channels, colorspace, pixels),
        width == 0 || height == 0,
    ensures
        decoder::decode(encoder::encoded(width, height, channels, colorspace, pixels)) == Err::<
            (QoiHeader, Seq<u8>),
            ErrorView,
        >(ErrorView::InvalidData("QOI: zero dimension in header"@)),
{
    law_file_framing(width, height, channels, colorspace, pixels);
    law_header_reads_back(width, height, channels, colorspace, pixels);
}

/// A file takes at most 5 bytes a pixel besides header and end marker.
pub proof fn law_worst_case_size(
    width: u32,
    height: u32,
    channels: u8,
    colorspace: u8,
    pixels: Seq<u8>,
)
    requires
        pixels.len() == encoder::layout(channels).bytes_for((width * height) as nat),
    ensures
        encoder::encoded(width, height, channels, colorspace, pixels).len() <= HEADER_SIZE + 5 * (
        width * height) + 8,
{
    let ops = encoder::image_ops(width, height, channels, pixels);
    lemma_image_ops(width, height, channels, pixels);
    canonical::law_bytes_per_pixel(ops);
    lemma_file_parts(
        encoder::header_bytes(width, height, channels, colorspace),
        model::stream_bytes(ops),
    );
}

/// The file of a single-coloured image takes at most 5 bytes and one byte for
/// each 62 pixels begun, besides header and end marker.
pub proof fn law_solid_fill_size(
    width: u32,
    height: u32,
    channels: u8,
    colorspace: u8,
    pixels: Seq<u8>,
    p: Pixel,
)
    requires
        model::pixels_of(pixels, encoder::layout(channels), (width * height) as nat)
            == model::copies(p, (width * height) as nat),
    ensures
        encoder::encoded(width, height, channels, colorspace, pixels).len() <= HEADER_SIZE + 5 + (
        width * height + 61) / 62 + 8,
{
    let ops = encoder::image_ops(width, height, channels, pixels);
    assert(width * height >= 0) by (nonlinear_arith);
    canonical::law_solid_fill_is_compact(CodecState::start(), p, (width * height) as nat);
    lemma_file_parts(
        encoder::header_bytes(width, height, channels, colorspace),
        model::stream_bytes(ops),
    );
}

/// The chunks that an encoder writes are canonical, and none is cut short.
/// No slot is named twice in a row, and a run follows a run only where that is full.
pub proof fn law_file_is_canonical(
    width: u32,
    height: u32,
    channels: u8,
    colorspace: u8,
    pixels: Seq<u8>,
)
    requires
        encoder::encodable(width, height, channels, colorspace, pixels),
    ensures
        ({
            let file = encoder::encoded(width, height, channels, colorspace, pixels);
            let walked = model::walk(decoder::chunk_section(file));
            &&& canonical::canonical(CodecState::start(), walked)
            &&& model::complete(walked)
            &&& forall|i: int|
                0 <= i < walked.len() - 1 ==> !((#[trigger] walked[i]) is Index && walked[i]
                    == walked[i + 1])
            &&& forall|i: int|
                0 <= i < walked.len() - 1 && (#[trigger] walked[i]) is Run && walked[i + 1] is Run
                    ==> walked[i] == (QoiOp::Run { length: 62 })
        }),
{
    let ops = encoder::image_ops(width, height, channels, pixels);
    law_file_framing(width, height, channels, colorspace, pixels);
    lemma_image_ops(width, height, channels, pixels);
    canonical::law_encoder_is_canonical(
        CodecState::start(),
        model::pixels_of(pixels, encoder::layout(channels), (width * height) as nat),
    );
    assert forall|i: int| 0 <= i < ops.len() implies !(#[trigger] ops[i] is Truncated) by {
        assert(ops[i].in_range());
    }
    assert forall|i: int| 0 <= i < ops.len() - 1 implies !((#[trigger] ops[i]) is Index && ops[i]
        == ops[i + 1]) by {
        canonical::law_no_repeated_index(CodecState::start(), ops, i);
    }
    assert forall|i: int|
        0 <= i < ops.len() - 1 && (#[trigger] ops[i]) is Run && ops[i + 1] is Run implies ops[i]
        == (QoiOp::Run { length: 62 }) by {
        canonical::law_only_full_runs_continue(CodecState::start(), ops, i);
    }
}

/// No chunk of an encoder's file can be replaced by a smaller one that
/// denotes the same pixel, but for transparent black in a slot that was never
/// used, where its own slot has been taken over.
pub proof fn law_every_chunk_is_smallest(
    width: u32,
    height: u32,
    channels: u8,
    colorspace: u8,
    pixels: Seq<u8>,
    i: int,
    other: QoiOp,
)
    requires
        encoder::encodable(width, height, channels, colorspace, pixels),
        0 <= i < encoder::image_ops(width, height, channels, pixels).len(),
        other.in_range(),
        ({
            let ops = encoder::image_ops(width, height, channels, pixels);
            let state = canonical::state_after(CodecState::start(), ops.take(i));
            &&& state.pixel(other) == state.pixel(ops[i])
            &&& state.pixel(ops[i]) == canonical::transparent() && other is Index
                ==> state.slots[0] == canonical::transparent() || ops[i].bytes().len() == 1
        }),
    ensures
        encoder::image_ops(width, height, channels, pixels)[i].bytes().len()
            <= other.bytes().len(),
{
    let ops = encoder::image_ops(width, height, channels, pixels);
    let state = canonical::state_after(CodecState::start(), ops.take(i));
    let image = model::pixels_of(pixels, encoder::layout(channels), (width * height) as nat);
    canonical::law_encoder_is_canonical(CodecState::start(), image);
    canonical::law_canonical_at_every_position(CodecState::start(), ops, i);
    canonical::law_slots_are_in_order(ops.take(i));
    assert(ops.skip(i)[0] == ops[i]);
    if ops[i].bytes().len() > 1 {
        canonical::law_chosen_is_smallest(state, state.pixel(ops[i]), other);
    }
}

/// A 3-channel file holds no chunk that carries alpha.
pub proof fn law_rgb_file_has_no_rgba(width: u32, height: u32, pixels: Seq<u8>)
    ensures
        forall|i: int|
            0 <= i < encoder::image_ops(width, height, 3, pixels).len() ==> !(
            #[trigger] encoder::image_ops(width, height, 3, pixels)[i] is Rgba),
{
    canonical::law_opaque_image_has_no_rgba(
        CodecState::start(),
        model::pixels_of(pixels, QoiChannels::Rgb, (width * height) as nat),
    );
}

/// An accepted file starts with the magic and ends with the end marker. It
/// decodes to the header that the probe reports, with at least one pixel, and
/// to exactly the announced number of pixel bytes; its chunk walk opens and
/// runs to its end.
pub proof fn law_accepted_file(input: Seq<u8>)
    requires
        decoder::decode(input) is Ok,
    ensures
        ({
            let (header, pixels) = decoder::decode(input)->Ok_0;
            &&& decoder::header_of(input) == Ok::<QoiHeader, ErrorView>(header)
            &&& ops::opened(input) == Ok::<QoiHeader, ErrorView>(header)
            &&& input.take(4) == MAGIC@
            &&& decoder::trailer(input) == END_MARKER@
            &&& header.width > 0 && header.height > 0
            &&& pixels.len() == header.byte_count()
            &&& model::complete(model::walk(decoder::chunk_section(input)))
            &&& model::total_pixels(model::walk(decoder::chunk_section(input)))
                == header.pixel_count()
        }),
{
    let (header, pixels) = decoder::decode(input)->Ok_0;
    let section = decoder::chunk_section(input);
    let walked = model::walk(section);
    chunks::law_accepted_when_exact(section, header.pixel_count());
    chunks::law_render_length(CodecState::start(), walked);
    model::lemma_image_bytes_len(model::render(CodecState::start(), walked), header.channels);
}

/// Encoding an accepted file's image again keeps the image: decoding the new
/// file gives the same header and the same pixels. Images too large to encode
/// are left out.
pub proof fn law_reencoding_keeps_image(input: Seq<u8>)
    requires
        decoder::decode(input) is Ok,
        HEADER_SIZE + 5 * (decoder::decode(input)->Ok_0).0.pixel_count() + 8 <= isize::MAX,
    ensures
        ({
            let (header, pixels) = decoder::decode(input)->Ok_0;
            let channels = header.channels.width() as u8;
            let colorspace = header.colorspace.byte();
            &&& encoder::encodable(header.width, header.height, channels, colorspace, pixels)
            &&& decoder::decode(
                encoder::encoded(header.width, header.height, channels, colorspace, pixels),
            ) == decoder::decode(input)
        }),
{
    let (header, pixels) = decoder::decode(input)->Ok_0;
    law_accepted_file(input);
    law_roundtrip_is_lossless(
        header.width,
        header.height,
        header.channels.width() as u8,
        header.colorspace.byte(),
        pixels,
    );
}

/// Decoding an encoder's file and encoding the result gives the same file, byte for byte.
pub proof fn law_reencoding_is_idempotent(
    width: u32,
    height: u32,
    channels: u8,
    colorspace: u8,
    pixels: Seq<u8>,
)
    requires
        encoder::encodable(width, height, channels, colorspace, pixels),
        width > 0,
        height > 0,
    ensures
        ({
            let file = encoder::encoded(width, height, channels, colorspace, pixels);
            decoder::decode(file) matches Ok((header, decoded)) && encoder::encoded(
                header.width,
                header.height,
                header.channels.width() as u8,
                header.colorspace.byte(),
                decoded,
            ) == file
        }),
{
    law_roundtrip_is_lossless(width, height, channels, colorspace, pixels);
}

/// The header is a matter of the first 14 bytes alone.
pub proof fn law_header_ignores_the_rest(a: Seq<u8>, b: Seq<u8>)
    requires
        a.len() >= HEADER_SIZE,
        b.len() >= HEADER_SIZE,
        a.take(HEADER_SIZE as int) == b.take(HEADER_SIZE as int),
    ensures
        decoder::header_of(a) == decoder::header_of(b),
{
    let head = a.take(HEADER_SIZE as int);
    assert forall|i: int| 0 <= i < HEADER_SIZE implies a[i] == b[i] by {
        assert(a[i] == head[i]);
        assert(b[i] == b.take(HEADER_SIZE as int)[i]);
    }
    assert(a.take(4) =~= b.take(4));
}

/// The colorspace byte is informational: exchanging it exchanges the reported
/// colorspace and changes nothing else of what a file decodes to.
pub proof fn law_colorspace_is_informational(input: Seq<u8>, byte: u8)
    requires
        input.len() >= HEADER_SIZE,
        input[13] <= 1,
        byte <= 1,
    ensures
        decoder::decode(input.update(13, byte)) == match decoder::decode(input) {
            Ok((header, pixels)) => Ok(
                (QoiHeader { colorspace: colorspace_of(byte), ..header }, pixels),
            ),
            Err(refusal) => Err(refusal),
        },
{
    let other = input.update(13, byte);
    assert(other.take(4) =~= input.take(4));
    if input.len() >= HEADER_SIZE + 8 {
        assert(decoder::chunk_section(other) =~= decoder::chunk_section(input));
        assert(decoder::trailer(other) =~= decoder::trailer(input));
    }
}

/// Two encodings of one image that differ in colorspace differ in that byte only.
pub proof fn law_colorspace_is_one_byte(
    width: u32,
    height: u32,
    channels: u8,
    pixels: Seq<u8>,
    a: u8,
    b: u8,
)
    ensures
        encoder::encoded(width, height, channels, b, pixels) == encoder::encoded(
            width,
            height,
            channels,
            a,
            pixels,
        ).update(13, b),
{
    assert(encoder::encoded(width, height, channels, b, pixels) =~= encoder::encoded(
        width,
        height,
        channels,
        a,
        pixels,
    ).update(13, b));
}

/// Where the header of a file is refused, so is the file: with the same error
/// if it is long enough for header and end marker, and as malformed in any case.
pub proof fn law_refused_header_refuses_file(input: Seq<u8>)
    requires
        decoder::header_of(input) is Err,
    ensures
        input.len() >= HEADER_SIZE + 8 ==> {
            let refusal = decoder::header_of(input)->Err_0;
            &&& decoder::decode(input) == Err::<(QoiHeader, Seq<u8>), ErrorView>(refusal)
            &&& ops::opened(input) == Err::<QoiHeader, ErrorView>(refusal)
        },
        decoder::decode(input) matches Err(ErrorView::InvalidData(_)),
        ops::opened(input) matches Err(ErrorView::InvalidData(_)),
{
}

/// A file is refused as unsupported exactly when its header is good and
/// announces more pixel bytes than this machine can count.
pub proof fn law_unsupported_means_unmeasurable(input: Seq<u8>)
    ensures
        (decoder::decode(input) matches Err(ErrorView::Unsupported(_))) <==> input.len()
            >= HEADER_SIZE + 8 && (decoder::header_of(input) matches Ok(header)
            && header.byte_count() > usize::MAX),
{
}

/// A decoded image is in proportion to its file: at most 248 pixel bytes for a chunk byte.
pub proof fn law_output_is_bounded_by_input(input: Seq<u8>)
    requires
        decoder::decode(input) is Ok,
    ensures
        (decoder::decode(input)->Ok_0).1.len() <= 248 * decoder::chunk_section(input).len(),
{
    law_accepted_file(input);
}

/// The chunks of a file are a matter of the pixels and the channels alone:
/// they are those of the pixels in a single row, with any colorspace.
pub proof fn law_section_ignores_shape(
    width: u32,
    height: u32,
    channels: u8,
    colorspace: u8,
    pixels: Seq<u8>,
    row_width: u32,
    row_colorspace: u8,
)
    requires
        row_width == width * height,
    ensures
        ({
            let section = decoder::chunk_section(
                encoder::encoded(width, height, channels, colorspace, pixels),
            );
            &&& section == decoder::chunk_section(
                encoder::encoded(row_width, 1, channels, row_colorspace, pixels),
            )
            &&& section == model::stream_bytes(
                encoder::encode_ops(
                    CodecState::start(),
                    model::pixels_of(pixels, encoder::layout(channels), row_width as nat),
                ),
            )
        }),
{
    law_file_framing(width, height, channels, colorspace, pixels);
    law_file_framing(row_width, 1, channels, row_colorspace, pixels);
    assert(row_width * 1 == row_width);
}

} // verus!
