//! Hand-built streams at the edges of the chunk encodings.

use oxideav_qoi::{
    parse_qoi, QoiChannels, END_MARKER, MAGIC, OP_DIFF, OP_LUMA, OP_RGB, OP_RGBA, OP_RUN,
};

fn rgba_stream(width: u32, chunks: &[u8]) -> Vec<u8> {
    let mut bytes = Vec::with_capacity(14 + chunks.len() + 8);
    bytes.extend_from_slice(MAGIC);
    bytes.extend_from_slice(&width.to_be_bytes());
    bytes.extend_from_slice(&1u32.to_be_bytes());
    bytes.push(4);
    bytes.push(0);
    bytes.extend_from_slice(chunks);
    bytes.extend_from_slice(END_MARKER);
    bytes
}

fn diff_chunk(dr: i32, dg: i32, db: i32) -> u8 {
    let r = (dr + 2) as u8 & 0x03;
    let g = (dg + 2) as u8 & 0x03;
    let b = (db + 2) as u8 & 0x03;
    OP_DIFF | (r << 4) | (g << 2) | b
}

fn luma_chunk(dg: i32, dr_dg: i32, db_dg: i32) -> [u8; 2] {
    let b0 = OP_LUMA | ((dg + 32) as u8 & 0x3F);
    let b1 = (((dr_dg + 8) as u8 & 0x0F) << 4) | ((db_dg + 8) as u8 & 0x0F);
    [b0, b1]
}

#[test]
fn diff_wraparound_low_underflows_to_255() {
    let mut chunks = vec![OP_RGB, 1, 0, 0];
    chunks.push(diff_chunk(-2, 0, 0));
    let bytes = rgba_stream(2, &chunks);

    let img = parse_qoi(&bytes).expect("decode");
    assert_eq!(img.channels, QoiChannels::Rgba);
    assert_eq!(&img.pixels[0..4], &[1, 0, 0, 255], "pixel 0");
    assert_eq!(
        &img.pixels[4..8],
        &[255, 0, 0, 255],
        "DIFF dr=-2 from red=1 must wrap to 255 (1 - 2 = 255)"
    );
}

#[test]
fn diff_wraparound_high_overflows_to_0() {
    let mut chunks = vec![OP_RGB, 255, 0, 0];
    chunks.push(diff_chunk(1, 0, 0));
    let bytes = rgba_stream(2, &chunks);

    let img = parse_qoi(&bytes).expect("decode");
    assert_eq!(&img.pixels[0..4], &[255, 0, 0, 255], "pixel 0");
    assert_eq!(
        &img.pixels[4..8],
        &[0, 0, 0, 255],
        "DIFF dr=+1 from red=255 must wrap to 0 (255 + 1 = 0)"
    );
}

#[test]
fn diff_full_delta_range_all_channels() {
    for dr in -2..=1 {
        for dg in -2..=1 {
            for db in -2..=1 {
                let base = [100u8, 110, 120, 255];
                let mut chunks = vec![OP_RGB, base[0], base[1], base[2]];
                chunks.push(diff_chunk(dr, dg, db));
                let bytes = rgba_stream(2, &chunks);
                let img = parse_qoi(&bytes).expect("decode");
                let exp = [
                    base[0].wrapping_add(dr as u8),
                    base[1].wrapping_add(dg as u8),
                    base[2].wrapping_add(db as u8),
                    255,
                ];
                assert_eq!(
                    &img.pixels[4..8],
                    &exp,
                    "DIFF dr={dr} dg={dg} db={db} from {base:?}"
                );
            }
        }
    }
}

#[test]
fn luma_wraparound_underflows_to_253() {
    let mut chunks = vec![OP_RGB, 10, 50, 0];
    chunks.extend_from_slice(&luma_chunk(-5, -8, 0));
    let bytes = rgba_stream(2, &chunks);

    let img = parse_qoi(&bytes).expect("decode");

    assert_eq!(
        img.pixels[4], 253,
        "LUMA red delta -13 from red=10 must wrap to 253 (10 - 13 = 253)"
    );
    assert_eq!(img.pixels[5], 45, "green: 50 + dg(-5)");
    assert_eq!(img.pixels[6], 251, "blue: 0 + db(-5) wraps");
    assert_eq!(img.pixels[7], 255, "alpha unchanged by LUMA");
}

#[test]
fn luma_wraparound_overflows_to_1() {
    let mut chunks = vec![OP_RGB, 250, 100, 0];
    chunks.extend_from_slice(&luma_chunk(5, 2, 0));
    let bytes = rgba_stream(2, &chunks);

    let img = parse_qoi(&bytes).expect("decode");

    assert_eq!(
        img.pixels[4], 1,
        "LUMA red delta +7 from red=250 must wrap to 1 (250 + 7 = 1)"
    );
    assert_eq!(img.pixels[5], 105, "green: 100 + dg(5)");
    assert_eq!(img.pixels[6], 5, "blue: 0 + db(5)");
    assert_eq!(img.pixels[7], 255, "alpha unchanged by LUMA");
}

#[test]
fn luma_extreme_dg_endpoints() {
    let cases: &[(i32, i32, i32)] = &[(-32, -8, 7), (31, 7, -8), (-32, 7, 7), (31, -8, -8)];
    for &(dg, dr_dg, db_dg) in cases {
        let base = [128u8, 128, 128, 255];
        let mut chunks = vec![OP_RGB, base[0], base[1], base[2]];
        chunks.extend_from_slice(&luma_chunk(dg, dr_dg, db_dg));
        let bytes = rgba_stream(2, &chunks);
        let img = parse_qoi(&bytes).expect("decode");
        let dr = dr_dg + dg;
        let db = db_dg + dg;
        let exp = [
            base[0].wrapping_add(dr as u8),
            base[1].wrapping_add(dg as u8),
            base[2].wrapping_add(db as u8),
            255,
        ];
        assert_eq!(
            &img.pixels[4..8],
            &exp,
            "LUMA dg={dg} dr-dg={dr_dg} db-dg={db_dg}"
        );
    }
}

#[test]
fn rgb_tag_0xfe_is_not_a_run() {
    let chunks = vec![OP_RGB, 17, 34, 51];
    let bytes = rgba_stream(1, &chunks);
    let img = parse_qoi(&bytes).expect("decode");
    assert_eq!(img.pixels.len(), 4, "0xFE must decode as ONE RGB pixel");
    assert_eq!(&img.pixels[0..4], &[17, 34, 51, 255]);
}

#[test]
fn rgba_tag_0xff_is_not_a_run() {
    let chunks = vec![OP_RGBA, 17, 34, 51, 68];
    let bytes = rgba_stream(1, &chunks);
    let img = parse_qoi(&bytes).expect("decode");
    assert_eq!(img.pixels.len(), 4, "0xFF must decode as ONE RGBA pixel");
    assert_eq!(&img.pixels[0..4], &[17, 34, 51, 68]);
}

#[test]
fn run_max_length_62_decodes_to_62_copies() {
    let run_byte = OP_RUN | 61;
    assert_eq!(
        run_byte, 0xFD,
        "max legal RUN byte is 0xFD, just below 0xFE"
    );
    let chunks = vec![run_byte];
    let bytes = rgba_stream(62, &chunks);
    let img = parse_qoi(&bytes).expect("decode");
    assert_eq!(img.pixels.len(), 62 * 4, "RUN of 62 emits 62 pixels");
    for px in img.pixels.chunks_exact(4) {
        assert_eq!(px, &[0, 0, 0, 255], "every RUN pixel is the initial prev");
    }
}

#[test]
fn run_length_one_decodes_single_pixel() {
    let chunks = vec![OP_RUN];
    let bytes = rgba_stream(1, &chunks);
    let img = parse_qoi(&bytes).expect("decode");
    assert_eq!(img.pixels.len(), 4, "RUN of 1 emits 1 pixel");
    assert_eq!(&img.pixels[0..4], &[0, 0, 0, 255]);
}
