//! The chunk walk and the chunks that it yields.

use oxideav_qoi::{
    decoder, encode_qoi, encode_qoi_full, iter_ops, iter_ops_strict, qoi_hash, QoiColorspace, QoiOp,
    END_MARKER, HEADER_SIZE, OP_DIFF, OP_INDEX, OP_LUMA, OP_RGB, OP_RGBA, OP_RUN,
};

#[test]
fn op_iter_solid_run() {
    let pixels = [200u8, 50, 25, 255].repeat(200);
    let bytes = encode_qoi(200, 1, 4, &pixels);
    let (hdr, ops) = iter_ops_strict(&bytes).unwrap();
    assert_eq!(hdr.width, 200);
    assert_eq!(hdr.height, 1);

    let mut total_run_pixels: u32 = 0;
    let mut starter_count = 0;
    let mut run_count = 0;
    let mut saw_max_run = false;
    let mut other_count = 0;
    for op in &ops {
        match *op {
            QoiOp::Rgb { r, g, b } => {
                starter_count += 1;
                assert_eq!((r, g, b), (200, 50, 25));
            }
            QoiOp::Rgba { r, g, b, a } => {
                starter_count += 1;
                assert_eq!((r, g, b, a), (200, 50, 25, 255));
            }
            QoiOp::Run { length } => {
                run_count += 1;
                assert!((1..=62).contains(&length), "run length out of range");
                if length == 62 {
                    saw_max_run = true;
                }
                total_run_pixels += length as u32;
            }
            _ => other_count += 1,
        }
    }

    assert_eq!(starter_count, 1);
    assert!(run_count >= 4, "got {run_count} RUNs, expected ≥4");
    assert_eq!(other_count, 0);
    assert_eq!(total_run_pixels, 199);
    assert!(saw_max_run, "expected at least one RUN of length 62");
}

#[test]
fn op_iter_yields_typed_variants() {
    let pixels: Vec<u8> = vec![1, 2, 3, 254, 1, 2, 3, 255];
    let bytes = encode_qoi(2, 1, 4, &pixels);
    let (_, ops) = iter_ops_strict(&bytes).unwrap();

    assert!(!ops.is_empty());

    let any_rgba = ops.iter().any(|op| matches!(op, QoiOp::Rgba { .. }));
    assert!(any_rgba, "expected at least one Rgba op, got {ops:?}");
}

#[test]
fn op_iter_diff_deltas_are_unbiased() {
    let pixels: Vec<u8> = vec![50, 100, 150, 255, 49, 101, 150, 255];
    let bytes = encode_qoi(2, 1, 4, &pixels);
    let (_, ops) = iter_ops_strict(&bytes).unwrap();

    let diffs: Vec<_> = ops
        .iter()
        .filter_map(|op| {
            if let QoiOp::Diff { dr, dg, db } = *op {
                Some((dr, dg, db))
            } else {
                None
            }
        })
        .collect();
    assert_eq!(diffs, vec![(-1, 1, 0)], "ops: {ops:?}");
}

#[test]
fn iter_ops_rejects_bad_magic() {
    let mut bytes = encode_qoi(2, 1, 4, &[1, 2, 3, 255, 4, 5, 6, 255]);
    bytes[0] = b'X';
    assert!(iter_ops(&bytes).is_err());
}

#[test]
fn iter_ops_rejects_bad_end_marker() {
    let mut bytes = encode_qoi(2, 1, 4, &[1, 2, 3, 255, 4, 5, 6, 255]);
    let last = bytes.len() - 1;
    bytes[last] = 2;
    assert!(iter_ops(&bytes).is_err());
}

#[test]
fn iter_ops_rejects_zero_dimension() {
    let mut bytes = Vec::new();
    bytes.extend_from_slice(b"qoif");
    bytes.extend_from_slice(&0u32.to_be_bytes());
    bytes.extend_from_slice(&1u32.to_be_bytes());
    bytes.push(4);
    bytes.push(0);
    bytes.extend_from_slice(END_MARKER);
    assert!(iter_ops(&bytes).is_err());
}

#[test]
fn truncated_rgb_yields_truncated_then_ends() {
    let mut bytes = Vec::new();
    bytes.extend_from_slice(b"qoif");
    bytes.extend_from_slice(&1u32.to_be_bytes());
    bytes.extend_from_slice(&1u32.to_be_bytes());
    bytes.push(4);
    bytes.push(0);
    bytes.push(OP_RGB);
    bytes.push(0x10);
    bytes.push(0x20);

    bytes.extend_from_slice(END_MARKER);

    let (_, mut it) = iter_ops(&bytes).unwrap();
    let first = it.next().unwrap();
    assert!(
        matches!(
            first,
            QoiOp::Truncated {
                tag: OP_RGB,
                missing_body_bytes: 1
            }
        ),
        "first op was {first:?}"
    );
    assert!(
        it.next().is_none(),
        "iterator should not yield after Truncated"
    );

    let strict = iter_ops_strict(&bytes);
    assert!(strict.is_err());
}

#[test]
fn iter_ops_reports_colorspace_one() {
    let pixels = vec![1, 2, 3, 255, 4, 5, 6, 255];
    let bytes = encode_qoi_full(2, 1, 4, /* colorspace */ 1, &pixels);
    let (hdr, _) = iter_ops(&bytes).unwrap();
    assert_eq!(hdr.colorspace, QoiColorspace::AllLinear);
}

#[test]
fn index_field_masks_to_six_bits() {
    let mut bytes = Vec::new();
    bytes.extend_from_slice(b"qoif");
    bytes.extend_from_slice(&1u32.to_be_bytes());
    bytes.extend_from_slice(&1u32.to_be_bytes());
    bytes.push(4);
    bytes.push(0);
    bytes.push(OP_INDEX | 0x2A);
    bytes.extend_from_slice(END_MARKER);
    let (_, mut it) = iter_ops(&bytes).unwrap();
    let op = it.next().unwrap();
    assert!(matches!(op, QoiOp::Index { index: 0x2A }));
}

#[test]
fn qoi_hash_matches_spec_examples() {
    assert_eq!(qoi_hash([0, 0, 0, 255]), 53);

    assert_eq!(qoi_hash([255, 255, 255, 255]), 38);
    assert_eq!(qoi_hash([0, 0, 0, 0]), 0);

    assert_eq!(qoi_hash([1, 2, 3, 4]), 14);

    for r in [0u8, 17, 200, 255] {
        for a in [0u8, 1, 128, 255] {
            assert!(qoi_hash([r, 99, 7, a]) < 64);
        }
    }
}

#[test]
fn qoi_hash_agrees_with_decoder_hash() {
    for &p in &[
        [0u8, 0, 0, 255],
        [255, 255, 255, 255],
        [0, 0, 0, 0],
        [1, 2, 3, 4],
        [200, 50, 25, 255],
        [13, 200, 7, 99],
    ] {
        assert_eq!(qoi_hash(p), decoder::hash(p), "pixel {p:?}");
    }
}

#[test]
fn op_tag_roundtrips_leading_byte() {
    let mut pixels = Vec::new();
    let mut x: u32 = 0x1234_5678;
    for i in 0..256u32 {
        x ^= x << 13;
        x ^= x >> 17;
        x ^= x << 5;
        let r = (i * 2) as u8;
        let g = (x & 0xFF) as u8;
        let b = (i * 3) as u8;
        let a = if i % 16 == 0 { (x >> 8) as u8 } else { 255 };
        pixels.extend_from_slice(&[r, g, b, a]);
    }
    let bytes = encode_qoi(16, 16, 4, &pixels);
    let chunks = &bytes[HEADER_SIZE..bytes.len() - END_MARKER.len()];
    let (_, mut it) = iter_ops(&bytes).unwrap();
    let mut pos = 0usize;
    let mut saw = (false, false, false, false, false, false);
    while let Some(op) = it.next() {
        assert!(!op.is_truncated(), "unexpected truncation: {op:?}");
        assert_eq!(op.tag(), chunks[pos], "op {op:?} at chunk byte {pos}");
        match op {
            QoiOp::Rgb { .. } => saw.0 = true,
            QoiOp::Rgba { .. } => saw.1 = true,
            QoiOp::Index { .. } => saw.2 = true,
            QoiOp::Diff { .. } => saw.3 = true,
            QoiOp::Luma { .. } => saw.4 = true,
            QoiOp::Run { .. } => saw.5 = true,
            QoiOp::Truncated { .. } => unreachable!(),
        }
        pos += op.encoded_len();
    }

    assert_eq!(pos, chunks.len());

    assert!(saw.2 || saw.3 || saw.4 || saw.5, "no 2-bit chunks seen");
    assert!(saw.0 || saw.1, "no 8-bit chunk seen");
}

#[test]
fn op_encoded_len_widths() {
    let cases = [
        (QoiOp::Index { index: 5 }, 1usize, 0usize),
        (
            QoiOp::Diff {
                dr: -1,
                dg: 0,
                db: 1,
            },
            1,
            0,
        ),
        (QoiOp::Run { length: 30 }, 1, 0),
        (
            QoiOp::Luma {
                dg: -3,
                dr_dg: 2,
                db_dg: -1,
            },
            2,
            1,
        ),
        (QoiOp::Rgb { r: 1, g: 2, b: 3 }, 4, 3),
        (
            QoiOp::Rgba {
                r: 1,
                g: 2,
                b: 3,
                a: 4,
            },
            5,
            4,
        ),
        (
            QoiOp::Truncated {
                tag: OP_RGB,
                missing_body_bytes: 1,
            },
            1,
            0,
        ),
    ];
    for (op, enc, body) in cases {
        assert_eq!(op.encoded_len(), enc, "encoded_len for {op:?}");
        assert_eq!(op.body_len(), body, "body_len for {op:?}");

        if !op.is_truncated() {
            assert_eq!(
                op.encoded_len(),
                1 + op.body_len(),
                "len identity for {op:?}"
            );
        }
    }
}

#[test]
fn op_tag_bit_packing_and_truncated_flag() {
    assert_eq!(QoiOp::Index { index: 0x2A }.tag(), OP_INDEX | 0x2A);

    assert_eq!(
        QoiOp::Diff {
            dr: -2,
            dg: 1,
            db: 0
        }
        .tag(),
        OP_DIFF | 0b00_11_10
    );

    assert_eq!(
        QoiOp::Luma {
            dg: -32,
            dr_dg: 0,
            db_dg: 0
        }
        .tag(),
        OP_LUMA
    );

    assert_eq!(
        QoiOp::Luma {
            dg: 31,
            dr_dg: 0,
            db_dg: 0
        }
        .tag(),
        OP_LUMA | 0x3F
    );

    assert_eq!(QoiOp::Run { length: 62 }.tag(), OP_RUN | 61);
    assert_eq!(QoiOp::Run { length: 1 }.tag(), OP_RUN);

    assert!(QoiOp::Truncated {
        tag: OP_LUMA,
        missing_body_bytes: 1
    }
    .is_truncated());
    assert!(!QoiOp::Run { length: 1 }.is_truncated());
    assert!(!QoiOp::Rgb { r: 0, g: 0, b: 0 }.is_truncated());
}

#[test]
fn op_tag_is_total_over_extreme_fields() {
    assert_eq!(QoiOp::Run { length: 0 }.tag(), OP_RUN | 0x3F);

    let _ = QoiOp::Run { length: u8::MAX }.tag();

    for dr in [i8::MIN, -1, 0, 1, i8::MAX] {
        for dg in [i8::MIN, i8::MAX] {
            for db in [i8::MIN, i8::MAX] {
                let t = QoiOp::Diff { dr, dg, db }.tag();
                assert_eq!(t & 0xC0, OP_DIFF, "Diff tag prefix");
            }
        }
    }

    for dg in [i8::MIN, -1, 0, 1, i8::MAX] {
        let t = QoiOp::Luma {
            dg,
            dr_dg: i8::MAX,
            db_dg: i8::MIN,
        }
        .tag();
        assert_eq!(t & 0xC0, OP_LUMA, "Luma tag prefix");
    }

    assert_eq!(QoiOp::Index { index: 0xFF }.tag(), OP_INDEX | 0x3F);
}
