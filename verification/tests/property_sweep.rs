//! Round trips, sizes and framing over pseudo-random images.

use oxideav_qoi::{
    encode_qoi_full, parse_qoi, QoiChannels, QoiColorspace, END_MARKER, HEADER_SIZE, MAGIC,
};

struct XorShift32 {
    state: u32,
}

impl XorShift32 {
    fn new(seed: u32) -> Self {
        Self {
            state: if seed == 0 { 0x1234_5678 } else { seed },
        }
    }

    fn next_u32(&mut self) -> u32 {
        self.state ^= self.state << 13;
        self.state ^= self.state >> 17;
        self.state ^= self.state << 5;
        self.state
    }

    fn next_byte(&mut self) -> u8 {
        (self.next_u32() & 0xff) as u8
    }

    fn range_u32(&mut self, lo: u32, hi: u32) -> u32 {
        let span = hi - lo + 1;
        lo + self.next_u32() % span
    }
}

fn pixels_random(rng: &mut XorShift32, n: usize, channels: u8) -> Vec<u8> {
    let bpp = channels as usize;
    let mut data = vec![0u8; n * bpp];
    for b in data.iter_mut() {
        *b = rng.next_byte();
    }
    data
}

fn pixels_smooth(rng: &mut XorShift32, n: usize, channels: u8) -> Vec<u8> {
    let bpp = channels as usize;
    let mut data = vec![0u8; n * bpp];
    let mut cur = [0u8; 4];
    cur[3] = 0xff;
    for i in 0..n {
        for (c, slot) in cur.iter_mut().enumerate().take(bpp) {
            let delta = (rng.next_byte() & 0x07) as i32 - 3;
            *slot = (*slot as i32 + delta).clamp(0, 255) as u8;
            data[i * bpp + c] = *slot;
        }
    }
    data
}

fn pixels_run_heavy(rng: &mut XorShift32, n: usize, channels: u8) -> Vec<u8> {
    let bpp = channels as usize;
    let mut data = vec![0u8; n * bpp];
    let mut cur = [0u8; 4];
    cur[3] = 0xff;

    for slot in cur.iter_mut().take(bpp) {
        *slot = rng.next_byte();
    }
    let mut i = 0;
    while i < n {
        let run = rng.range_u32(1, 200).min((n - i) as u32) as usize;
        for k in 0..run {
            let off = (i + k) * bpp;
            data[off..off + bpp].copy_from_slice(&cur[..bpp]);
        }
        i += run;

        for slot in cur.iter_mut().take(bpp) {
            *slot = rng.next_byte();
        }
    }
    data
}

fn pixels_palette(rng: &mut XorShift32, n: usize, channels: u8) -> Vec<u8> {
    let bpp = channels as usize;
    let palette_len = 8;
    let mut palette = vec![0u8; palette_len * bpp];
    for b in palette.iter_mut() {
        *b = rng.next_byte();
    }
    let mut data = vec![0u8; n * bpp];
    for i in 0..n {
        let p = (i + rng.next_u32() as usize % 3) % palette_len;
        let dst = i * bpp;
        let src = p * bpp;
        data[dst..dst + bpp].copy_from_slice(&palette[src..src + bpp]);
    }
    data
}

fn pixels_alpha_churn(rng: &mut XorShift32, n: usize, channels: u8) -> Vec<u8> {
    if channels == 3 {
        return pixels_random(rng, n, channels);
    }
    let mut data = vec![0u8; n * 4];
    for i in 0..n {
        let off = i * 4;
        data[off] = rng.next_byte();
        data[off + 1] = rng.next_byte();
        data[off + 2] = rng.next_byte();

        data[off + 3] = rng.next_byte();
    }
    data
}

fn assert_invariants(
    seed: u32,
    label: &str,
    width: u32,
    height: u32,
    channels: u8,
    colorspace: u8,
    pixels: &[u8],
) {
    let n = (width as usize) * (height as usize);
    assert_eq!(pixels.len(), n * channels as usize);

    let bytes = encode_qoi_full(width, height, channels, colorspace, pixels);
    let bytes2 = encode_qoi_full(width, height, channels, colorspace, pixels);
    assert_eq!(
        bytes, bytes2,
        "[{label}] seed={seed} w={width} h={height} ch={channels} cs={colorspace}: \
         encoder is non-deterministic"
    );

    let worst = HEADER_SIZE + n * 5 + END_MARKER.len();
    assert!(
        bytes.len() <= worst,
        "[{label}] seed={seed} w={width} h={height} ch={channels} cs={colorspace}: \
         encoded {} bytes > worst-case bound {worst}",
        bytes.len()
    );

    assert!(
        bytes.len() >= HEADER_SIZE + END_MARKER.len(),
        "[{label}] seed={seed}: encoded shorter than header + end marker"
    );
    assert_eq!(
        &bytes[0..4],
        MAGIC,
        "[{label}] seed={seed}: bad magic prefix"
    );
    assert_eq!(
        u32::from_be_bytes([bytes[4], bytes[5], bytes[6], bytes[7]]),
        width,
        "[{label}] seed={seed}: width in header doesn't match"
    );
    assert_eq!(
        u32::from_be_bytes([bytes[8], bytes[9], bytes[10], bytes[11]]),
        height,
        "[{label}] seed={seed}: height in header doesn't match"
    );
    assert_eq!(
        bytes[12], channels,
        "[{label}] seed={seed}: channels in header doesn't match"
    );
    assert_eq!(
        bytes[13], colorspace,
        "[{label}] seed={seed}: colorspace in header doesn't match"
    );
    assert_eq!(
        &bytes[bytes.len() - 8..],
        END_MARKER,
        "[{label}] seed={seed}: end marker missing/wrong"
    );

    let back = parse_qoi(&bytes).unwrap_or_else(|e| {
        panic!(
            "[{label}] seed={seed} w={width} h={height} ch={channels} cs={colorspace}: \
             parse_qoi rejected encoder output: {e:?}"
        )
    });
    assert_eq!(back.width, width, "[{label}] seed={seed}: width drift");
    assert_eq!(back.height, height, "[{label}] seed={seed}: height drift");
    let want_channels = if channels == 4 {
        QoiChannels::Rgba
    } else {
        QoiChannels::Rgb
    };
    assert_eq!(
        back.channels, want_channels,
        "[{label}] seed={seed}: channels enum drift"
    );
    let want_cs = if colorspace == 1 {
        QoiColorspace::AllLinear
    } else {
        QoiColorspace::SrgbWithLinearAlpha
    };
    assert_eq!(
        back.colorspace, want_cs,
        "[{label}] seed={seed}: colorspace enum drift"
    );
    assert_eq!(
        back.pixels, pixels,
        "[{label}] seed={seed} w={width} h={height} ch={channels} cs={colorspace}: \
         pixel round-trip mismatch"
    );

    let bytes3 = encode_qoi_full(back.width, back.height, channels, colorspace, &back.pixels);
    assert_eq!(
        bytes, bytes3,
        "[{label}] seed={seed} w={width} h={height} ch={channels} cs={colorspace}: \
         re-encode of decoded pixels differs from original encode \
         (chunk-selection chain is order-dependent on input shape?)"
    );
}

const SWEEP_ITERATIONS: u32 = 200;

const MAX_DIM: u32 = 64;

fn sweep<F>(label: &str, seed_base: u32, gen_pixels: F)
where
    F: Fn(&mut XorShift32, usize, u8) -> Vec<u8>,
{
    for iter in 0..SWEEP_ITERATIONS {
        let seed = seed_base.wrapping_add(iter);
        let mut rng = XorShift32::new(seed);

        let width = rng.range_u32(1, MAX_DIM);
        let height = rng.range_u32(1, MAX_DIM);
        let channels = if rng.next_byte() & 1 == 1 { 4 } else { 3 };
        let colorspace = if rng.next_byte() & 1 == 1 { 1 } else { 0 };

        let n = (width as usize) * (height as usize);
        let pixels = gen_pixels(&mut rng, n, channels);

        assert_invariants(seed, label, width, height, channels, colorspace, &pixels);
    }
}

#[test]
fn property_sweep_random_pixels() {
    sweep("random", 0x0a00_0001, pixels_random);
}

#[test]
fn property_sweep_smooth_deltas() {
    sweep("smooth", 0x0a00_0002, pixels_smooth);
}

#[test]
fn property_sweep_run_heavy() {
    sweep("run_heavy", 0x0a00_0003, pixels_run_heavy);
}

#[test]
fn property_sweep_palette() {
    sweep("palette", 0x0a00_0004, pixels_palette);
}

#[test]
fn property_sweep_alpha_churn() {
    sweep("alpha_churn", 0x0a00_0005, pixels_alpha_churn);
}

#[test]
fn property_sweep_solid_fill_compact_bound() {
    let mut rng = XorShift32::new(0x0a00_0006);

    for iter in 0..200 {
        let r = rng.next_byte();
        let g = rng.next_byte();
        let b = rng.next_byte();
        let a = rng.next_byte();
        let channels: u8 = if iter & 1 == 0 { 4 } else { 3 };
        let colorspace: u8 = if iter & 2 == 0 { 0 } else { 1 };

        let widths = [1u32, 30, 61, 62, 63, 124, 125, 187, 200, 512, 1024];
        for &w in &widths {
            let n = w as usize;
            let mut pixels = Vec::with_capacity(n * channels as usize);
            for _ in 0..n {
                pixels.push(r);
                pixels.push(g);
                pixels.push(b);
                if channels == 4 {
                    pixels.push(a);
                }
            }
            let bytes = encode_qoi_full(w, 1, channels, colorspace, &pixels);

            let max_runs = n.div_ceil(62);
            let bound = HEADER_SIZE + 5 + max_runs + END_MARKER.len();
            assert!(
                bytes.len() <= bound,
                "iter={iter} w={w} ch={channels} cs={colorspace}: \
                 encoded {} > compact-fill bound {bound}",
                bytes.len(),
            );

            let back = parse_qoi(&bytes).expect("decode of solid fill");
            assert_eq!(
                back.pixels, pixels,
                "iter={iter} w={w} ch={channels}: solid-fill round-trip drift"
            );
        }
    }
}

#[test]
fn property_sweep_tall_and_wide_shapes() {
    let mut rng = XorShift32::new(0x0a00_0007);

    let shapes: &[(u32, u32)] = &[
        (1, 1),
        (1, 64),
        (64, 1),
        (3, 5),
        (5, 3),
        (7, 11),
        (11, 7),
        (32, 1),
        (1, 32),
        (16, 16),
        (64, 64),
    ];
    for &(w, h) in shapes {
        for ch in [3u8, 4u8] {
            for cs in [0u8, 1u8] {
                let n = (w as usize) * (h as usize);
                let pixels = pixels_smooth(&mut rng, n, ch);
                assert_invariants(0x0a00_0007, "tall_wide", w, h, ch, cs, &pixels);
            }
        }
    }
}

#[test]
fn generators_produce_well_sized_buffers() {
    let mut rng = XorShift32::new(0xdead_beef);
    for ch in [3u8, 4u8] {
        for n in [1usize, 7, 64, 4096] {
            assert_eq!(pixels_random(&mut rng, n, ch).len(), n * ch as usize);
            assert_eq!(pixels_smooth(&mut rng, n, ch).len(), n * ch as usize);
            assert_eq!(pixels_run_heavy(&mut rng, n, ch).len(), n * ch as usize);
            assert_eq!(pixels_palette(&mut rng, n, ch).len(), n * ch as usize);
            assert_eq!(pixels_alpha_churn(&mut rng, n, ch).len(), n * ch as usize);
        }
    }
}
