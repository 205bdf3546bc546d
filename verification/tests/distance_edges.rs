use ncdprime::compressors::Compressor;
use ncdprime::distance::{ncd, Distance};
use ncdprime::matrix::ncd_matrix;
use ncdprime::{NcdError, NcdOptions};

/// A toy codec whose "compressed length" is just the input length, so an
/// empty buffer compresses to nothing.
struct LengthCompressor;

impl Compressor for LengthCompressor {
    fn id(&self) -> &'static str {
        "len"
    }

    fn compressed_len(&self, input: &[u8]) -> Result<usize, NcdError> {
        Ok(input.len())
    }
}

/// A toy codec whose lengths grow quadratically, pushing the raw distance
/// ratio above 1 for any pair.
struct QuadraticCompressor;

impl Compressor for QuadraticCompressor {
    fn id(&self) -> &'static str {
        "quad"
    }

    fn compressed_len(&self, input: &[u8]) -> Result<usize, NcdError> {
        Ok(input.len() * input.len())
    }
}

/// A toy codec whose lengths shrink with input size, pushing the raw
/// distance ratio below 0 for any pair.
struct ShrinkingCompressor;

impl Compressor for ShrinkingCompressor {
    fn id(&self) -> &'static str {
        "shrink"
    }

    fn compressed_len(&self, input: &[u8]) -> Result<usize, NcdError> {
        Ok(1000usize.saturating_sub(input.len()))
    }
}

/// A codec that always fails, as a backend with a broken parameter would.
struct FailingCompressor;

impl Compressor for FailingCompressor {
    fn id(&self) -> &'static str {
        "fail"
    }

    fn compressed_len(&self, _input: &[u8]) -> Result<usize, NcdError> {
        Err(NcdError::Codec { message: "backend failure".to_string() })
    }
}

fn as_f64(d: &Distance) -> f64 {
    d.num as f64 / d.den as f64
}

#[test]
fn two_empty_inputs_are_at_distance_zero() {
    let c = LengthCompressor;
    let d = ncd(&c, b"", b"", NcdOptions::default()).unwrap();
    assert_eq!(d, Distance { num: 0, den: 1 });
    assert_eq!(as_f64(&d), 0.0);
}

#[test]
fn clamping_caps_adversarial_ratios_at_one() {
    let c = QuadraticCompressor;
    let a = vec![b"aaa".to_vec(), b"bb".to_vec()];
    let b = vec![b"cccc".to_vec()];

    let mut raw_opts = NcdOptions::default();
    raw_opts.clamp_0_1 = false;
    let raw = ncd_matrix(&c, &a, &b, raw_opts).unwrap();
    assert!(raw.iter().flatten().any(|d| as_f64(d) > 1.0));

    let mut opts = NcdOptions::default();
    opts.clamp_0_1 = true;
    let m = ncd_matrix(&c, &a, &b, opts).unwrap();
    for d in m.iter().flatten() {
        let v = as_f64(d);
        assert!((0.0..=1.0).contains(&v));
    }
}

#[test]
fn clamping_floors_adversarial_ratios_at_zero() {
    let c = ShrinkingCompressor;
    let a = vec![b"aaaaaaaaaa".to_vec()];
    let b = vec![b"bbbbbbbb".to_vec()];

    let mut raw_opts = NcdOptions::default();
    raw_opts.clamp_0_1 = false;
    let raw = ncd_matrix(&c, &a, &b, raw_opts).unwrap();
    assert!(as_f64(&raw[0][0]) < 0.0);

    let mut opts = NcdOptions::default();
    opts.clamp_0_1 = true;
    let m = ncd_matrix(&c, &a, &b, opts).unwrap();
    let v = as_f64(&m[0][0]);
    assert!((0.0..=1.0).contains(&v));
}

#[test]
fn codec_failure_aborts_the_whole_run() {
    let c = FailingCompressor;
    let a = vec![b"aaa".to_vec()];
    let b = vec![b"bbb".to_vec()];
    let e = ncd_matrix(&c, &a, &b, NcdOptions::default()).unwrap_err();
    match e {
        NcdError::Codec { message } => assert_eq!(message, "backend failure"),
        NcdError::InvalidSelection { .. } => panic!("wrong error variant"),
    }
    let e2 = ncd(&c, b"x", b"y", NcdOptions::default()).unwrap_err();
    assert!(matches!(e2, NcdError::Codec { .. }));
}
