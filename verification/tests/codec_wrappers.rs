use ncdprime::compressors::{compressor_ids, Brotli, Compressor, Gzip, Lz4, Xz, Zstd};
use ncdprime::frames::{frame64_bytes, join_bytes};
use ncdprime::Join;

#[test]
fn listed_compressor_identifiers() {
    let ids = compressor_ids();
    assert_eq!(ids, vec!["gzip", "zstd", "brotli", "lz4", "xz"]);
    assert_eq!(Gzip::new(6).id(), "gzip");
    assert_eq!(Zstd::new(3).id(), "zstd");
    assert_eq!(Brotli::new(11, 22).id(), "brotli");
    assert_eq!(Lz4::new(1).id(), "lz4");
    assert_eq!(Xz::new(6).id(), "xz");
}

#[test]
fn each_codec_compresses_redundant_input() {
    let input = b"all work and no play makes jack a dull boy\n".repeat(64);
    let gz = Gzip::new(6).compressed_len(&input).unwrap();
    let zs = Zstd::new(3).compressed_len(&input).unwrap();
    let br = Brotli::new(11, 22).compressed_len(&input).unwrap();
    let lz = Lz4::new(1).compressed_len(&input).unwrap();
    let xz = Xz::new(6).compressed_len(&input).unwrap();
    for n in [gz, zs, br, lz, xz] {
        assert!(n > 0);
        assert!(n < input.len());
    }
}

#[test]
fn each_codec_is_deterministic() {
    let input = b"0123456789 abcdefghij 0123456789".repeat(16);
    assert_eq!(
        Gzip::new(6).compressed_len(&input).unwrap(),
        Gzip::new(6).compressed_len(&input).unwrap()
    );
    assert_eq!(
        Zstd::new(3).compressed_len(&input).unwrap(),
        Zstd::new(3).compressed_len(&input).unwrap()
    );
    assert_eq!(
        Brotli::new(11, 22).compressed_len(&input).unwrap(),
        Brotli::new(11, 22).compressed_len(&input).unwrap()
    );
    assert_eq!(
        Lz4::new(1).compressed_len(&input).unwrap(),
        Lz4::new(1).compressed_len(&input).unwrap()
    );
    assert_eq!(
        Xz::new(6).compressed_len(&input).unwrap(),
        Xz::new(6).compressed_len(&input).unwrap()
    );
}

#[test]
fn gzip_level_changes_the_length() {
    // The level parameter must reach the codec: level 0 stores, level 9 packs.
    let input = b"yada yada yada yada yada yada yada yada".repeat(64);
    let stored = Gzip::new(0).compressed_len(&input).unwrap();
    let packed = Gzip::new(9).compressed_len(&input).unwrap();
    assert!(packed < stored);
}

#[test]
fn out_of_range_levels_are_errors_not_crashes() {
    let input = b"some bytes".to_vec();
    let gz = Gzip::new(10).compressed_len(&input);
    assert!(matches!(gz, Err(ncdprime::NcdError::Codec { .. })));
    let xz = Xz::new(10).compressed_len(&input);
    assert!(matches!(xz, Err(ncdprime::NcdError::Codec { .. })));
}

#[test]
fn clamping_codecs_accept_any_level() {
    // Zstandard clamps its level and brotli sanitizes its parameters, so
    // extreme knobs still compress.
    let input = b"wheels within wheels within wheels".repeat(16);
    assert!(Zstd::new(1000).compressed_len(&input).is_ok());
    assert!(Zstd::new(-1000).compressed_len(&input).is_ok());
    assert!(Brotli::new(99, 99).compressed_len(&input).is_ok());
}

#[test]
fn frame64_is_bit_exact() {
    assert_eq!(
        frame64_bytes(b"ab"),
        vec![2u8, 0, 0, 0, 0, 0, 0, 0, b'a', b'b']
    );
    assert_eq!(frame64_bytes(b""), vec![0u8; 8]);
}

#[test]
fn join_frames_both_buffers() {
    let joined = join_bytes(b"ab", b"c", Join::Frame64);
    let expected = vec![
        2u8, 0, 0, 0, 0, 0, 0, 0, b'a', b'b', 1, 0, 0, 0, 0, 0, 0, 0, b'c',
    ];
    assert_eq!(joined, expected);
}
