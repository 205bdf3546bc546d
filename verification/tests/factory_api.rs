use ncdprime::compressors::Compressor;
use ncdprime::factory::{parse_compressor, AnyCompressor, CompressorSpec};
use ncdprime::NcdError;

fn parse(id: &str) -> Result<CompressorSpec, NcdError> {
    parse_compressor(id, 9, 3, 11, 22, 1, 6)
}

#[test]
fn parses_each_known_identifier() {
    assert_eq!(parse("gzip").unwrap(), CompressorSpec::Gzip { level: 9 });
    assert_eq!(parse("zstd").unwrap(), CompressorSpec::Zstd { level: 3 });
    assert_eq!(
        parse("brotli").unwrap(),
        CompressorSpec::Brotli { quality: 11, lgwin: 22 }
    );
    assert_eq!(parse("lz4").unwrap(), CompressorSpec::Lz4 { accel: 1 });
    assert_eq!(parse("xz").unwrap(), CompressorSpec::Xz { level: 6 });
}

#[test]
fn unknown_identifier_is_rejected_before_any_work() {
    let e = parse("paq9000").unwrap_err();
    match e {
        NcdError::InvalidSelection { requested } => assert_eq!(requested, "paq9000"),
        NcdError::Codec { .. } => panic!("wrong error variant"),
    }
}

#[test]
fn spec_identifiers_round_trip() {
    for id in ["gzip", "zstd", "brotli", "lz4", "xz"] {
        let spec = parse(id).unwrap();
        assert_eq!(spec.id(), id);
        let built = spec.build();
        assert_eq!(built.id(), id);
    }
}

#[test]
fn default_spec_is_gzip_at_level_9() {
    assert_eq!(CompressorSpec::default(), CompressorSpec::Gzip { level: 9 });
}

#[test]
fn built_compressor_compresses() {
    let built: AnyCompressor = parse("zstd").unwrap().build();
    let input = b"zzzzzzzzzzzzzzzzzzzzzzzzzzzzzzzz".repeat(32);
    let n = built.compressed_len(&input).unwrap();
    assert!(0 < n && n < input.len());
}
