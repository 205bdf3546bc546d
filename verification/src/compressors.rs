//! The pluggable compressor abstraction and its five concrete backends.
//!
//! A compressor turns a byte buffer into a compressed length that is a pure
//! function of the buffer and the compressor's fixed parameters: same bytes
//! in, same size out, on every call and in every process, so distance
//! experiments are reproducible.  Each backend's length function is given a
//! name (`gzip_len_of`, ...) that the trusted wrappers tie to the outside
//! codec; all reasoning above them is in terms of those names.

use vstd::prelude::*;

use crate::NcdError;

verus! {

/// The compressed length that the gzip backend produces for `data`,
/// at a given compression level and header mtime.
pub uninterp spec fn gzip_len_of(level: u32, mtime: u32, data: Seq<u8>) -> nat;

/// The compressed length that the zstd backend produces for `data` at a level.
pub uninterp spec fn zstd_len_of(level: i32, data: Seq<u8>) -> nat;

/// The compressed length that the brotli backend produces for `data`,
/// at a given quality and log2 window size.
pub uninterp spec fn brotli_len_of(quality: u32, lgwin: u32, data: Seq<u8>) -> nat;

/// The compressed length that the LZ4 block backend produces for `data`.
pub uninterp spec fn lz4_len_of(data: Seq<u8>) -> nat;

/// The compressed length that the xz (LZMA2) backend produces for `data` at a level.
pub uninterp spec fn xz_len_of(level: u32, data: Seq<u8>) -> nat;

/// A deterministic compressor: a stable identifier plus a compressed-length
/// oracle.  `len_spec` is the mathematical length function the implementation
/// realizes; `compressed_len` must return it whenever it succeeds.  Outside
/// callers may implement this trait to plug in their own codecs.
pub trait Compressor {
    /// The compressed length of `input` as a function of the input alone
    /// (and the implementor's fixed parameters).  An implementor that does
    /// not name its length function keeps the default, an unspecified one:
    /// `compressed_len` then promises nothing usable about its result.
    open spec fn len_spec(&self, input: Seq<u8>) -> nat {
        arbitrary()
    }

    /// A stable identifier, used for routing and selection by callers.
    fn id(&self) -> (r: &'static str);

    /// The compressed length of `input`; fails only on a codec-internal error.
    fn compressed_len(&self, input: &[u8]) -> (r: Result<usize, NcdError>)
        ensures
            r matches Ok(n) ==> n == self.len_spec(input@),
    ;
}

/// A deterministic gzip compressor.
///
/// The gzip header carries a modification time; it is pinned (default zero)
/// so that output is bit-for-bit reproducible.  Valid levels are 0 through 9;
/// a level beyond that range is reported as a codec error, never a crash.
#[derive(Clone, Copy, Debug)]
pub struct Gzip {
    pub level: u32,
    pub mtime: u32,
}

impl Gzip {
    /// A gzip compressor at `level` with the header mtime pinned to zero.
    pub fn new(level: u32) -> (r: Self)
        ensures
            r == (Gzip { level, mtime: 0 }),
    {
        Gzip { level, mtime: 0 }
    }

    /// A gzip compressor with an explicit header mtime.
    pub fn with_mtime(level: u32, mtime: u32) -> (r: Self)
        ensures
            r == (Gzip { level, mtime }),
    {
        Gzip { level, mtime }
    }
}

/// Relies on flate2's `GzBuilder`/`GzEncoder` (`write_all` + `finish`): for a
/// fixed level in the codec's 0..=9 range and a fixed header mtime, the gzip
/// output is a deterministic function of the input bytes, and compressing
/// in-memory bytes into a `Vec` succeeds.  Levels above 9 are excluded: the
/// backend asserts on them in debug builds rather than returning an error.
#[verifier::external_body]
fn gzip_compressed_len(level: u32, mtime: u32, input: &[u8]) -> (r: Result<usize, NcdError>)
    requires
        level <= 9,
    ensures
        r is Ok,
        r matches Ok(n) ==> n == gzip_len_of(level, mtime, input@),
{
    let mut enc = flate2::GzBuilder::new()
        .mtime(mtime)
        .write(Vec::new(), flate2::Compression::new(level));
    match std::io::Write::write_all(&mut enc, input).and_then(|_| enc.finish()) {
        Ok(out) => Ok(out.len()),
        Err(e) => Err(NcdError::Codec { message: e.to_string() }),
    }
}

impl Compressor for Gzip {
    open spec fn len_spec(&self, input: Seq<u8>) -> nat {
        gzip_len_of(self.level, self.mtime, input)
    }

    fn id(&self) -> (r: &'static str)
        ensures
            r@ == "gzip"@,
    {
        "gzip"
    }

    fn compressed_len(&self, input: &[u8]) -> (r: Result<usize, NcdError>)
        ensures
            r matches Ok(n) ==> n == self.len_spec(input@),
            self.level <= 9 ==> r is Ok,
    {
        if self.level > 9 {
            return Err(NcdError::Codec { message: "gzip: level out of range (0-9)".to_owned() });
        }
        gzip_compressed_len(self.level, self.mtime, input)
    }
}

/// Zstandard compressor.
#[derive(Clone, Copy, Debug)]
pub struct Zstd {
    pub level: i32,
}

impl Zstd {
    pub fn new(level: i32) -> (r: Self)
        ensures
            r == (Zstd { level }),
    {
        Zstd { level }
    }
}

/// Relies on zstd's `stream::encode_all`: single-threaded zstd output for a
/// fixed level is a deterministic function of the input bytes, and the call
/// succeeds — the codec clamps out-of-range levels into its supported range,
/// and reading from an in-memory slice into a `Vec` cannot fail.
#[verifier::external_body]
fn zstd_compressed_len(level: i32, input: &[u8]) -> (r: Result<usize, NcdError>)
    ensures
        r is Ok,
        r matches Ok(n) ==> n == zstd_len_of(level, input@),
{
    match zstd::stream::encode_all(input, level) {
        Ok(out) => Ok(out.len()),
        Err(e) => Err(NcdError::Codec { message: e.to_string() }),
    }
}

impl Compressor for Zstd {
    open spec fn len_spec(&self, input: Seq<u8>) -> nat {
        zstd_len_of(self.level, input)
    }

    fn id(&self) -> (r: &'static str)
        ensures
            r@ == "zstd"@,
    {
        "zstd"
    }

    fn compressed_len(&self, input: &[u8]) -> (r: Result<usize, NcdError>)
        ensures
            r matches Ok(n) ==> n == self.len_spec(input@),
            r is Ok,
    {
        zstd_compressed_len(self.level, input)
    }
}

/// Brotli compressor.
#[derive(Clone, Copy, Debug)]
pub struct Brotli {
    pub quality: u32,
    /// Window size as a power of two (10..=24).
    pub lgwin: u32,
}

impl Brotli {
    pub fn new(quality: u32, lgwin: u32) -> (r: Self)
        ensures
            r == (Brotli { quality, lgwin }),
    {
        Brotli { quality, lgwin }
    }
}

/// Relies on brotli's `BrotliCompress`: output for fixed quality and window
/// parameters is a deterministic function of the input bytes, and the call
/// succeeds — the encoder sanitizes quality and window into their supported
/// ranges, and reading from an in-memory slice into a `Vec` cannot fail.
#[verifier::external_body]
fn brotli_compressed_len(quality: u32, lgwin: u32, input: &[u8]) -> (r: Result<usize, NcdError>)
    ensures
        r is Ok,
        r matches Ok(n) ==> n == brotli_len_of(quality, lgwin, input@),
{
    let mut out = Vec::new();
    let params = brotli::enc::BrotliEncoderParams {
        quality: quality as i32,
        lgwin: lgwin as i32,
        ..Default::default()
    };
    match brotli::BrotliCompress(&mut &input[..], &mut out, &params) {
        Ok(_) => Ok(out.len()),
        Err(e) => Err(NcdError::Codec { message: e.to_string() }),
    }
}

impl Compressor for Brotli {
    open spec fn len_spec(&self, input: Seq<u8>) -> nat {
        brotli_len_of(self.quality, self.lgwin, input)
    }

    fn id(&self) -> (r: &'static str)
        ensures
            r@ == "brotli"@,
    {
        "brotli"
    }

    fn compressed_len(&self, input: &[u8]) -> (r: Result<usize, NcdError>)
        ensures
            r matches Ok(n) ==> n == self.len_spec(input@),
            r is Ok,
    {
        brotli_compressed_len(self.quality, self.lgwin, input)
    }
}

/// LZ4 (block) compressor.
#[derive(Clone, Copy, Debug)]
pub struct Lz4 {
    /// Acceleration factor: 1 = best compression, higher = faster.  The
    /// backing block codec does not expose acceleration, so the knob is
    /// accepted but currently inert: it does not affect the output length.
    pub accel: i32,
}

impl Lz4 {
    pub fn new(accel: i32) -> (r: Self)
        ensures
            r == (Lz4 { accel }),
    {
        Lz4 { accel }
    }
}

/// Relies on lz4_flex's `compress_prepend_size`: a pure function of the input
/// bytes that never fails.
#[verifier::external_body]
fn lz4_compressed_len(input: &[u8]) -> (r: usize)
    ensures
        r == lz4_len_of(input@),
{
    lz4_flex::compress_prepend_size(input).len()
}

impl Compressor for Lz4 {
    open spec fn len_spec(&self, input: Seq<u8>) -> nat {
        lz4_len_of(input)
    }

    fn id(&self) -> (r: &'static str)
        ensures
            r@ == "lz4"@,
    {
        "lz4"
    }

    fn compressed_len(&self, input: &[u8]) -> (r: Result<usize, NcdError>)
        ensures
            r matches Ok(n) ==> n == lz4_len_of(input@),
            r is Ok,
    {
        Ok(lz4_compressed_len(input))
    }
}

/// XZ (LZMA2) compressor.
///
/// Valid preset levels are 0 through 9; a level beyond that range is
/// reported as a codec error, never a crash.
#[derive(Clone, Copy, Debug)]
pub struct Xz {
    pub level: u32,
}

impl Xz {
    pub fn new(level: u32) -> (r: Self)
        ensures
            r == (Xz { level }),
    {
        Xz { level }
    }
}

/// Relies on xz2's `write::XzEncoder` (`write_all` + `finish`): LZMA2 output
/// for a fixed preset level in the codec's 0..=9 range is a deterministic
/// function of the input bytes, and compressing in-memory bytes into a `Vec`
/// succeeds.  Presets above 9 are excluded: the codec's preset table refuses
/// them, and the binding unwraps that refusal into a panic.
#[verifier::external_body]
fn xz_compressed_len(level: u32, input: &[u8]) -> (r: Result<usize, NcdError>)
    requires
        level <= 9,
    ensures
        r is Ok,
        r matches Ok(n) ==> n == xz_len_of(level, input@),
{
    let mut enc = xz2::write::XzEncoder::new(Vec::new(), level);
    match std::io::Write::write_all(&mut enc, input).and_then(|_| enc.finish()) {
        Ok(out) => Ok(out.len()),
        Err(e) => Err(NcdError::Codec { message: e.to_string() }),
    }
}

impl Compressor for Xz {
    open spec fn len_spec(&self, input: Seq<u8>) -> nat {
        xz_len_of(self.level, input)
    }

    fn id(&self) -> (r: &'static str)
        ensures
            r@ == "xz"@,
    {
        "xz"
    }

    fn compressed_len(&self, input: &[u8]) -> (r: Result<usize, NcdError>)
        ensures
            r matches Ok(n) ==> n == self.len_spec(input@),
            self.level <= 9 ==> r is Ok,
    {
        if self.level > 9 {
            return Err(NcdError::Codec { message: "xz: preset level out of range (0-9)".to_owned() });
        }
        xz_compressed_len(self.level, input)
    }
}

/// The ordered list of known compressor identifiers.
pub fn compressor_ids() -> (r: &'static [&'static str])
    ensures
        r@.len() == 5,
        r@[0]@ == "gzip"@,
        r@[1]@ == "zstd"@,
        r@[2]@ == "brotli"@,
        r@[3]@ == "lz4"@,
        r@[4]@ == "xz"@,
{
    &["gzip", "zstd", "brotli", "lz4", "xz"]
}

} // verus!
