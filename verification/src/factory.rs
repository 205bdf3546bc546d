//! The registry that maps a string identifier plus tuning parameters to a
//! constructed compressor.  The set of supported codecs is closed and known at
//! build time, so the built compressor is a tagged variant, not dynamic
//! dispatch.

use vstd::prelude::*;

use crate::compressors::{Brotli, Compressor, Gzip, Lz4, Xz, Zstd};
use crate::NcdError;

verus! {

/// A selected compressor together with its tuning knobs, before construction.
#[derive(Clone, Copy, Debug, PartialEq, Eq, Structural)]
pub enum CompressorSpec {
    Gzip { level: u32 },
    Zstd { level: i32 },
    Brotli { quality: u32, lgwin: u32 },
    Lz4 { accel: i32 },
    Xz { level: u32 },
}

/// One of the five concrete compressors, dispatching by tag.
#[derive(Clone, Copy, Debug)]
pub enum AnyCompressor {
    Gzip(Gzip),
    Zstd(Zstd),
    Brotli(Brotli),
    Lz4(Lz4),
    Xz(Xz),
}

impl Default for CompressorSpec {
    /// Gzip at its highest standard level.
    fn default() -> (r: Self)
        ensures
            r == (CompressorSpec::Gzip { level: 9 }),
    {
        CompressorSpec::Gzip { level: 9 }
    }
}

impl CompressorSpec {
    /// The identifier that selects this variant.
    pub open spec fn id_spec(&self) -> Seq<char> {
        match *self {
            CompressorSpec::Gzip { .. } => "gzip"@,
            CompressorSpec::Zstd { .. } => "zstd"@,
            CompressorSpec::Brotli { .. } => "brotli"@,
            CompressorSpec::Lz4 { .. } => "lz4"@,
            CompressorSpec::Xz { .. } => "xz"@,
        }
    }

    /// The compressor this spec constructs.
    pub open spec fn build_spec(&self) -> AnyCompressor {
        match *self {
            CompressorSpec::Gzip { level } => AnyCompressor::Gzip(Gzip { level, mtime: 0 }),
            CompressorSpec::Zstd { level } => AnyCompressor::Zstd(Zstd { level }),
            CompressorSpec::Brotli { quality, lgwin } => AnyCompressor::Brotli(
                Brotli { quality, lgwin },
            ),
            CompressorSpec::Lz4 { accel } => AnyCompressor::Lz4(Lz4 { accel }),
            CompressorSpec::Xz { level } => AnyCompressor::Xz(Xz { level }),
        }
    }

    pub fn id(&self) -> (r: &'static str)
        ensures
            r@ == self.id_spec(),
    {
        match *self {
            CompressorSpec::Gzip { .. } => "gzip",
            CompressorSpec::Zstd { .. } => "zstd",
            CompressorSpec::Brotli { .. } => "brotli",
            CompressorSpec::Lz4 { .. } => "lz4",
            CompressorSpec::Xz { .. } => "xz",
        }
    }

    /// Construct the selected compressor with the stored parameters.
    pub fn build(&self) -> (r: AnyCompressor)
        ensures
            r == self.build_spec(),
    {
        match *self {
            CompressorSpec::Gzip { level } => AnyCompressor::Gzip(Gzip::new(level)),
            CompressorSpec::Zstd { level } => AnyCompressor::Zstd(Zstd::new(level)),
            CompressorSpec::Brotli { quality, lgwin } => AnyCompressor::Brotli(
                Brotli::new(quality, lgwin),
            ),
            CompressorSpec::Lz4 { accel } => AnyCompressor::Lz4(Lz4::new(accel)),
            CompressorSpec::Xz { level } => AnyCompressor::Xz(Xz::new(level)),
        }
    }
}

impl AnyCompressor {
    /// The identifier of the wrapped variant.
    pub open spec fn id_spec(&self) -> Seq<char> {
        match *self {
            AnyCompressor::Gzip(..) => "gzip"@,
            AnyCompressor::Zstd(..) => "zstd"@,
            AnyCompressor::Brotli(..) => "brotli"@,
            AnyCompressor::Lz4(..) => "lz4"@,
            AnyCompressor::Xz(..) => "xz"@,
        }
    }

    /// The tuning knobs lie in the wrapped codec's supported range, so
    /// compression is guaranteed to succeed.  Zstandard and brotli clamp
    /// every value themselves; gzip and xz accept levels 0 through 9.
    pub open spec fn params_in_range(&self) -> bool {
        match *self {
            AnyCompressor::Gzip(c) => c.level <= 9,
            AnyCompressor::Zstd(..) => true,
            AnyCompressor::Brotli(..) => true,
            AnyCompressor::Lz4(..) => true,
            AnyCompressor::Xz(c) => c.level <= 9,
        }
    }
}

impl Compressor for AnyCompressor {
    open spec fn len_spec(&self, input: Seq<u8>) -> nat {
        match *self {
            AnyCompressor::Gzip(c) => c.len_spec(input),
            AnyCompressor::Zstd(c) => c.len_spec(input),
            AnyCompressor::Brotli(c) => c.len_spec(input),
            AnyCompressor::Lz4(c) => c.len_spec(input),
            AnyCompressor::Xz(c) => c.len_spec(input),
        }
    }

    fn id(&self) -> (r: &'static str)
        ensures
            r@ == self.id_spec(),
    {
        match self {
            AnyCompressor::Gzip(c) => c.id(),
            AnyCompressor::Zstd(c) => c.id(),
            AnyCompressor::Brotli(c) => c.id(),
            AnyCompressor::Lz4(c) => c.id(),
            AnyCompressor::Xz(c) => c.id(),
        }
    }

    fn compressed_len(&self, input: &[u8]) -> (r: Result<usize, NcdError>)
        ensures
            r matches Ok(n) ==> n == self.len_spec(input@),
            self.params_in_range() ==> r is Ok,
    {
        match self {
            AnyCompressor::Gzip(c) => c.compressed_len(input),
            AnyCompressor::Zstd(c) => c.compressed_len(input),
            AnyCompressor::Brotli(c) => c.compressed_len(input),
            AnyCompressor::Lz4(c) => c.compressed_len(input),
            AnyCompressor::Xz(c) => c.compressed_len(input),
        }
    }
}

/// String equality by character sequence.
fn str_eq(a: &str, b: &str) -> (r: bool)
    ensures
        r == (a@ == b@),
{
    let sa = a.to_owned();
    let sb = b.to_owned();
    sa.eq(&sb)
}

/// The compressor that a given identifier selects, with the matching knobs,
/// or nothing when the identifier is unknown.
pub open spec fn parsed_compressor(
    id: Seq<char>,
    gzip_level: u32,
    zstd_level: i32,
    brotli_quality: u32,
    brotli_lgwin: u32,
    lz4_accel: i32,
    xz_level: u32,
) -> Option<CompressorSpec> {
    if id == "gzip"@ {
        Some(CompressorSpec::Gzip { level: gzip_level })
    } else if id == "zstd"@ {
        Some(CompressorSpec::Zstd { level: zstd_level })
    } else if id == "brotli"@ {
        Some(CompressorSpec::Brotli { quality: brotli_quality, lgwin: brotli_lgwin })
    } else if id == "lz4"@ {
        Some(CompressorSpec::Lz4 { accel: lz4_accel })
    } else if id == "xz"@ {
        Some(CompressorSpec::Xz { level: xz_level })
    } else {
        None
    }
}

/// Select a compressor by identifier, carrying the knob that belongs to it.
/// An unknown identifier is rejected before any computation begins.
pub fn parse_compressor(
    id: &str,
    gzip_level: u32,
    zstd_level: i32,
    brotli_quality: u32,
    brotli_lgwin: u32,
    lz4_accel: i32,
    xz_level: u32,
) -> (r: Result<CompressorSpec, NcdError>)
    ensures
        parsed_compressor(
            id@,
            gzip_level,
            zstd_level,
            brotli_quality,
            brotli_lgwin,
            lz4_accel,
            xz_level,
        ) matches Some(s) ==> (r matches Ok(c) && c == s),
        parsed_compressor(
            id@,
            gzip_level,
            zstd_level,
            brotli_quality,
            brotli_lgwin,
            lz4_accel,
            xz_level,
        ) is None ==> (r matches Err(e) && (e matches NcdError::InvalidSelection { requested }
            && requested@ == id@)),
{
    if str_eq(id, "gzip") {
        Ok(CompressorSpec::Gzip { level: gzip_level })
    } else if str_eq(id, "zstd") {
        Ok(CompressorSpec::Zstd { level: zstd_level })
    } else if str_eq(id, "brotli") {
        Ok(CompressorSpec::Brotli { quality: brotli_quality, lgwin: brotli_lgwin })
    } else if str_eq(id, "lz4") {
        Ok(CompressorSpec::Lz4 { accel: lz4_accel })
    } else if str_eq(id, "xz") {
        Ok(CompressorSpec::Xz { level: xz_level })
    } else {
        Err(NcdError::InvalidSelection { requested: id.to_owned() })
    }
}

} // verus!
