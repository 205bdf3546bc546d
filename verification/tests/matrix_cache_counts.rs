use std::sync::atomic::{AtomicUsize, Ordering};

use ncdprime::compressors::{Compressor, Gzip};
use ncdprime::matrix::{ncd_matrix, singleton_sizes};
use ncdprime::{NcdError, NcdOptions, Symmetry};

#[derive(Default)]
struct CountingCompressor {
    calls: AtomicUsize,
}

impl CountingCompressor {
    fn calls(&self) -> usize {
        self.calls.load(Ordering::Relaxed)
    }
}

impl Compressor for CountingCompressor {
    fn id(&self) -> &'static str {
        "count"
    }

    fn compressed_len(&self, input: &[u8]) -> Result<usize, NcdError> {
        self.calls.fetch_add(1, Ordering::Relaxed);
        // A deterministic, cheap "compressor": size is just the input length.
        Ok(input.len())
    }
}

#[test]
fn matrix_singleton_cache_dedups_across_a_and_b_sym_min() {
    let c = CountingCompressor::default();

    // Unique blobs across (a ∪ b) are: {"aaa", "bbb"} => 2 singleton compressions expected.
    let a = vec![b"aaa".to_vec(), b"bbb".to_vec(), b"aaa".to_vec()];
    let b = vec![b"aaa".to_vec(), b"aaa".to_vec()];

    let _m = ncd_matrix(&c, &a, &b, NcdOptions::default()).unwrap();

    let n = a.len();
    let m = b.len();
    let unique_singletons = 2;
    let per_cell = 2; // symmetry=min => C(xy) and C(yx)
    let expected_calls = unique_singletons + per_cell * n * m;

    assert_eq!(c.calls(), expected_calls);
}

#[test]
fn matrix_singleton_cache_dedups_across_a_and_b_sym_none() {
    let c = CountingCompressor::default();

    // Unique blobs across (a ∪ b) are: {"aaa", "bbb"} => 2 singleton compressions expected.
    let a = vec![b"aaa".to_vec(), b"bbb".to_vec(), b"aaa".to_vec()];
    let b = vec![b"aaa".to_vec(), b"aaa".to_vec()];

    let mut opts = NcdOptions::default();
    opts.symmetry = Symmetry::Off;

    let _m = ncd_matrix(&c, &a, &b, opts).unwrap();

    let n = a.len();
    let m = b.len();
    let unique_singletons = 2;
    let per_cell = 1; // symmetry=none => only C(xy)
    let expected_calls = unique_singletons + per_cell * n * m;

    assert_eq!(c.calls(), expected_calls);
}

#[test]
fn cache_holds_one_entry_per_distinct_content() {
    let c = Gzip::new(6);
    let a = vec![b"aaa".to_vec(), b"bbb".to_vec(), b"aaa".to_vec()];
    let b = vec![b"aaa".to_vec(), b"aaa".to_vec()];

    let (sa, sb, cache) = singleton_sizes(&c, &a, &b).unwrap();

    // Two distinct contents across a ∪ b, so two cache entries.
    assert_eq!(cache.len(), 2);

    // Byte-identical content gets byte-identical singleton sizes.
    assert_eq!(sa.len(), 3);
    assert_eq!(sb.len(), 2);
    assert_eq!(sa[0], sa[2]);
    assert_eq!(sa[0], sb[0]);
    assert_eq!(sb[0], sb[1]);
}
