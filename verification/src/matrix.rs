//! The all-pairs distance matrix engine.
//!
//! For two sets of buffers the engine computes every pairwise distance,
//! reusing singleton compressed sizes through the fingerprint-keyed
//! [`SizeCache`](crate::cache::SizeCache): byte-identical content anywhere in
//! either set is compressed once.  Concatenation sizes are pair-specific and
//! always computed fresh.  Cells are produced in row-major order, and an
//! optional per-cell observer receives progress events as they happen.
//!
//! Contracts speak of `first_size_in`: the compressed length of the first
//! buffer carrying a fingerprint.  Fingerprint collisions are treated as
//! equal content (an accepted risk with a 256-bit hash), and exactly on
//! collision-free inputs the cached sizes coincide with the true singleton
//! sizes (`lemma_matrix_cell_matches_scalar`).

use vstd::prelude::*;

use crate::cache::{assoc_find, blake3_fingerprint, blake3_of, lemma_assoc_find_push, SizeCache};
use crate::compressors::Compressor;
use crate::distance::{ccat_spec, matches_ncd, ncd_den_of, ncd_from_sizes, ncd_num_of, Distance};
use crate::{NcdError, NcdOptions};

verus! {

/// The byte sequences that a list of buffers holds, in order.
pub open spec fn views_of(bufs: Seq<Vec<u8>>) -> Seq<Seq<u8>> {
    Seq::new(bufs.len(), |i: int| bufs[i]@)
}

/// Some buffer in `seen` has fingerprint `key`.
pub open spec fn seen_has_key(seen: Seq<Seq<u8>>, key: Seq<u8>) -> bool {
    exists|i: int| 0 <= i < seen.len() && blake3_of(seen[i]) == key
}

/// The compressed length of the first buffer in `seen` whose fingerprint is
/// `key` (0 when no buffer has it).  This is what the size cache hands out.
pub open spec fn first_size_in<C: Compressor>(c: C, seen: Seq<Seq<u8>>, key: Seq<u8>) -> nat
    decreases seen.len(),
{
    if seen.len() == 0 {
        0
    } else if blake3_of(seen[0]) == key {
        c.len_spec(seen[0])
    } else {
        first_size_in(c, seen.drop_first(), key)
    }
}

/// The fingerprints of a buffer sequence, in order.
pub open spec fn hash_keys(seen: Seq<Seq<u8>>) -> Seq<Seq<u8>> {
    seen.map_values(|b: Seq<u8>| blake3_of(b))
}

/// How many distinct fingerprints a buffer sequence carries.
pub open spec fn distinct_hash_count(seen: Seq<Seq<u8>>) -> nat {
    hash_keys(seen).to_set().len()
}

/// The cache holds exactly the fingerprints of `seen`, each mapped to the
/// compressed length of its first carrier, and one entry per distinct
/// fingerprint.
pub open spec fn cache_models<C: Compressor>(
    cache: Seq<([u8; 32], usize)>,
    c: C,
    seen: Seq<Seq<u8>>,
) -> bool {
    &&& forall|key: Seq<u8>|
        seen_has_key(seen, key) ==> ((#[trigger] assoc_find(cache, key)) matches Some(n)
            && n == first_size_in(c, seen, key))
    &&& forall|key: Seq<u8>|
        !seen_has_key(seen, key) ==> (#[trigger] assoc_find(cache, key)) is None
    &&& cache.len() == distinct_hash_count(seen)
}

/// Buffers already carrying a fingerprint keep their first-carrier size when
/// more buffers follow.
proof fn lemma_first_size_extend<C: Compressor>(
    c: C,
    seen: Seq<Seq<u8>>,
    rest: Seq<Seq<u8>>,
    key: Seq<u8>,
)
    requires
        seen_has_key(seen, key),
    ensures
        first_size_in(c, seen + rest, key) == first_size_in(c, seen, key),
    decreases seen.len(),
{
    let full = seen + rest;
    assert(seen.len() > 0);
    assert(full[0] == seen[0]);
    if blake3_of(seen[0]) == key {
    } else {
        let i = choose|i: int| 0 <= i < seen.len() && blake3_of(seen[i]) == key;
        assert(i >= 1);
        assert(seen.drop_first()[i - 1] == seen[i]);
        assert(seen_has_key(seen.drop_first(), key));
        assert(full.drop_first() =~= seen.drop_first() + rest);
        lemma_first_size_extend(c, seen.drop_first(), rest, key);
    }
}

/// A buffer whose fingerprint is new contributes its own compressed length.
proof fn lemma_first_size_new_key<C: Compressor>(c: C, seen: Seq<Seq<u8>>, b: Seq<u8>)
    requires
        !seen_has_key(seen, blake3_of(b)),
    ensures
        first_size_in(c, seen.push(b), blake3_of(b)) == c.len_spec(b),
    decreases seen.len(),
{
    let key = blake3_of(b);
    if seen.len() == 0 {
        assert(seen.push(b)[0] == b);
    } else {
        assert(blake3_of(seen[0]) != key);
        assert(seen.push(b)[0] == seen[0]);
        assert(seen.push(b).drop_first() =~= seen.drop_first().push(b));
        assert(!seen_has_key(seen.drop_first(), key)) by {
            if seen_has_key(seen.drop_first(), key) {
                let i = choose|i: int|
                    0 <= i < seen.drop_first().len() && blake3_of(seen.drop_first()[i]) == key;
                assert(seen.drop_first()[i] == seen[i + 1]);
            }
        }
        lemma_first_size_new_key(c, seen.drop_first(), b);
    }
}

/// Every fingerprint of `seen` is a fingerprint of `seen.push(b)`.
proof fn lemma_seen_key_push(seen: Seq<Seq<u8>>, b: Seq<u8>, key: Seq<u8>)
    ensures
        seen_has_key(seen.push(b), key) <==> seen_has_key(seen, key) || blake3_of(b) == key,
{
    if seen_has_key(seen, key) {
        let i = choose|i: int| 0 <= i < seen.len() && blake3_of(seen[i]) == key;
        assert(seen.push(b)[i] == seen[i]);
        assert(seen_has_key(seen.push(b), key));
    }
    if blake3_of(b) == key {
        assert(seen.push(b)[seen.len() as int] == b);
        assert(seen_has_key(seen.push(b), key));
    }
    if seen_has_key(seen.push(b), key) {
        let i = choose|i: int| 0 <= i < seen.push(b).len() && blake3_of(seen.push(b)[i]) == key;
        if i < seen.len() {
            assert(seen.push(b)[i] == seen[i]);
            assert(seen_has_key(seen, key));
        } else {
            assert(seen.push(b)[i] == b);
        }
    }
}

/// The fingerprint set membership of `seen` matches `seen_has_key`.
proof fn lemma_hash_set_membership(seen: Seq<Seq<u8>>, key: Seq<u8>)
    ensures
        hash_keys(seen).to_set().contains(key) <==> seen_has_key(seen, key),
{
    if seen_has_key(seen, key) {
        let i = choose|i: int| 0 <= i < seen.len() && blake3_of(seen[i]) == key;
        assert(hash_keys(seen)[i] == key);
        assert(hash_keys(seen).to_set().contains(key));
    }
    if hash_keys(seen).to_set().contains(key) {
        let i = choose|i: int| 0 <= i < hash_keys(seen).len() && hash_keys(seen)[i] == key;
        assert(blake3_of(seen[i]) == key);
    }
}

/// Appending a buffer adds exactly its fingerprint to the fingerprint set.
proof fn lemma_hash_set_push(seen: Seq<Seq<u8>>, b: Seq<u8>)
    ensures
        hash_keys(seen.push(b)).to_set() =~= hash_keys(seen).to_set().insert(blake3_of(b)),
        distinct_hash_count(seen.push(b)) == if seen_has_key(seen, blake3_of(b)) {
            distinct_hash_count(seen)
        } else {
            distinct_hash_count(seen) + 1
        },
{
    assert(hash_keys(seen.push(b)) =~= hash_keys(seen).push(blake3_of(b))) by {
        assert forall|i: int| 0 <= i < seen.push(b).len() implies #[trigger] hash_keys(
            seen.push(b),
        )[i] == hash_keys(seen).push(blake3_of(b))[i] by {
            if i < seen.len() {
                assert(seen.push(b)[i] == seen[i]);
            } else {
                assert(seen.push(b)[i] == b);
            }
        }
    }
    assert(hash_keys(seen).push(blake3_of(b)).to_set() =~= hash_keys(seen).to_set().insert(
        blake3_of(b),
    )) by {
        let hk = hash_keys(seen);
        let k = blake3_of(b);
        assert forall|x: Seq<u8>| hk.push(k).to_set().contains(x) implies hk.to_set().insert(
            k,
        ).contains(x) by {
            let i = choose|i: int| 0 <= i < hk.push(k).len() && hk.push(k)[i] == x;
            if i < hk.len() {
                assert(hk[i] == x);
            }
        }
        assert forall|x: Seq<u8>| hk.to_set().insert(k).contains(x) implies hk.push(
            k,
        ).to_set().contains(x) by {
            if hk.to_set().contains(x) {
                let i = choose|i: int| 0 <= i < hk.len() && hk[i] == x;
                assert(hk.push(k)[i] == x);
            } else {
                assert(hk.push(k)[hk.len() as int] == x);
            }
        }
    }
    lemma_hash_set_membership(seen, blake3_of(b));
    assert(hash_keys(seen).to_set().finite()) by {
        vstd::seq_lib::seq_to_set_is_finite::<Seq<u8>>(hash_keys(seen));
    }
}

/// On fingerprint-collision-free inputs, the first-carrier size of a
/// buffer's fingerprint is that buffer's own compressed length.
pub open spec fn hashes_injective(seen: Seq<Seq<u8>>) -> bool {
    forall|i: int, j: int|
        0 <= i < seen.len() && 0 <= j < seen.len() && #[trigger] blake3_of(seen[i])
            == #[trigger] blake3_of(seen[j]) ==> seen[i] == seen[j]
}

/// Look up the singleton size of `buf`, compressing only when its
/// fingerprint was not seen before; `seen` is the sequence of buffers the
/// cache was fed so far.
fn cached_singleton_len<C: Compressor>(
    c: &C,
    buf: &Vec<u8>,
    cache: &mut SizeCache,
    Ghost(seen): Ghost<Seq<Seq<u8>>>,
) -> (r: Result<usize, NcdError>)
    requires
        cache_models(old(cache)@, *c, seen),
    ensures
        r matches Ok(n) ==> cache_models(final(cache)@, *c, seen.push(buf@)) && n
            == first_size_in(*c, seen.push(buf@), blake3_of(buf@)),
        r is Err ==> final(cache)@ == old(cache)@,
{
    let key = blake3_fingerprint(buf.as_slice());
    let found = cache.get(&key);
    let ghost k = blake3_of(buf@);
    match found {
        Some(n) => {
            proof {
                assert(seen_has_key(seen, k)) by {
                    if !seen_has_key(seen, k) {
                        assert(assoc_find(cache@, k) is None);
                    }
                }
                assert(seen.push(buf@) =~= seen + seq![buf@]);
                lemma_first_size_extend(*c, seen, seq![buf@], k);
                assert forall|key2: Seq<u8>| seen_has_key(seen.push(buf@), key2) implies ((
                #[trigger] assoc_find(cache@, key2)) matches Some(m) && m == first_size_in(
                    *c,
                    seen.push(buf@),
                    key2,
                )) by {
                    lemma_seen_key_push(seen, buf@, key2);
                    assert(seen_has_key(seen, key2));
                    lemma_first_size_extend(*c, seen, seq![buf@], key2);
                }
                assert forall|key2: Seq<u8>| !seen_has_key(seen.push(buf@), key2) implies (
                #[trigger] assoc_find(cache@, key2)) is None by {
                    lemma_seen_key_push(seen, buf@, key2);
                }
                lemma_hash_set_push(seen, buf@);
            }
            Ok(n)
        },
        Option::None => {
            proof {
                assert(!seen_has_key(seen, k)) by {
                    if seen_has_key(seen, k) {
                        assert(assoc_find(cache@, k) matches Some(m) && m == first_size_in(
                            *c,
                            seen,
                            k,
                        ));
                    }
                }
            }
            let n = match c.compressed_len(buf.as_slice()) {
                Ok(n) => n,
                Err(e) => {
                    return Err(e);
                },
            };
            let ghost pre = cache@;
            cache.insert(key, n);
            proof {
                assert(seen.push(buf@) =~= seen + seq![buf@]);
                lemma_first_size_new_key(*c, seen, buf@);
                assert forall|key2: Seq<u8>| seen_has_key(seen.push(buf@), key2) implies ((
                #[trigger] assoc_find(cache@, key2)) matches Some(m) && m == first_size_in(
                    *c,
                    seen.push(buf@),
                    key2,
                )) by {
                    lemma_seen_key_push(seen, buf@, key2);
                    lemma_assoc_find_push(pre, (key, n), key2);
                    if key2 == k {
                        assert(assoc_find(cache@, key2) == Some(n));
                    } else {
                        assert(seen_has_key(seen, key2));
                        lemma_first_size_extend(*c, seen, seq![buf@], key2);
                    }
                }
                assert forall|key2: Seq<u8>| !seen_has_key(seen.push(buf@), key2) implies (
                #[trigger] assoc_find(cache@, key2)) is None by {
                    lemma_seen_key_push(seen, buf@, key2);
                    lemma_assoc_find_push(pre, (key, n), key2);
                }
                lemma_hash_set_push(seen, buf@);
            }
            Ok(n)
        },
    }
}

/// Compute the singleton compressed size of every buffer in both sets,
/// sharing one fingerprint cache across the two passes, so byte-identical
/// content anywhere is compressed exactly once.  The returned cache holds one
/// entry per distinct fingerprint of `a ++ b`.
pub fn singleton_sizes<C: Compressor>(c: &C, a: &[Vec<u8>], b: &[Vec<u8>]) -> (r: Result<
    (Vec<usize>, Vec<usize>, SizeCache),
    NcdError,
>)
    ensures
        r matches Ok(t) ==> ({
            let all = views_of(a@) + views_of(b@);
            &&& t.0@.len() == a@.len()
            &&& t.1@.len() == b@.len()
            &&& (forall|i: int|
                0 <= i < a@.len() ==> t.0@[i] == first_size_in(
                    *c,
                    all,
                    blake3_of(#[trigger] views_of(a@)[i]),
                ))
            &&& (forall|j: int|
                0 <= j < b@.len() ==> t.1@[j] == first_size_in(
                    *c,
                    all,
                    blake3_of(#[trigger] views_of(b@)[j]),
                ))
            &&& t.2@.len() == distinct_hash_count(all)
        }),
        a@.len() == 0 && b@.len() == 0 ==> r is Ok,
{
    let ghost avs = views_of(a@);
    let ghost bvs = views_of(b@);
    let ghost all = avs + bvs;
    let mut cache = SizeCache::new();
    proof {
        assert(cache_models(cache@, *c, Seq::<Seq<u8>>::empty())) by {
            assert(hash_keys(Seq::<Seq<u8>>::empty()).to_set() =~= Set::<Seq<u8>>::empty());
        }
    }
    let mut sa: Vec<usize> = Vec::new();
    let na = a.len();
    let mut i: usize = 0;
    proof {
        assert(avs.take(0) =~= Seq::<Seq<u8>>::empty());
    }
    while i < na
        invariant
            0 <= i <= na,
            na == a@.len(),
            avs == views_of(a@),
            bvs == views_of(b@),
            all == avs + bvs,
            sa@.len() == i,
            cache_models(cache@, *c, avs.take(i as int)),
            forall|p: int| 0 <= p < i ==> sa@[p] == first_size_in(*c, all, blake3_of(avs[p])),
        decreases na - i,
    {
        let r = cached_singleton_len(c, &a[i], &mut cache, Ghost(avs.take(i as int)));
        let n = match r {
            Ok(n) => n,
            Err(e) => {
                return Err(e);
            },
        };
        proof {
            assert(avs.take(i as int).push(avs[i as int]) =~= avs.take(i + 1));
            let k = blake3_of(avs[i as int]);
            assert(avs.take(i + 1)[i as int] == avs[i as int]);
            assert(seen_has_key(avs.take(i + 1), k));
            lemma_first_size_extend(*c, avs.take(i + 1), avs.skip(i + 1) + bvs, k);
            assert(avs.take(i + 1) + (avs.skip(i + 1) + bvs) =~= all);
        }
        sa.push(n);
        i = i + 1;
    }
    proof {
        assert(avs.take(na as int) =~= avs);
    }
    let mut sb: Vec<usize> = Vec::new();
    let nb = b.len();
    let mut j: usize = 0;
    proof {
        assert(avs + bvs.take(0) =~= avs);
    }
    while j < nb
        invariant
            0 <= j <= nb,
            na == a@.len(),
            nb == b@.len(),
            avs == views_of(a@),
            bvs == views_of(b@),
            all == avs + bvs,
            sa@.len() == na,
            sb@.len() == j,
            cache_models(cache@, *c, avs + bvs.take(j as int)),
            forall|p: int| 0 <= p < na ==> sa@[p] == first_size_in(*c, all, blake3_of(avs[p])),
            forall|q: int| 0 <= q < j ==> sb@[q] == first_size_in(*c, all, blake3_of(bvs[q])),
        decreases nb - j,
    {
        let r = cached_singleton_len(c, &b[j], &mut cache, Ghost(avs + bvs.take(j as int)));
        let n = match r {
            Ok(n) => n,
            Err(e) => {
                return Err(e);
            },
        };
        proof {
            assert((avs + bvs.take(j as int)).push(bvs[j as int]) =~= avs + bvs.take(j + 1));
            let k = blake3_of(bvs[j as int]);
            let seen2 = avs + bvs.take(j + 1);
            assert(seen2[na + j] == bvs[j as int]);
            assert(seen_has_key(seen2, k));
            lemma_first_size_extend(*c, seen2, bvs.skip(j + 1), k);
            assert(seen2 + bvs.skip(j + 1) =~= all);
        }
        sb.push(n);
        j = j + 1;
    }
    proof {
        assert(avs + bvs.take(nb as int) =~= all);
    }
    Ok((sa, sb, cache))
}

proof fn lemma_first_size_injective<C: Compressor>(c: C, seen: Seq<Seq<u8>>, i: int)
    requires
        hashes_injective(seen),
        0 <= i < seen.len(),
    ensures
        first_size_in(c, seen, blake3_of(seen[i])) == c.len_spec(seen[i]),
    decreases seen.len(),
{
    let key = blake3_of(seen[i]);
    if blake3_of(seen[0]) == key {
        assert(seen[0] == seen[i]);
    } else {
        assert(i >= 1);
        let rest = seen.drop_first();
        assert(hashes_injective(rest)) by {
            assert forall|p: int, q: int|
                0 <= p < rest.len() && 0 <= q < rest.len() && #[trigger] blake3_of(rest[p])
                    == #[trigger] blake3_of(rest[q]) implies rest[p] == rest[q] by {
                assert(rest[p] == seen[p + 1]);
                assert(rest[q] == seen[q + 1]);
            }
        }
        assert(rest[i - 1] == seen[i]);
        lemma_first_size_injective(c, rest, i - 1);
    }
}

/// `d` is the distance of `x` and `y` as the matrix computes it: singleton
/// sizes come from the first carrier of each fingerprint among `all`, the
/// concatenation sizes are the pair's own.
pub open spec fn cell_matches<C: Compressor>(
    d: Distance,
    c: C,
    all: Seq<Seq<u8>>,
    x: Seq<u8>,
    y: Seq<u8>,
    opts: NcdOptions,
) -> bool {
    matches_ncd(
        d,
        first_size_in(c, all, blake3_of(x)),
        first_size_in(c, all, blake3_of(y)),
        ccat_spec(c, x, y, opts),
        opts.clamp_0_1,
    )
}

/// `m` is the full distance matrix of `a` against `b`: `|a|` rows of `|b|`
/// columns, each cell the matrix distance of its pair.
pub open spec fn matrix_matches<C: Compressor>(
    m: Seq<Vec<Distance>>,
    c: C,
    a: Seq<Seq<u8>>,
    b: Seq<Seq<u8>>,
    opts: NcdOptions,
) -> bool {
    &&& m.len() == a.len()
    &&& forall|i: int| 0 <= i < m.len() ==> (#[trigger] m[i])@.len() == b.len()
    &&& forall|i: int, j: int|
        0 <= i < a.len() && 0 <= j < b.len() ==> cell_matches(
            #[trigger] m[i]@[j],
            c,
            a + b,
            a[i],
            b[j],
            opts,
        )
}

/// On fingerprint-collision-free inputs every matrix cell equals the
/// plain pairwise distance of its two buffers: the cache changes nothing.
pub proof fn lemma_matrix_cell_matches_scalar<C: Compressor>(
    d: Distance,
    c: C,
    a: Seq<Seq<u8>>,
    b: Seq<Seq<u8>>,
    i: int,
    j: int,
    opts: NcdOptions,
)
    requires
        hashes_injective(a + b),
        0 <= i < a.len(),
        0 <= j < b.len(),
        cell_matches(d, c, a + b, a[i], b[j], opts),
    ensures
        d.num == ncd_num_of(c, a[i], b[j], opts),
        d.den == ncd_den_of(c, a[i], b[j]),
{
    let all = a + b;
    assert(all[i] == a[i]);
    assert(all[a.len() + j] == b[j]);
    lemma_first_size_injective(c, all, i);
    lemma_first_size_injective(c, all, a.len() + j);
}

/// With clamping on, every matrix cell lies in the unit interval,
/// whatever sizes the compressor reported.
pub proof fn lemma_clamped_cell_in_unit_interval<C: Compressor>(
    d: Distance,
    c: C,
    all: Seq<Seq<u8>>,
    x: Seq<u8>,
    y: Seq<u8>,
    opts: NcdOptions,
)
    requires
        opts.clamp_0_1,
        cell_matches(d, c, all, x, y, opts),
    ensures
        0 <= d.num <= d.den,
{
    crate::distance::lemma_clamped_in_unit_interval(
        first_size_in(c, all, blake3_of(x)),
        first_size_in(c, all, blake3_of(y)),
        ccat_spec(c, x, y, opts),
    );
}

/// Compute the distance matrix of `a` against `b`, in row-major order,
/// compressing each distinct buffer content once.
pub fn ncd_matrix<C: Compressor>(c: &C, a: &[Vec<u8>], b: &[Vec<u8>], opts: NcdOptions) -> (r:
    Result<Vec<Vec<Distance>>, NcdError>)
    ensures
        r matches Ok(m) ==> matrix_matches(m@, *c, views_of(a@), views_of(b@), opts),
        a@.len() == 0 && b@.len() == 0 ==> r is Ok,
{
    let sizes = match singleton_sizes(c, a, b) {
        Ok(t) => t,
        Err(e) => {
            return Err(e);
        },
    };
    let (sa, sb, _cache) = sizes;
    fill_matrix(c, a, b, &sa, &sb, opts)
}

/// The shared cell loop: build every row from the precomputed singleton
/// sizes, computing concatenation sizes fresh per cell.
fn fill_matrix<C: Compressor>(
    c: &C,
    a: &[Vec<u8>],
    b: &[Vec<u8>],
    sa: &Vec<usize>,
    sb: &Vec<usize>,
    opts: NcdOptions,
) -> (r: Result<Vec<Vec<Distance>>, NcdError>)
    requires
        sa@.len() == a@.len(),
        sb@.len() == b@.len(),
        forall|i: int|
            0 <= i < a@.len() ==> sa@[i] == first_size_in(
                *c,
                views_of(a@) + views_of(b@),
                blake3_of(#[trigger] views_of(a@)[i]),
            ),
        forall|j: int|
            0 <= j < b@.len() ==> sb@[j] == first_size_in(
                *c,
                views_of(a@) + views_of(b@),
                blake3_of(#[trigger] views_of(b@)[j]),
            ),
    ensures
        r matches Ok(m) ==> matrix_matches(m@, *c, views_of(a@), views_of(b@), opts),
        a@.len() == 0 || b@.len() == 0 ==> r is Ok,
{
    let ghost avs = views_of(a@);
    let ghost bvs = views_of(b@);
    let ghost all = avs + bvs;
    let na = a.len();
    let nb = b.len();
    let mut m: Vec<Vec<Distance>> = Vec::new();
    let mut i: usize = 0;
    while i < na
        invariant
            0 <= i <= na,
            na == a@.len(),
            nb == b@.len(),
            avs == views_of(a@),
            bvs == views_of(b@),
            all == avs + bvs,
            sa@.len() == na,
            sb@.len() == nb,
            forall|p: int|
                0 <= p < na ==> sa@[p] == first_size_in(*c, all, blake3_of(#[trigger] avs[p])),
            forall|q: int|
                0 <= q < nb ==> sb@[q] == first_size_in(*c, all, blake3_of(#[trigger] bvs[q])),
            m@.len() == i,
            forall|p: int| 0 <= p < i ==> (#[trigger] m@[p])@.len() == nb,
            forall|p: int, q: int|
                0 <= p < i && 0 <= q < nb ==> cell_matches(
                    #[trigger] m@[p]@[q],
                    *c,
                    all,
                    avs[p],
                    bvs[q],
                    opts,
                ),
        decreases na - i,
    {
        let mut row: Vec<Distance> = Vec::new();
        let mut j: usize = 0;
        while j < nb
            invariant
                0 <= j <= nb,
                0 <= i < na,
                na == a@.len(),
                nb == b@.len(),
                avs == views_of(a@),
                bvs == views_of(b@),
                all == avs + bvs,
                sa@.len() == na,
                sb@.len() == nb,
                forall|p: int|
                    0 <= p < na ==> sa@[p] == first_size_in(*c, all, blake3_of(#[trigger] avs[p])),
                forall|q: int|
                    0 <= q < nb ==> sb@[q] == first_size_in(*c, all, blake3_of(#[trigger] bvs[q])),
                row@.len() == j,
                forall|q: int|
                    0 <= q < j ==> cell_matches(#[trigger] row@[q], *c, all, avs[i as int], bvs[q], opts),
            decreases nb - j,
        {
            let d = match ncd_from_sizes(c, a[i].as_slice(), b[j].as_slice(), sa[i], sb[j], opts) {
                Ok(d) => d,
                Err(e) => {
                    return Err(e);
                },
            };
            row.push(d);
            j = j + 1;
        }
        m.push(row);
        i = i + 1;
    }
    Ok(m)
}

/// Per-cell progress for a matrix run with an observer.
#[derive(Clone, Copy, Debug, PartialEq, Eq, Structural)]
pub struct NcdMatrixProgress {
    /// Cells completed so far, this one included.
    pub done: usize,
    /// Total number of cells in the run.
    pub total: usize,
    /// Rough work proxy for estimation: `len(x) + len(y)` of the cell's pair.
    pub input_bytes: u64,
    /// Wall time the cell took, in nanoseconds.
    pub wall_nanos: u64,
}

/// A caller-supplied progress observer.  The engine invokes it synchronously
/// after each completed cell, in row-major order, and waits for it to return
/// before starting the next cell.
pub trait ProgressSink {
    fn on_cell(&mut self, progress: NcdMatrixProgress);
}

#[verifier::external_type_specification]
#[verifier::external_body]
pub struct ExInstant(std::time::Instant);

/// Relies on std::time::Instant::now for a monotonic clock reading; the
/// value is opaque and nothing is promised of it.
pub assume_specification[ std::time::Instant::now ]() -> std::time::Instant;

/// Relies on std::time::Instant::elapsed: the wall time since `start`, in
/// nanoseconds, saturated into u64.  A clock reading is not a function of
/// the arguments, so nothing is promised of the value.
#[verifier::external_body]
fn elapsed_nanos(start: &std::time::Instant) -> u64 {
    u64::try_from(start.elapsed().as_nanos()).unwrap_or(u64::MAX)
}

/// Compute the distance matrix as [`ncd_matrix`] does, invoking `sink` once
/// per completed cell with running progress and the cell's wall time.
pub fn ncd_matrix_with_progress<C: Compressor, S: ProgressSink>(
    c: &C,
    a: &[Vec<u8>],
    b: &[Vec<u8>],
    opts: NcdOptions,
    sink: &mut S,
) -> (r: Result<Vec<Vec<Distance>>, NcdError>)
    ensures
        r matches Ok(m) ==> matrix_matches(m@, *c, views_of(a@), views_of(b@), opts),
        a@.len() == 0 && b@.len() == 0 ==> r is Ok,
{
    let sizes = match singleton_sizes(c, a, b) {
        Ok(t) => t,
        Err(e) => {
            return Err(e);
        },
    };
    let (sa, sb, _cache) = sizes;
    let ghost avs = views_of(a@);
    let ghost bvs = views_of(b@);
    let ghost all = avs + bvs;
    let na = a.len();
    let nb = b.len();
    let total: usize = match na.checked_mul(nb) {
        Some(t) => t,
        Option::None => usize::MAX,
    };
    let mut done: usize = 0;
    let mut m: Vec<Vec<Distance>> = Vec::new();
    let mut i: usize = 0;
    while i < na
        invariant
            0 <= i <= na,
            na == a@.len(),
            nb == b@.len(),
            avs == views_of(a@),
            bvs == views_of(b@),
            all == avs + bvs,
            sa@.len() == na,
            sb@.len() == nb,
            forall|p: int|
                0 <= p < na ==> sa@[p] == first_size_in(*c, all, blake3_of(#[trigger] avs[p])),
            forall|q: int|
                0 <= q < nb ==> sb@[q] == first_size_in(*c, all, blake3_of(#[trigger] bvs[q])),
            m@.len() == i,
            forall|p: int| 0 <= p < i ==> (#[trigger] m@[p])@.len() == nb,
            forall|p: int, q: int|
                0 <= p < i && 0 <= q < nb ==> cell_matches(
                    #[trigger] m@[p]@[q],
                    *c,
                    all,
                    avs[p],
                    bvs[q],
                    opts,
                ),
        decreases na - i,
    {
        let mut row: Vec<Distance> = Vec::new();
        let mut j: usize = 0;
        while j < nb
            invariant
                0 <= j <= nb,
                0 <= i < na,
                na == a@.len(),
                nb == b@.len(),
                avs == views_of(a@),
                bvs == views_of(b@),
                all == avs + bvs,
                sa@.len() == na,
                sb@.len() == nb,
                forall|p: int|
                    0 <= p < na ==> sa@[p] == first_size_in(*c, all, blake3_of(#[trigger] avs[p])),
                forall|q: int|
                    0 <= q < nb ==> sb@[q] == first_size_in(*c, all, blake3_of(#[trigger] bvs[q])),
                row@.len() == j,
                forall|q: int|
                    0 <= q < j ==> cell_matches(#[trigger] row@[q], *c, all, avs[i as int], bvs[q], opts),
            decreases nb - j,
        {
            let start = std::time::Instant::now();
            let d = match ncd_from_sizes(c, a[i].as_slice(), b[j].as_slice(), sa[i], sb[j], opts) {
                Ok(d) => d,
                Err(e) => {
                    return Err(e);
                },
            };
            let wall_nanos = elapsed_nanos(&start);
            row.push(d);
            done = done.saturating_add(1);
            let input_bytes = (a[i].len() as u64).saturating_add(b[j].len() as u64);
            sink.on_cell(NcdMatrixProgress { done, total, input_bytes, wall_nanos });
            j = j + 1;
        }
        m.push(row);
        i = i + 1;
    }
    Ok(m)
}

} // verus!
