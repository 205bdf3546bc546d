use ncdprime::compressors::Gzip;
use ncdprime::distance::{ncd, Distance};
use ncdprime::matrix::ncd_matrix;
use ncdprime::NcdOptions;

fn as_f64(d: &Distance) -> f64 {
    d.num as f64 / d.den as f64
}

#[test]
fn identity_is_smallish() {
    let c = Gzip::new(6);
    let x = b"the quick brown fox jumps over the lazy dog\n".repeat(50);
    let d = as_f64(&ncd(&c, &x, &x, NcdOptions::default()).unwrap());
    // With real compressors and framing overhead, this is only "close" to 0.
    assert!(d >= 0.0);
    assert!(d < 0.6);
}

#[test]
fn matrix_matches_scalar() {
    let c = Gzip::new(6);
    // includes duplicates to exercise the singleton-size cache
    let a = vec![b"aaa".to_vec(), b"bbb".to_vec(), b"aaa".to_vec()];
    let b = vec![b"aaa".to_vec(), b"aaa".to_vec()];

    let m = ncd_matrix(&c, &a, &b, NcdOptions::default()).unwrap();
    assert_eq!(m.len(), 3);
    assert_eq!(m[0].len(), 2);

    // spot-check a few cells against scalar ncd()
    let d00 = ncd(&c, &a[0], &b[0], NcdOptions::default()).unwrap();
    let d10 = ncd(&c, &a[1], &b[0], NcdOptions::default()).unwrap();
    let d22 = ncd(&c, &a[2], &b[1], NcdOptions::default()).unwrap();

    assert!((as_f64(&m[0][0]) - as_f64(&d00)).abs() < 1e-12);
    assert!((as_f64(&m[1][0]) - as_f64(&d10)).abs() < 1e-12);
    assert!((as_f64(&m[2][1]) - as_f64(&d22)).abs() < 1e-12);
}

#[test]
fn min_symmetry_swaps_nothing() {
    let c = Gzip::new(6);
    let x = b"abcabcabcabc".to_vec();
    let y = b"xyzxyzxyz".to_vec();
    let opts = NcdOptions::default();
    let dxy = ncd(&c, &x, &y, opts).unwrap();
    let dyx = ncd(&c, &y, &x, opts).unwrap();
    assert_eq!(dxy, dyx);
}

#[test]
fn self_distance_in_unit_interval() {
    let c = Gzip::new(9);
    let x = b"some moderately compressible text, repeated a bit, repeated a bit".to_vec();
    let d = as_f64(&ncd(&c, &x, &x, NcdOptions::default()).unwrap());
    assert!(d >= 0.0);
    assert!(d < 1.0);
}
