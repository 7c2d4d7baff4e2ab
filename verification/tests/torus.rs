use std::f64::consts::PI;
use stencil::torus::Torus;
use stencil::torus2::Torus2;
use stencil::N1D1;
use stencil::N1D2;
use stencil::N2D1;
use stencil::StencilError;

/// Relative L2 distance between a computed vector and a reference vector.
fn rel_l2(test: &[f64], truth: &[f64]) -> f64 {
    assert_eq!(test.len(), truth.len());
    let mut diff = 0.0;
    let mut norm = 0.0;
    for k in 0..test.len() {
        diff += (test[k] - truth[k]) * (test[k] - truth[k]);
        norm += truth[k] * truth[k];
    }
    diff.sqrt() / norm.sqrt()
}

#[test]
fn central_diff() {
    let n = 128;
    let mut a = Torus::<f64>::zeros(n, 0.0);
    let mut b = a.clone();
    let dx = 2.0 * PI / n as f64;
    a.coordinate_fill(|i| (i as f64 * dx).sin());
    a.stencil_map(&mut b, |nb: N1D1<f64>| (nb.r - nb.l) / (2.0 * dx))
        .unwrap();
    a.coordinate_fill(|i| (i as f64 * dx).cos());
    assert!(rel_l2(&b.as_view(), &a.as_view()) < 1e-3);
}

#[test]
fn diff2d() {
    let n = 128;
    let m = 64;
    let mut a = Torus2::<f64>::zeros(n, m, 0.0);
    let dx = 2.0 * PI / n as f64;
    let dy = 2.0 * PI / m as f64;
    a.coordinate_fill(|i, j| (i as f64 * dx).sin() * (j as f64 * dy).cos());

    let mut ax = a.clone();
    let mut ay = a.clone();
    a.stencil_map(&mut ax, |nb: N1D2<f64>| (nb.r - nb.l) / (2.0 * dx))
        .unwrap();
    a.stencil_map(&mut ay, |nb: N1D2<f64>| (nb.t - nb.b) / (2.0 * dy))
        .unwrap();

    let mut ax_ = a.clone();
    let mut ay_ = a.clone();
    ax_.coordinate_fill(|i, j| (i as f64 * dx).cos() * (j as f64 * dy).cos());
    ay_.coordinate_fill(|i, j| -(i as f64 * dx).sin() * (j as f64 * dy).sin());
    assert!(rel_l2(&ax.as_view(), &ax_.as_view()) < 1e-2);
    assert!(rel_l2(&ay.as_view(), &ay_.as_view()) < 1e-2);
}

#[test]
fn zeros_fills_every_sample() {
    let t = Torus::<f64>::zeros(5, 0.0);
    assert_eq!(t.shape(), 5);
    assert_eq!(t.as_view(), vec![0.0; 5]);
    let t2 = Torus2::<u64>::zeros(3, 4, 9);
    assert_eq!(t2.shape(), (3, 4));
    assert_eq!(t2.as_view(), vec![9u64; 12]);
}

#[test]
fn one_neighbor_lookups_wrap() {
    let mut a = Torus::<u64>::zeros(4, 0);
    a.coordinate_fill(|i| i as u64);
    let mut left = Torus::<u64>::zeros(4, 0);
    let mut right = Torus::<u64>::zeros(4, 0);
    a.stencil_map(&mut left, |nb: N1D1<u64>| nb.l).unwrap();
    a.stencil_map(&mut right, |nb: N1D1<u64>| nb.r).unwrap();
    // the left neighbor of index 0 is index 3, the right neighbor of
    // index 3 is index 0
    assert_eq!(left.as_view(), vec![3, 0, 1, 2]);
    assert_eq!(right.as_view(), vec![1, 2, 3, 0]);
}

#[test]
fn two_neighbor_lookups_wrap() {
    let mut a = Torus::<u64>::zeros(5, 0);
    a.coordinate_fill(|i| i as u64);
    let mut ll = Torus::<u64>::zeros(5, 0);
    let mut rr = Torus::<u64>::zeros(5, 0);
    a.stencil_map_n2d1(&mut ll, |nb: N2D1<u64>| nb.ll).unwrap();
    a.stencil_map_n2d1(&mut rr, |nb: N2D1<u64>| nb.rr).unwrap();
    assert_eq!(ll.as_view(), vec![3, 4, 0, 1, 2]);
    assert_eq!(rr.as_view(), vec![2, 3, 4, 0, 1]);
}

#[test]
fn lookups_wrap_in_both_axes() {
    let mut a = Torus2::<u64>::zeros(2, 2, 0);
    a.coordinate_fill(|i, j| (2 * i + j) as u64);
    // samples: (0,0)=0 (0,1)=1 (1,0)=2 (1,1)=3
    let mut t = Torus2::<u64>::zeros(2, 2, 0);
    let mut l = Torus2::<u64>::zeros(2, 2, 0);
    a.stencil_map(&mut t, |nb: N1D2<u64>| nb.t).unwrap();
    a.stencil_map(&mut l, |nb: N1D2<u64>| nb.l).unwrap();
    assert_eq!(t.as_view(), vec![1, 0, 3, 2]);
    assert_eq!(l.as_view(), vec![2, 3, 0, 1]);
}

#[test]
fn coordinate_map_sees_index_and_value() {
    let mut a = Torus::<u64>::zeros(4, 0);
    a.coordinate_fill(|i| 10 * i as u64);
    a.coordinate_map(|i, v| v + i as u64);
    assert_eq!(a.as_view(), vec![0, 11, 22, 33]);
}

#[test]
fn too_small_grids_are_rejected() {
    let a = Torus::<f64>::zeros(1, 0.0);
    let mut out = Torus::<f64>::zeros(1, 0.0);
    assert_eq!(
        a.stencil_map(&mut out, |nb: N1D1<f64>| nb.c),
        Err(StencilError::TooSmall)
    );
    let b = Torus::<f64>::zeros(3, 0.0);
    let mut out3 = Torus::<f64>::zeros(3, 0.0);
    assert_eq!(
        b.stencil_map_n2d1(&mut out3, |nb: N2D1<f64>| nb.c),
        Err(StencilError::TooSmall)
    );
    let c = Torus2::<f64>::zeros(1, 8, 0.0);
    let mut outc = Torus2::<f64>::zeros(1, 8, 0.0);
    assert_eq!(
        c.stencil_map(&mut outc, |nb: N1D2<f64>| nb.c),
        Err(StencilError::TooSmall)
    );
}

#[test]
fn mismatched_shapes_are_rejected() {
    let a = Torus::<f64>::zeros(8, 0.0);
    let mut out = Torus::<f64>::zeros(9, 0.0);
    assert_eq!(
        a.stencil_map(&mut out, |nb: N1D1<f64>| nb.c),
        Err(StencilError::ShapeMismatch)
    );
    // the destination is untouched by a rejected pass
    assert_eq!(out.as_view(), vec![0.0; 9]);
    let b = Torus2::<f64>::zeros(4, 4, 0.0);
    let mut outb = Torus2::<f64>::zeros(4, 5, 0.0);
    assert_eq!(
        b.stencil_map(&mut outb, |nb: N1D2<f64>| nb.c),
        Err(StencilError::ShapeMismatch)
    );
}

#[test]
fn output_ignores_destination_contents() {
    let n = 16;
    let mut a = Torus::<f64>::zeros(n, 0.0);
    let dx = 2.0 * PI / n as f64;
    a.coordinate_fill(|i| (i as f64 * dx).sin());
    let mut clean = Torus::<f64>::zeros(n, 0.0);
    let mut dirty = Torus::<f64>::zeros(n, 0.0);
    dirty.coordinate_fill(|i| i as f64 * 123.25 - 7.5);
    let f = |nb: N1D1<f64>| (nb.r - nb.l) / (2.0 * dx);
    a.stencil_map(&mut clean, f).unwrap();
    a.stencil_map(&mut dirty, f).unwrap();
    assert_eq!(clean.as_view(), dirty.as_view());
}
