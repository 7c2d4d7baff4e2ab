use std::f64::consts::PI;
use stencil::padding::Padding;
use stencil::padding::P1;
use stencil::padding::P2;
use stencil::padding::P3;
use stencil::region::Edge;
use stencil::region::Closed;
use stencil::region::Line;
use stencil::region::Open;
use stencil::N1D1;
use stencil::N2D1;
use stencil::StencilError;

/// Relative L2 distance between a computed vector and a reference vector.
fn rel_l2(test: &[f64], truth: &[f64]) -> f64 {
    assert_eq!(test.len(), truth.len());
    let mut diff = 0.0;
    let mut norm = 0.0;
    for k in 0..test.len() {
        diff += (test[k] - truth[k]) * (test[k] - truth[k]);
        norm += truth[k] * truth[k];
    }
    diff.sqrt() / norm.sqrt()
}

#[test]
fn closed() {
    let n = 128;
    let mut a = Line::<f64, P1, Closed>::new(n, 0.0, 0.0, 2.0 * PI);
    let dx = 2.0 * PI / a.dx_steps() as f64;
    a.coordinate_fill(|s| (s as f64 * dx).sin());
    let mut b = a.clone();
    a.stencil_map(&mut b, |nb: N1D1<f64>| (nb.r - nb.l) / (2.0 * dx))
        .unwrap();
    b.fill_edge();
    a.coordinate_fill(|s| (s as f64 * dx).cos());
    assert!(rel_l2(&b.as_view(), &a.as_view()) < 1e-1);
}

#[test]
fn open() {
    let n = 128;
    let mut a = Line::<f64, P1, Open>::new(n, 0.0, 0.0, 2.0 * PI);
    let dx = 2.0 * PI / a.dx_steps() as f64;
    a.coordinate_fill(|s| (s as f64 * dx).sin());
    let mut b = a.clone();
    a.stencil_map(&mut b, |nb: N1D1<f64>| (nb.r - nb.l) / (2.0 * dx))
        .unwrap();
    a.coordinate_fill(|s| (s as f64 * dx).cos());
    assert!(rel_l2(&b.as_view(), &a.as_view()) < 1e-3);
}

#[test]
fn dx_steps_per_edge_kind() {
    let c = Line::<f64, P1, Closed>::new(128, 0.0, 0.0, 1.0);
    assert_eq!(c.dx_steps(), 127);
    let o = Line::<f64, P1, Open>::new(128, 0.0, 0.0, 1.0);
    assert_eq!(o.dx_steps(), 129);
}

#[test]
fn closed_samples_sit_on_the_endpoints() {
    // nine samples over a domain of length eight: the spacing is exactly
    // one, so the fill sees sample indices 0..=8 and the first and last
    // interior samples land exactly on the endpoints 0 and 8
    let n = 9;
    let length = 8.0;
    let mut a = Line::<f64, P1, Closed>::new(n, -1.0, -1.0, length);
    let dx = length / a.dx_steps() as f64;
    assert_eq!(dx, 1.0);
    a.coordinate_fill(|s| s as f64 * dx);
    let v = a.as_view();
    assert_eq!(v[0], 0.0);
    assert_eq!(v[n - 1], length);
}

#[test]
fn open_samples_avoid_the_endpoints() {
    // eight samples over a domain of length nine: the spacing is exactly
    // one and the fill sees sample indices 1..=8, strictly inside (0, 9)
    let n = 8;
    let length = 9.0;
    let mut a = Line::<f64, P1, Open>::new(n, 0.0, 0.0, length);
    let dx = length / a.dx_steps() as f64;
    assert_eq!(dx, 1.0);
    a.coordinate_fill(|s| s as f64 * dx);
    let v = a.as_view();
    for k in 0..n {
        assert!(v[k] > 0.0);
        assert!(v[k] < length);
    }
    assert_eq!(v[0], 1.0);
    assert_eq!(v[n - 1], 8.0);
}

#[test]
fn halo_holds_exact_boundary_values() {
    // the halo is observable through the stencil: the left neighbor of
    // interior sample 0 and the right neighbor of the last interior sample
    // are halo cells, equal to the configured boundary values exactly
    let n = 6;
    let mut a = Line::<f64, P1, Closed>::new(n, 2.5, -1.5, 1.0);
    a.coordinate_fill(|s| 100.0 + s as f64);
    let mut left = a.clone();
    let mut right = a.clone();
    a.stencil_map(&mut left, |nb: N1D1<f64>| nb.l).unwrap();
    a.stencil_map(&mut right, |nb: N1D1<f64>| nb.r).unwrap();
    assert_eq!(left.as_view()[0], 2.5);
    assert_eq!(right.as_view()[n - 1], -1.5);
}

#[test]
fn two_neighbor_stencil_reads_two_halo_cells() {
    // with two cells of padding, the two-neighbor stencil reaches two
    // cells into the halo at the edge
    let n = 4;
    let mut a = Line::<f64, P2, Open>::new(n, 10.0, 20.0, 5.0);
    a.coordinate_fill(|s| s as f64);
    let mut ll = a.clone();
    let mut rr = a.clone();
    a.stencil_map_n2d1(&mut ll, |nb: N2D1<f64>| nb.ll).unwrap();
    a.stencil_map_n2d1(&mut rr, |nb: N2D1<f64>| nb.rr).unwrap();
    // interior samples are 1, 2, 3, 4 (open edges: sample index i + 1)
    assert_eq!(ll.as_view(), vec![10.0, 10.0, 1.0, 2.0]);
    assert_eq!(rr.as_view(), vec![3.0, 4.0, 20.0, 20.0]);
}

#[test]
fn line_mismatched_shapes_are_rejected() {
    let a = Line::<f64, P1, Closed>::new(8, 0.0, 0.0, 1.0);
    let mut out = Line::<f64, P1, Closed>::new(9, 0.0, 0.0, 1.0);
    assert_eq!(
        a.stencil_map(&mut out, |nb: N1D1<f64>| nb.c),
        Err(StencilError::ShapeMismatch)
    );
}

#[test]
fn line_output_ignores_destination_contents() {
    let n = 12;
    let mut a = Line::<f64, P1, Open>::new(n, 0.5, 0.5, 3.0);
    let dx = 3.0 / a.dx_steps() as f64;
    a.coordinate_fill(|s| (s as f64 * dx) * (s as f64 * dx));
    let mut clean = Line::<f64, P1, Open>::new(n, 0.5, 0.5, 3.0);
    let mut dirty = Line::<f64, P1, Open>::new(n, 0.5, 0.5, 3.0);
    dirty.coordinate_fill(|s| s as f64 * -41.75);
    let f = |nb: N1D1<f64>| (nb.l + nb.r - 2.0 * nb.c) / (dx * dx);
    a.stencil_map(&mut clean, f).unwrap();
    a.stencil_map(&mut dirty, f).unwrap();
    assert_eq!(clean.as_view(), dirty.as_view());
}

#[test]
fn coordinate_map_line_sees_sample_index() {
    let mut a = Line::<f64, P1, Open>::new(4, 0.0, 0.0, 1.0);
    a.coordinate_fill(|s| 10.0 * s as f64);
    a.coordinate_map(|s, v| v + s as f64);
    // open edges: sample indices 1..=4
    assert_eq!(a.as_view(), vec![11.0, 22.0, 33.0, 44.0]);
}

#[test]
fn padding_and_edge_capacities() {
    assert_eq!(P1::len(), 1);
    assert_eq!(P2::len(), 2);
    assert_eq!(P3::len(), 3);
    assert_eq!(Open::len(), 1);
    assert_eq!(Closed::len(), 0);
}

#[test]
fn construction_remembers_configuration() {
    let a = Line::<f64, P3, Open>::new(5, 1.25, -2.5, 7.5);
    assert_eq!(a.left(), 1.25);
    assert_eq!(a.right(), -2.5);
    assert_eq!(a.length(), 7.5);
    assert_eq!(a.shape(), 5);
    assert_eq!(a.as_view(), vec![1.25; 5]);
}

#[test]
fn padding_capacity_admits_smaller_radii() {
    // a grid padded for radius two runs both the one- and two-neighbor
    // stencils
    let n = 8;
    let mut a = Line::<f64, P2, Closed>::new(n, 0.0, 0.0, 7.0);
    a.coordinate_fill(|s| s as f64);
    let mut one = a.clone();
    let mut two = a.clone();
    assert!(a.stencil_map(&mut one, |nb: N1D1<f64>| nb.c).is_ok());
    assert!(a
        .stencil_map_n2d1(&mut two, |nb: N2D1<f64>| nb.c)
        .is_ok());
    assert_eq!(one.as_view(), a.as_view());
    assert_eq!(two.as_view(), a.as_view());
}
