use pumpkin_world::chunk_view_lut::{
    chebyshev_layout, chunk_view_lut, chunk_view_offsets, get_chebyshev_ring, get_chebyshev_square,
    MAX_CHEBYSHEV_RADIUS, MAX_VIEW_DISTANCE,
};

#[test]
fn ring_sizes_and_order() {
    assert_eq!(get_chebyshev_ring(0), vec![(0, 0)]);
    let r1 = get_chebyshev_ring(1);
    assert_eq!(r1, vec![(-1, -1), (-1, 1), (0, -1), (0, 1), (1, -1), (1, 1), (-1, 0), (1, 0)]);
    assert_eq!(get_chebyshev_ring(7).len(), 56);
    // radii past the table are clamped
    assert_eq!(get_chebyshev_ring(200), get_chebyshev_ring(MAX_CHEBYSHEV_RADIUS));
    for r in 0..=MAX_CHEBYSHEV_RADIUS {
        for (x, y) in get_chebyshev_ring(r) {
            assert_eq!((x as i32).abs().max((y as i32).abs()), r as i32);
        }
    }
}

#[test]
fn squares_are_rings_in_order() {
    let sq = get_chebyshev_square(2);
    assert_eq!(sq.len(), 25);
    let mut expected = get_chebyshev_ring(0);
    expected.extend(get_chebyshev_ring(1));
    expected.extend(get_chebyshev_ring(2));
    assert_eq!(sq, expected);
}

#[test]
fn layout_bounds() {
    let layout = chebyshev_layout();
    assert_eq!(layout.offsets.len(), 97 * 97);
    assert_eq!(layout.ring_bounds[0], (0, 1));
    assert_eq!(layout.ring_bounds[1], (1, 9));
    assert_eq!(layout.ring_bounds[48], (95 * 95, 97 * 97));
    assert_eq!(layout.square_bounds[3], 49);
    let (s, e) = layout.ring_bounds[5];
    assert_eq!(layout.offsets[s..e].to_vec(), get_chebyshev_ring(5));
}

#[test]
fn view_offsets_nearest_first() {
    assert!(chunk_view_offsets(0).is_empty());
    assert!(chunk_view_offsets(1).is_empty());
    let two = chunk_view_offsets(2);
    // the 7 by 7 square: one step past the inner 5 by 5 is still in view
    assert_eq!(two.len(), 49);
    assert_eq!(two[0], (0, 0));
    let keys: Vec<i32> = two.iter().map(|&(x, z)| (x as i32).pow(2) + (z as i32).pow(2)).collect();
    for w in keys.windows(2) {
        assert!(w[0] <= w[1]);
    }
    // offsets of equal length keep their scan order (z, then x)
    assert_eq!(&two[1..5], &[(0, -1), (-1, 0), (1, 0), (0, 1)]);
}

#[test]
fn view_lut_covers_all_distances() {
    let lut = chunk_view_lut();
    assert_eq!(lut.len(), MAX_VIEW_DISTANCE as usize + 1);
    assert_eq!(lut[10], chunk_view_offsets(10));
    for d in 2..=MAX_VIEW_DISTANCE as usize {
        assert!(lut[d].len() > lut[d - 1].len());
    }
}
