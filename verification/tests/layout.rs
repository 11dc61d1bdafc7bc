use people_clock::tile::{grid_dims, tile_rect, Rect};

fn isqrt_ceil(n: usize) -> usize {
    let mut k = 0usize;
    while k * k < n {
        k += 1;
    }
    k
}

#[test]
fn grid_dims_follow_ceil_sqrt() {
    // columns = ceil(sqrt(n)), rows = ceil(n / columns), each at least 1.
    let expected = [
        (1usize, (1usize, 1usize)),
        (2, (2, 1)),
        (3, (2, 2)),
        (4, (2, 2)),
        (5, (3, 2)),
        (9, (3, 3)),
        (10, (4, 3)),
    ];
    for (n, want) in expected {
        let got = grid_dims(n);
        assert_eq!(got, want, "n = {n}");
        assert_eq!(got.0, isqrt_ceil(n).max(1));
        assert_eq!(got.1, ((n + got.0 - 1) / got.0).max(1));
        assert!(n <= got.0 * got.1);
    }
}

#[test]
fn empty_grid_is_one_blank_cell() {
    assert_eq!(grid_dims(0), (1, 1));
}

fn overlap(a: &Rect, b: &Rect) -> bool {
    a.x < b.x + b.width && b.x < a.x + a.width && a.y < b.y + b.height && b.y < a.y + a.height
}

#[test]
fn tile_rects_unique_in_bounds_non_overlapping() {
    let (w, h) = (1280u32, 720u32);
    for n in [1usize, 2, 3, 4, 5, 9, 10] {
        let (cols, rows) = grid_dims(n);
        let rects: Vec<Rect> = (0..n).map(|i| tile_rect(i, cols, rows, w, h)).collect();
        for (i, r) in rects.iter().enumerate() {
            assert!(r.x + r.width <= w, "n={n} i={i}");
            assert!(r.y + r.height <= h, "n={n} i={i}");
            assert_eq!(r.width, w / cols as u32);
            assert_eq!(r.height, h / rows as u32);
            for (j, r2) in rects.iter().enumerate() {
                if i != j {
                    assert!(
                        !(r.x == r2.x && r.y == r2.y),
                        "tiles {i} and {j} coincide for n={n}"
                    );
                    assert!(!overlap(r, r2), "tiles {i} and {j} overlap for n={n}");
                }
            }
        }
    }
}

#[test]
fn full_grid_covers_surface_modulo_remainder() {
    // With n = cols * rows every point inside the cell area is covered.
    for n in [1usize, 2, 4, 9] {
        let (cols, rows) = grid_dims(n);
        assert_eq!(cols * rows, n);
        let (w, h) = (100u32, 90u32);
        let (tw, th) = (w / cols as u32, h / rows as u32);
        for px in 0..cols as u32 * tw {
            for py in 0..rows as u32 * th {
                let covered = (0..n).any(|i| {
                    let r = tile_rect(i, cols, rows, w, h);
                    r.x <= px && px < r.x + r.width && r.y <= py && py < r.y + r.height
                });
                assert!(covered, "({px},{py}) uncovered for n={n}");
            }
        }
    }
}

#[test]
fn partial_final_row_keeps_uniform_size() {
    // 5 tiles on a 300x200 surface: 3x2 grid, every tile 100x100, the
    // final row not stretched.
    let (cols, rows) = grid_dims(5);
    let r4 = tile_rect(4, cols, rows, 300, 200);
    assert_eq!((r4.x, r4.y, r4.width, r4.height), (100, 100, 100, 100));
}
