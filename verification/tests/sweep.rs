use marching_squares::{extract, segments_for, CellContour, Point, SampleGrid, Segment};

#[test]
fn extract_pairs_every_cell_with_its_segments() {
    let grid = SampleGrid::build(3, 3, |x, y| x == 1 && y == 1).unwrap();
    let contours = extract(&grid, 1, 20);
    assert_eq!(contours.len(), 4);
    let cells = grid.cells(1);
    for (contour, cell) in contours.iter().zip(cells.iter()) {
        assert_eq!(contour.cell, *cell);
        assert_eq!(contour.segments, segments_for(cell, 20));
    }
    let seg = |a: (i64, i64), b: (i64, i64)| Segment {
        start: Point { x2: a.0, y2: a.1 },
        end: Point { x2: b.0, y2: b.1 },
    };
    // cells in order: (0, 0), (0, 1), (1, 0), (1, 1), with codes 4, 2, 8, 1
    assert_eq!(contours[0].segments, vec![seg((20, 40), (40, 20))]);
    assert_eq!(contours[1].segments, vec![seg((20, 40), (40, 60))]);
    assert_eq!(contours[2].segments, vec![seg((40, 20), (60, 40))]);
    assert_eq!(contours[3].segments, vec![seg((40, 60), (60, 40))]);
}

#[test]
fn extract_with_stride_two_on_four_by_four() {
    let grid = SampleGrid::build(4, 4, |x, _| x == 0).unwrap();
    let contours = extract(&grid, 2, 20);
    assert_eq!(contours.len(), 1);
    assert_eq!(
        contours[0],
        CellContour {
            cell: grid.cell_at(0, 0).unwrap(),
            segments: vec![Segment {
                start: Point { x2: 20, y2: 0 },
                end: Point { x2: 20, y2: 40 },
            }],
        }
    );
    assert_eq!(extract(&grid, 1, 20).len(), 9);
}

#[test]
fn extract_of_a_uniform_grid_has_cells_and_no_segments() {
    for state in [false, true] {
        let grid = SampleGrid::build(5, 4, |_, _| state).unwrap();
        let contours = extract(&grid, 1, 20);
        assert_eq!(contours.len(), 12);
        assert!(contours.iter().all(|c| c.segments.is_empty()));
    }
}

#[test]
fn rebuilding_with_the_same_generator_gives_the_same_output() {
    let field = |x: i32, y: i32| (x * x + 3 * y) % 5 < 2;
    let first = SampleGrid::build(9, 7, field).unwrap();
    let second = SampleGrid::build(9, 7, field).unwrap();
    assert_eq!(first, second);
    assert_eq!(extract(&first, 1, 20), extract(&second, 1, 20));
    assert_eq!(extract(&first, 2, 20), extract(&second, 2, 20));
}

#[test]
fn rebuilding_with_the_same_seed_gives_the_same_output() {
    let first = SampleGrid::seeded(16, 12, 42).unwrap();
    let second = SampleGrid::seeded(16, 12, 42).unwrap();
    assert_eq!(first, second);
    for x in 0..16 {
        for y in 0..12 {
            assert_eq!(first.sample_at(x, y), second.sample_at(x, y));
        }
    }
    assert_eq!(extract(&first, 1, 20), extract(&second, 1, 20));
    assert_eq!(extract(&first, 2, 20), extract(&second, 2, 20));
}
