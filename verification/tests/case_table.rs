use marching_squares::{
    crossings, midpoint, segments_for, segments_for_code, Cell, ContourError, Crossing, Edge,
    Point, Sample, Segment,
};

fn cell_with_code(code: u8, x: i32, y: i32) -> Cell {
    Cell {
        bot_left: Sample { x, y, state: code & 1 != 0 },
        bot_right: Sample { x: x + 1, y, state: code & 2 != 0 },
        top_right: Sample { x: x + 1, y: y + 1, state: code & 4 != 0 },
        top_left: Sample { x, y: y + 1, state: code & 8 != 0 },
    }
}

fn complement(cell: &Cell) -> Cell {
    Cell {
        bot_left: Sample { state: !cell.bot_left.state, ..cell.bot_left },
        bot_right: Sample { state: !cell.bot_right.state, ..cell.bot_right },
        top_right: Sample { state: !cell.top_right.state, ..cell.top_right },
        top_left: Sample { state: !cell.top_left.state, ..cell.top_left },
    }
}

fn point(x2: i64, y2: i64) -> Point {
    Point { x2, y2 }
}

fn segment(start: Point, end: Point) -> Segment {
    Segment { start, end }
}

// Edge midpoints of the cell at the origin with tile size 20, in half units.
fn left() -> Point {
    point(0, 20)
}

fn right() -> Point {
    point(40, 20)
}

fn bottom() -> Point {
    point(20, 0)
}

fn top() -> Point {
    point(20, 40)
}

#[test]
fn config_code_packs_the_four_corners() {
    let mut seen = [false; 16];
    for tl in [false, true] {
        for tr in [false, true] {
            for br in [false, true] {
                for bl in [false, true] {
                    let cell = Cell {
                        bot_left: Sample { x: 0, y: 0, state: bl },
                        bot_right: Sample { x: 1, y: 0, state: br },
                        top_right: Sample { x: 1, y: 1, state: tr },
                        top_left: Sample { x: 0, y: 1, state: tl },
                    };
                    let expected =
                        (tl as u8) << 3 | (tr as u8) << 2 | (br as u8) << 1 | (bl as u8);
                    let code = cell.config_code();
                    assert_eq!(code, expected);
                    assert!(code <= 15);
                    assert!(!seen[code as usize]);
                    seen[code as usize] = true;
                }
            }
        }
    }
    assert!(seen.iter().all(|hit| *hit));
}

#[test]
fn config_code_of_each_single_corner() {
    assert_eq!(cell_with_code(0, 0, 0).config_code(), 0);
    let mut cell = cell_with_code(0, 0, 0);
    cell.bot_left.state = true;
    assert_eq!(cell.config_code(), 1);
    let mut cell = cell_with_code(0, 0, 0);
    cell.bot_right.state = true;
    assert_eq!(cell.config_code(), 2);
    let mut cell = cell_with_code(0, 0, 0);
    cell.top_right.state = true;
    assert_eq!(cell.config_code(), 4);
    let mut cell = cell_with_code(0, 0, 0);
    cell.top_left.state = true;
    assert_eq!(cell.config_code(), 8);
}

#[test]
fn config_code_ignores_coordinates() {
    for code in 0..16u8 {
        assert_eq!(cell_with_code(code, -7, 1000).config_code(), code);
    }
}

#[test]
fn midpoint_is_the_scaled_sum_in_half_units() {
    let a = Sample { x: 3, y: 4, state: false };
    let b = Sample { x: 4, y: 4, state: true };
    assert_eq!(midpoint(&a, &b, 20), point(140, 160));
    assert_eq!(midpoint(&b, &a, 20), point(140, 160));
    assert_eq!(midpoint(&a, &a, 1), point(6, 8));
    assert_eq!(midpoint(&a, &b, 0), point(0, 0));
}

#[test]
fn midpoint_at_the_ends_of_the_range() {
    let low = Sample { x: i32::MIN, y: i32::MIN, state: false };
    let high = Sample { x: i32::MAX, y: i32::MAX, state: false };
    let t = u16::MAX as i64;
    assert_eq!(midpoint(&low, &low, u16::MAX), point(2 * (i32::MIN as i64) * t, 2 * (i32::MIN as i64) * t));
    assert_eq!(midpoint(&high, &high, u16::MAX), point(2 * (i32::MAX as i64) * t, 2 * (i32::MAX as i64) * t));
    assert_eq!(midpoint(&low, &high, u16::MAX), point(-t, -t));
}

#[test]
fn edge_midpoints_of_a_lattice_cell() {
    let cell = cell_with_code(0, 0, 0);
    assert_eq!(cell.edge_midpoint(Edge::Left, 20), left());
    assert_eq!(cell.edge_midpoint(Edge::Right, 20), right());
    assert_eq!(cell.edge_midpoint(Edge::Bottom, 20), bottom());
    assert_eq!(cell.edge_midpoint(Edge::Top, 20), top());
    let cell = cell_with_code(9, 3, -2);
    assert_eq!(cell.edge_midpoint(Edge::Left, 10), point(60, -30));
    assert_eq!(cell.edge_midpoint(Edge::Right, 10), point(80, -30));
    assert_eq!(cell.edge_midpoint(Edge::Bottom, 10), point(70, -40));
    assert_eq!(cell.edge_midpoint(Edge::Top, 10), point(70, -20));
}

#[test]
fn table_entries_by_code() {
    let one = |from, to| vec![Crossing { from, to }];
    assert_eq!(crossings(0), Ok(vec![]));
    assert_eq!(crossings(15), Ok(vec![]));
    assert_eq!(crossings(1), Ok(one(Edge::Left, Edge::Bottom)));
    assert_eq!(crossings(14), Ok(one(Edge::Left, Edge::Bottom)));
    assert_eq!(crossings(2), Ok(one(Edge::Bottom, Edge::Right)));
    assert_eq!(crossings(13), Ok(one(Edge::Bottom, Edge::Right)));
    assert_eq!(crossings(3), Ok(one(Edge::Left, Edge::Right)));
    assert_eq!(crossings(12), Ok(one(Edge::Left, Edge::Right)));
    assert_eq!(crossings(4), Ok(one(Edge::Top, Edge::Right)));
    assert_eq!(crossings(11), Ok(one(Edge::Top, Edge::Right)));
    assert_eq!(crossings(6), Ok(one(Edge::Bottom, Edge::Top)));
    assert_eq!(crossings(9), Ok(one(Edge::Bottom, Edge::Top)));
    assert_eq!(crossings(7), Ok(one(Edge::Left, Edge::Top)));
    assert_eq!(crossings(8), Ok(one(Edge::Left, Edge::Top)));
    assert_eq!(
        crossings(5),
        Ok(vec![
            Crossing { from: Edge::Left, to: Edge::Top },
            Crossing { from: Edge::Bottom, to: Edge::Right },
        ])
    );
    assert_eq!(
        crossings(10),
        Ok(vec![
            Crossing { from: Edge::Left, to: Edge::Bottom },
            Crossing { from: Edge::Top, to: Edge::Right },
        ])
    );
}

#[test]
fn codes_above_fifteen_are_refused() {
    let cell = cell_with_code(0, 0, 0);
    for code in 16..=255u8 {
        assert_eq!(crossings(code), Err(ContourError::InvalidConfiguration));
        assert_eq!(segments_for_code(&cell, code, 20), Err(ContourError::InvalidConfiguration));
    }
}

#[test]
fn complement_codes_give_identical_segments() {
    let cell = cell_with_code(0, 2, 5);
    for code in 0..16u8 {
        if code == 5 || code == 10 {
            continue;
        }
        assert_eq!(
            segments_for_code(&cell, code, 20),
            segments_for_code(&cell, 15 - code, 20)
        );
        let own = cell_with_code(code, 2, 5);
        assert_eq!(complement(&own).config_code(), 15 - code);
        assert_eq!(segments_for(&complement(&own), 20), segments_for(&own, 20));
    }
}

#[test]
fn saddle_codes_are_resolved_in_opposite_ways() {
    let cell = cell_with_code(0, 0, 0);
    let five = segments_for_code(&cell, 5, 20).unwrap();
    let ten = segments_for_code(&cell, 10, 20).unwrap();
    assert_ne!(five, ten);
    assert_eq!(complement(&cell_with_code(5, 0, 0)).config_code(), 10);
}

#[test]
fn uniform_codes_give_no_segment() {
    for (x, y, tile) in [(0, 0, 20u16), (5, -3, 1), (-100, 100, 65535)] {
        let cell = cell_with_code(0, x, y);
        assert_eq!(segments_for_code(&cell, 0, tile), Ok(vec![]));
        assert_eq!(segments_for_code(&cell, 15, tile), Ok(vec![]));
        assert_eq!(segments_for(&cell_with_code(0, x, y), tile), vec![]);
        assert_eq!(segments_for(&cell_with_code(15, x, y), tile), vec![]);
    }
}

#[test]
fn corner_codes_give_one_segment() {
    let cell = cell_with_code(0, 0, 0);
    let expected = [
        (1u8, segment(left(), bottom())),
        (2, segment(bottom(), right())),
        (4, segment(top(), right())),
        (8, segment(left(), top())),
    ];
    for (code, only) in expected {
        assert_eq!(segments_for_code(&cell, code, 20), Ok(vec![only]));
        assert_eq!(segments_for_code(&cell, 15 - code, 20), Ok(vec![only]));
        assert_eq!(segments_for(&cell_with_code(code, 0, 0), 20), vec![only]);
        assert_eq!(segments_for(&cell_with_code(15 - code, 0, 0), 20), vec![only]);
    }
    for code in [1u8, 2, 4, 7, 8, 11, 13, 14] {
        assert_eq!(segments_for_code(&cell, code, 20).unwrap().len(), 1);
    }
}

#[test]
fn bisecting_codes_give_one_straight_line() {
    let cell = cell_with_code(0, 0, 0);
    let across = segment(left(), right());
    let upright = segment(bottom(), top());
    assert_eq!(segments_for_code(&cell, 3, 20), Ok(vec![across]));
    assert_eq!(segments_for_code(&cell, 12, 20), Ok(vec![across]));
    assert_eq!(segments_for_code(&cell, 6, 20), Ok(vec![upright]));
    assert_eq!(segments_for_code(&cell, 9, 20), Ok(vec![upright]));
    // left to right: level, at half height, from side to side
    assert_eq!(across.start.y2, across.end.y2);
    assert_eq!(across.start.y2, 20);
    assert_eq!((across.start.x2, across.end.x2), (0, 40));
    // bottom to top: upright, at half width, from side to side
    assert_eq!(upright.start.x2, upright.end.x2);
    assert_eq!(upright.start.x2, 20);
    assert_eq!((upright.start.y2, upright.end.y2), (0, 40));
}

#[test]
fn saddle_codes_give_two_segments_that_stay_apart() {
    let cell = cell_with_code(0, 0, 0);
    let five = segments_for_code(&cell, 5, 20).unwrap();
    assert_eq!(five, vec![segment(left(), top()), segment(bottom(), right())]);
    let ten = segments_for_code(&cell, 10, 20).unwrap();
    assert_eq!(ten, vec![segment(left(), bottom()), segment(top(), right())]);
    assert_eq!(segments_for(&cell_with_code(5, 0, 0), 20), five);
    assert_eq!(segments_for(&cell_with_code(10, 0, 0), 20), ten);
    for pair in [&five, &ten] {
        assert_eq!(pair.len(), 2);
        let ends = [pair[0].start, pair[0].end, pair[1].start, pair[1].end];
        for i in 0..4 {
            for j in 0..4 {
                if i != j {
                    assert_ne!(ends[i], ends[j]);
                }
            }
        }
    }
    // never the pairing whose segments cross in the middle of the cell
    let crossing_pair = [segment(left(), right()), segment(bottom(), top())];
    for pair in [&five, &ten] {
        for piece in pair.iter() {
            assert!(!crossing_pair.contains(piece));
        }
    }
    // code 5: y - x is larger along the first segment than along the second
    for a in [five[0].start, five[0].end] {
        for b in [five[1].start, five[1].end] {
            assert!(a.y2 - a.x2 > b.y2 - b.x2);
        }
    }
    // code 10: x + y is smaller along the first segment than along the second
    for a in [ten[0].start, ten[0].end] {
        for b in [ten[1].start, ten[1].end] {
            assert!(a.x2 + a.y2 < b.x2 + b.y2);
        }
    }
}

#[test]
fn saddle_table_entries_use_four_edges() {
    for code in [5u8, 10] {
        let table = crossings(code).unwrap();
        assert_eq!(table.len(), 2);
        let edges = [table[0].from, table[0].to, table[1].from, table[1].to];
        for edge in [Edge::Bottom, Edge::Left, Edge::Top, Edge::Right] {
            assert_eq!(edges.iter().filter(|e| **e == edge).count(), 1);
        }
        for entry in table {
            let opposite = matches!(
                (entry.from, entry.to),
                (Edge::Left, Edge::Right)
                    | (Edge::Right, Edge::Left)
                    | (Edge::Bottom, Edge::Top)
                    | (Edge::Top, Edge::Bottom)
            );
            assert!(!opposite);
        }
    }
}

#[test]
fn segments_scale_with_the_tile_size() {
    let cell = cell_with_code(4, 1, 2);
    // top is ((2x + 1) t, (2y + 2) t), right is ((2x + 2) t, (2y + 1) t)
    assert_eq!(segments_for(&cell, 1), vec![segment(point(3, 6), point(4, 5))]);
    assert_eq!(segments_for(&cell, 20), vec![segment(point(60, 120), point(80, 100))]);
    assert_eq!(segments_for(&cell, 7), vec![segment(point(21, 42), point(28, 35))]);
}

#[test]
fn segments_follow_the_corners_of_a_stretched_cell() {
    // Endpoints are midpoints of the two corners of an edge, whatever the
    // corners are.
    let cell = Cell {
        bot_left: Sample { x: 0, y: 0, state: true },
        bot_right: Sample { x: 4, y: 0, state: true },
        top_right: Sample { x: 4, y: 2, state: false },
        top_left: Sample { x: 0, y: 2, state: false },
    };
    assert_eq!(cell.config_code(), 3);
    assert_eq!(segments_for(&cell, 10), vec![segment(point(0, 20), point(80, 20))]);
}
