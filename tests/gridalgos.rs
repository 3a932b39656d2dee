use luola::grid::gridalgos::{
    distance, emanation, extract_shortest_path, find_all_shortest_paths, get_neighbors,
};
use luola::grid::{Grid, GridSquare, Tile};

fn test_distance_2way(a: GridSquare, b: GridSquare, expected: i32) {
    assert_eq!(distance(a, b), expected);
    assert_eq!(distance(b, a), expected);
}

#[test]
fn test_distance() {
    test_distance_2way(GridSquare { y: 0, x: 0 }, GridSquare { y: 0, x: 0 }, 0);

    test_distance_2way(GridSquare { y: 0, x: 0 }, GridSquare { y: 0, x: 1 }, 1);
    test_distance_2way(GridSquare { y: 0, x: 0 }, GridSquare { y: 1, x: 0 }, 1);

    test_distance_2way(GridSquare { y: 0, x: 0 }, GridSquare { y: 1, x: 1 }, 1);
    test_distance_2way(GridSquare { y: 0, x: 0 }, GridSquare { y: 2, x: 2 }, 3);
    test_distance_2way(GridSquare { y: 0, x: 0 }, GridSquare { y: 3, x: 3 }, 4);
    test_distance_2way(GridSquare { y: 0, x: 0 }, GridSquare { y: 4, x: 4 }, 6);
    test_distance_2way(GridSquare { y: 0, x: 0 }, GridSquare { y: 5, x: 5 }, 7);

    test_distance_2way(GridSquare { y: 2, x: 3 }, GridSquare { y: 3, x: 6 }, 3);
    test_distance_2way(GridSquare { y: 2, x: 3 }, GridSquare { y: 4, x: 6 }, 4);
}

#[test]
fn test_get_neighbors() {
    let nb = get_neighbors(GridSquare { y: 3, x: 7 });
    assert_eq!(nb.len(), 8);
}

#[test]
fn test_emanation() {
    assert_eq!(emanation(GridSquare { y: 2, x: 4 }, 0).len(), 1);
    assert_eq!(emanation(GridSquare { y: 5, x: 1 }, 1).len(), 9);
    assert_eq!(emanation(GridSquare { y: 4, x: 3 }, 2).len(), 21);
}

#[test]
fn test_shortest_paths() {
    // ...
    // *..
    // ...
    let mut grid = Grid::new(3, 3);
    grid.set_tile(GridSquare { y: 1, x: 0 }, Tile::Wall);

    let source = vec![GridSquare { y: 0, x: 0 }];

    let all_paths = find_all_shortest_paths(&source, 3, &grid);
    let path = extract_shortest_path(&all_paths, GridSquare { y: 2, x: 0 });
    assert!(path.is_some());
    assert_eq!(
        path.unwrap(),
        vec![
            GridSquare { y: 0, x: 0 },
            GridSquare { y: 1, x: 1 },
            GridSquare { y: 2, x: 0 },
        ]
    );

    let all_paths = find_all_shortest_paths(&source, 2, &grid);
    let path = extract_shortest_path(&all_paths, GridSquare { y: 2, x: 0 });
    assert!(path.is_none());
}

#[test]
fn test_unobstructed_shortest_distances() {
    let ny = 11;
    let nx = 11;
    let grid = Grid::new(ny, nx);
    let source = GridSquare {
        y: ny / 2,
        x: nx / 2,
    };

    let all_paths = find_all_shortest_paths(&vec![source], ny, &grid);

    for y in 0..11 {
        for x in 0..11 {
            let dist = all_paths.distance_to(GridSquare { y, x }).unwrap();

            assert_eq!(dist, distance(source, GridSquare { y, x }));
        }
    }
}

#[test]
fn distance_is_symmetric_on_sample_squares() {
    for y in -3..4 {
        for x in -3..4 {
            let a = GridSquare { y, x };
            let b = GridSquare { y: 2 * x, x: y - 1 };
            assert_eq!(distance(a, b), distance(b, a));
        }
    }
}

#[test]
fn emanation_is_ordered_by_distance() {
    let center = GridSquare { y: 10, x: 10 };
    let squares = emanation(center, 3);
    assert_eq!(squares[0], center);
    for w in squares.windows(2) {
        assert!(distance(w[0], center) <= distance(w[1], center));
    }
    assert!(squares.iter().all(|s| distance(*s, center) <= 3));
}

#[test]
fn zero_budget_reaches_only_sources() {
    let grid = Grid::new(4, 4);
    let sources = vec![GridSquare { y: 1, x: 1 }, GridSquare { y: 3, x: 2 }];
    let paths = find_all_shortest_paths(&sources, 0, &grid);
    let reached = paths.reachable_squares();
    assert_eq!(reached, vec![GridSquare { y: 1, x: 1 }, GridSquare { y: 3, x: 2 }]);
    assert_eq!(paths.distance_to(GridSquare { y: 1, x: 1 }), Some(0));
    assert_eq!(paths.distance_to(GridSquare { y: 1, x: 2 }), None);
}

#[test]
fn walls_disconnect_squares() {
    // .#.
    // .#.
    // .#.
    let mut grid = Grid::new(3, 3);
    for y in 0..3 {
        grid.set_tile(GridSquare { y, x: 1 }, Tile::Wall);
    }
    let paths = find_all_shortest_paths(&vec![GridSquare { y: 0, x: 0 }], 100, &grid);
    assert_eq!(paths.distance_to(GridSquare { y: 2, x: 0 }), Some(2));
    assert_eq!(paths.distance_to(GridSquare { y: 0, x: 2 }), None);
    assert_eq!(paths.distance_to(GridSquare { y: 1, x: 1 }), None);
    assert!(extract_shortest_path(&paths, GridSquare { y: 0, x: 2 }).is_none());
}

#[test]
fn second_diagonal_costs_two() {
    let grid = Grid::new(5, 5);
    let paths = find_all_shortest_paths(&vec![GridSquare { y: 0, x: 0 }], 10, &grid);
    assert_eq!(paths.distance_to(GridSquare { y: 1, x: 1 }), Some(1));
    assert_eq!(paths.distance_to(GridSquare { y: 2, x: 2 }), Some(3));
    assert_eq!(paths.distance_to(GridSquare { y: 4, x: 4 }), Some(6));
    assert_eq!(paths.distance_to(GridSquare { y: 9, x: 9 }), None);
}

#[test]
fn grid_tiles_and_bounds() {
    let mut grid = Grid::new(2, 3);
    assert_eq!(grid.height(), 2);
    assert_eq!(grid.width(), 3);
    assert!(grid.valid_square(&GridSquare { y: 1, x: 2 }));
    assert!(!grid.valid_square(&GridSquare { y: 2, x: 0 }));
    assert!(!grid.valid_square(&GridSquare { y: 0, x: -1 }));
    grid.set_tile(GridSquare { y: 1, x: 2 }, Tile::Wall);
    assert_eq!(grid.get_tile(&GridSquare { y: 1, x: 2 }), Some(&Tile::Wall));
    assert_eq!(grid.get_tile(&GridSquare { y: 0, x: 2 }), Some(&Tile::Empty));
    assert_eq!(grid.get_tile(&GridSquare { y: 5, x: 2 }), None);
    assert!(!grid.free_square(&GridSquare { y: 1, x: 2 }));
    assert!(grid.free_square(&GridSquare { y: 0, x: 0 }));
}
