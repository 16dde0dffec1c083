use game_of_life::game::State;

fn place_pattern(state: &mut State, cells: &[((usize, usize), bool)]) {
    cells
        .iter()
        .filter(|(_, live)| *live)
        .for_each(|(cell, _)| state.flip_cell(*cell));
}

#[test]
fn main_count_neighbors() {
    let mut state = State::new((3, 3));
    assert_eq!(0, state.find_live_neighbor_count((1, 1)));
    state.flip_cell((0, 0));
    assert_eq!(1, state.find_live_neighbor_count((1, 1)));
    assert_eq!(0, state.find_live_neighbor_count((0, 0)));
    state.flip_cell((2, 1));
    assert_eq!(1, state.find_live_neighbor_count((2, 2)));
}

#[test]
fn main_test_stills() {
    let block: Vec<((usize, usize), bool)> = vec![
        ((0, 0), false),
        ((1, 0), false),
        ((2, 0), false),
        ((3, 0), false),
        ((0, 1), false),
        ((1, 1), true),
        ((2, 1), true),
        ((3, 1), false),
        ((0, 2), false),
        ((1, 2), true),
        ((2, 2), true),
        ((3, 2), false),
        ((0, 3), false),
        ((1, 3), false),
        ((2, 3), false),
        ((3, 3), false),
    ];

    let loaf: Vec<((usize, usize), bool)> = vec![
        ((0, 0), false),
        ((0, 1), false),
        ((0, 2), false),
        ((0, 3), false),
        ((0, 4), false),
        ((0, 5), false),
        ((1, 0), false),
        ((1, 1), false),
        ((1, 2), false),
        ((1, 3), true),
        ((1, 4), false),
        ((1, 5), false),
        ((2, 0), false),
        ((2, 1), false),
        ((2, 2), true),
        ((2, 3), false),
        ((2, 4), true),
        ((2, 5), false),
        ((3, 0), false),
        ((3, 1), true),
        ((3, 2), false),
        ((3, 3), false),
        ((3, 4), true),
        ((3, 5), false),
        ((4, 0), false),
        ((4, 1), false),
        ((4, 2), true),
        ((4, 3), true),
        ((4, 4), false),
        ((4, 5), false),
        ((5, 0), false),
        ((5, 1), false),
        ((5, 2), false),
        ((5, 3), false),
        ((5, 4), false),
        ((5, 5), false),
    ];

    [block, loaf].iter().for_each(|cell_list| {
        let mut state = State::new((30, 30));
        println!("{:?}", state.grid);
        place_pattern(&mut state, cell_list);

        for _ in 0..10 {
            state.step();
            assert!(state.validate(cell_list));
        }
    })
}

#[test]
fn still_block() {
    let mut state = State::new((4, 4));
    let cells: Vec<((usize, usize), bool)> = vec![
        ((0, 0), false),
        ((1, 0), false),
        ((2, 0), false),
        ((3, 0), false),
        ((0, 1), false),
        ((1, 1), true),
        ((2, 1), true),
        ((3, 1), false),
        ((0, 2), false),
        ((1, 2), true),
        ((2, 2), true),
        ((3, 2), false),
        ((0, 3), false),
        ((1, 3), false),
        ((2, 3), false),
        ((3, 3), false),
    ];
    place_pattern(&mut state, &cells);

    for _ in 0..10 {
        state.step();
        assert!(state.validate(&cells));
    }
}

#[test]
fn still_loaf() {
    let mut state = State::new((6, 6));
    let cells: Vec<((usize, usize), bool)> = vec![
        ((0, 0), false),
        ((0, 1), false),
        ((0, 2), false),
        ((0, 3), false),
        ((0, 4), false),
        ((0, 5), false),
        ((1, 0), false),
        ((1, 1), false),
        ((1, 2), false),
        ((1, 3), true),
        ((1, 4), false),
        ((1, 5), false),
        ((2, 0), false),
        ((2, 1), false),
        ((2, 2), true),
        ((2, 3), false),
        ((2, 4), true),
        ((2, 5), false),
        ((3, 0), false),
        ((3, 1), true),
        ((3, 2), false),
        ((3, 3), false),
        ((3, 4), true),
        ((3, 5), false),
        ((4, 0), false),
        ((4, 1), false),
        ((4, 2), true),
        ((4, 3), true),
        ((4, 4), false),
        ((4, 5), false),
        ((5, 0), false),
        ((5, 1), false),
        ((5, 2), false),
        ((5, 3), false),
        ((5, 4), false),
        ((5, 5), false),
    ];

    place_pattern(&mut state, &cells);

    for _ in 0..10 {
        state.step();
        assert!(state.validate(&cells));
    }
}
