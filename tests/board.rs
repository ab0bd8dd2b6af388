use wireworld::cell::{Board, OutOfRange, State};

const ALL: [State; 4] = [State::Empty, State::Head, State::Tail, State::Wire];

fn row(b: &Board) -> Vec<State> {
    let mut v = Vec::new();
    for x in 0..b.width() {
        v.push(b.get(x, 0));
    }
    v
}

fn board_of(w: usize, h: usize, cells: &[State]) -> Board {
    let mut b = Board::new(w, h);
    for y in 0..h {
        for x in 0..w {
            b.set(x, y, cells[x + y * w]).unwrap();
        }
    }
    b
}

#[test]
fn tick_is_defined_for_every_state_and_count() {
    for s in ALL {
        for n in 0..=8usize {
            let r = s.tick(n);
            assert!(ALL.contains(&r));
        }
    }
}

#[test]
fn empty_is_absorbing() {
    for n in 0..=8usize {
        assert_eq!(State::Empty.tick(n), State::Empty);
    }
}

#[test]
fn head_and_tail_decay() {
    for n in 0..=8usize {
        assert_eq!(State::Head.tick(n), State::Tail);
        assert_eq!(State::Tail.tick(n), State::Wire);
    }
}

#[test]
fn wire_activation() {
    assert_eq!(State::Wire.tick(0), State::Wire);
    assert_eq!(State::Wire.tick(1), State::Head);
    assert_eq!(State::Wire.tick(2), State::Head);
    for k in 3..=8usize {
        assert_eq!(State::Wire.tick(k), State::Wire);
    }
}

#[test]
fn new_board_is_empty() {
    let b = Board::new(4, 3);
    assert_eq!(b.width(), 4);
    assert_eq!(b.height(), 3);
    for y in 0..3 {
        for x in 0..4 {
            assert_eq!(b.get(x, y), State::Empty);
        }
    }
}

#[test]
fn off_board_reads_empty() {
    let zero = Board::new(0, 0);
    assert_eq!(zero.get(0, 0), State::Empty);
    assert_eq!(zero.get(usize::MAX, 5), State::Empty);
    let mut b = board_of(3, 2, &[State::Head; 6]);
    assert_eq!(b.get(2, 1), State::Head);
    assert_eq!(b.get(3, 0), State::Empty);
    assert_eq!(b.get(0, 2), State::Empty);
    assert_eq!(b.get(usize::MAX, usize::MAX), State::Empty);
    b.set(1, 1, State::Wire).unwrap();
    assert_eq!(b.get(1, 1), State::Wire);
}

#[test]
fn set_at_the_edge_is_out_of_range() {
    let mut b = Board::new(3, 2);
    assert_eq!(b.set(3, 0, State::Wire), Err(OutOfRange));
    assert_eq!(b.set(0, 2, State::Wire), Err(OutOfRange));
    assert_eq!(b.set(3, 2, State::Wire), Err(OutOfRange));
    assert_eq!(b.set(2, 1, State::Wire), Ok(()));
    for y in 0..2 {
        for x in 0..3 {
            let want = if (x, y) == (2, 1) { State::Wire } else { State::Empty };
            assert_eq!(b.get(x, y), want);
        }
    }
    let mut zero = Board::new(0, 0);
    assert_eq!(zero.set(0, 0, State::Head), Err(OutOfRange));
}

#[test]
fn neighbors_count_heads_around_a_cell() {
    let b = board_of(3, 3, &[State::Head; 9]);
    assert_eq!(b.neighbors(1, 1), 8);
    assert_eq!(b.neighbors(0, 0), 3);
    assert_eq!(b.neighbors(2, 1), 5);
    assert_eq!(b.neighbors(3, 3), 1);
    assert_eq!(b.neighbors(usize::MAX, usize::MAX), 0);
    let mut c = Board::new(3, 3);
    c.set(1, 1, State::Head).unwrap();
    c.set(0, 0, State::Tail).unwrap();
    c.set(2, 2, State::Wire).unwrap();
    assert_eq!(c.neighbors(1, 1), 0);
    assert_eq!(c.neighbors(0, 0), 1);
}

#[test]
fn empty_board_is_a_fixed_point() {
    let mut b = Board::new(5, 4);
    b.advance_generation();
    assert_eq!(b.width(), 5);
    assert_eq!(b.height(), 4);
    for y in 0..4 {
        for x in 0..5 {
            assert_eq!(b.get(x, y), State::Empty);
        }
    }
    let mut zero = Board::new(0, 0);
    zero.advance_generation();
    assert_eq!(zero.width(), 0);
    assert_eq!(zero.height(), 0);
}

#[test]
fn generation_reads_only_the_previous_snapshot() {
    let (w, h) = (13usize, 9usize);
    let mut seed: u64 = 0x2545_f491_4f6c_dd1d;
    for _ in 0..20 {
        let mut cells = Vec::new();
        for _ in 0..w * h {
            seed = seed.wrapping_mul(6364136223846793005).wrapping_add(1442695040888963407);
            cells.push(ALL[(seed >> 33) as usize % 4]);
        }
        let mut b = board_of(w, h, &cells);
        let snapshot = b.clone();
        b.advance_generation();
        for y in 0..h {
            for x in 0..w {
                let mut heads = 0usize;
                for dy in -1i64..=1 {
                    for dx in -1i64..=1 {
                        let (nx, ny) = (x as i64 + dx, y as i64 + dy);
                        if (dx, dy) != (0, 0)
                            && nx >= 0
                            && ny >= 0
                            && (nx as usize) < w
                            && (ny as usize) < h
                            && cells[nx as usize + ny as usize * w] == State::Head
                        {
                            heads += 1;
                        }
                    }
                }
                let want = match cells[x + y * w] {
                    State::Empty => State::Empty,
                    State::Head => State::Tail,
                    State::Tail => State::Wire,
                    State::Wire => {
                        if heads == 1 || heads == 2 {
                            State::Head
                        } else {
                            State::Wire
                        }
                    }
                };
                assert_eq!(b.get(x, y), want);
                assert_eq!(snapshot.get(x, y), cells[x + y * w]);
            }
        }
    }
}

#[test]
fn pulse_between_two_wires() {
    let mut b = board_of(3, 1, &[State::Wire, State::Head, State::Wire]);
    b.advance_generation();
    assert_eq!(row(&b), vec![State::Head, State::Tail, State::Head]);
}

#[test]
fn pulse_decays_one_generation_later() {
    let mut b = board_of(3, 1, &[State::Wire, State::Head, State::Wire]);
    b.advance_generation();
    assert_eq!(row(&b), vec![State::Head, State::Tail, State::Head]);
    b.advance_generation();
    assert_eq!(row(&b), vec![State::Tail, State::Wire, State::Tail]);
}

#[test]
fn crowded_wire_stays_wire() {
    // A wire with three heads around it does not fire.
    let mut b = board_of(
        3,
        2,
        &[State::Head, State::Head, State::Head, State::Empty, State::Wire, State::Empty],
    );
    b.advance_generation();
    assert_eq!(b.get(1, 1), State::Wire);
    assert_eq!(b.get(0, 0), State::Tail);
}

#[test]
fn clone_keeps_every_cell() {
    let b = board_of(2, 2, &[State::Head, State::Tail, State::Wire, State::Empty]);
    let c = b.clone();
    assert_eq!(c.width(), 2);
    assert_eq!(c.height(), 2);
    for y in 0..2 {
        for x in 0..2 {
            assert_eq!(c.get(x, y), b.get(x, y));
        }
    }
}
