use filler::text::{chars_of, size_line};
use filler::{best_move, markers, Anfield, Cell, ParseError, Phase, Piece, Position, Robot, State};

fn lines(v: &[&str]) -> Vec<String> {
    v.iter().map(|s| s.to_string()).collect()
}

fn rows(v: &[&str]) -> Vec<Vec<char>> {
    v.iter().map(|s| s.chars().collect()).collect()
}

fn player(id: i32) -> Robot {
    Robot::new(id, markers(id))
}

fn board(v: &[&str], me: &Robot) -> Anfield {
    let r = rows(v);
    let h = r.len() as i32;
    let w = if r.is_empty() { 0 } else { r[0].len() as i32 };
    Anfield::from_rows(w, h, &r, me)
}

fn anchors(g: &Anfield, piece: &Piece, me: &Robot) -> Vec<(i32, i32)> {
    g.potential_positions(piece, me)
        .iter()
        .map(|(p, _)| (p.x, p.y))
        .collect()
}

fn five_by_five_turn() -> Vec<String> {
    lines(&[
        "$$$ exec p1 : [robots/engine]",
        "Anfield 5 5:",
        "    01234",
        "000 @....",
        "001 .....",
        "002 .....",
        "003 .....",
        "004 ....$",
        "Piece 1 1:",
        "*",
    ])
}

#[test]
fn scenario_empty_board_single_cell_piece() {
    let mut state = State::new();
    assert_eq!(state.phase(), Phase::Uninitialized);
    assert_eq!(state.parse(five_by_five_turn(), "robots/engine"), Ok(()));
    assert_eq!(state.phase(), Phase::Playing);
    assert_eq!(state.robot.id, 1);
    assert_eq!(state.opponent.id, 2);
    assert_eq!(state.robot.starting_point, (0, 0));
    assert_eq!(state.opponent.starting_point, (4, 4));
    let piece = state.current_piece.clone();
    let me = state.robot;
    let them = state.opponent;
    // a one-cell piece must cover exactly one cell of its player's territory
    assert_eq!(anchors(&state.anfield, &piece, &me), vec![(0, 0)]);
    assert_eq!(anchors(&state.anfield, &piece, &them), vec![(4, 4)]);
    assert!(!state.anfield.can_place((4, 4), &me, &piece));
    assert!(!state.anfield.can_place((0, 0), &them, &piece));
}

#[test]
fn scenario_two_by_two_piece_touches_once() {
    let me = player(1);
    let g = board(&[".....", ".@...", ".....", ".....", "....$"], &me);
    let piece = Piece::new(rows(&["**", "**"]));
    assert_eq!(anchors(&g, &piece, &me), vec![(0, 0), (1, 0), (0, 1), (1, 1)]);
    let them = player(2);
    assert_eq!(anchors(&g, &piece, &them), vec![(3, 3)]);
    for who in [&me, &them] {
        for (p, _) in g.potential_positions(&piece, who) {
            assert!(g.can_place((p.x, p.y), who, &p.piece));
            assert_eq!(p.robot_idx, who.id);
        }
    }
}

#[test]
fn scenario_single_touch_point() {
    let me = player(1);
    let g = board(&["@@.", "...", "..$"], &me);
    let piece = Piece::new(rows(&["**"]));
    // two own cells under the piece
    assert!(!g.can_place((0, 0), &me, &piece));
    // exactly one
    assert!(g.can_place((1, 0), &me, &piece));
    // none
    assert!(!g.can_place((0, 1), &me, &piece));
    // one own cell is not enough when another lands on the opponent
    let g2 = board(&["@$.", "...", "..."], &me);
    assert!(!g2.can_place((0, 0), &me, &piece));
    assert_eq!(anchors(&g, &piece, &me), vec![(1, 0)]);
}

#[test]
fn off_board_is_never_legal() {
    let me = player(1);
    let g = board(&["...", "...", "..@"], &me);
    let piece = Piece::new(rows(&["**"]));
    assert!(!g.can_place((2, 2), &me, &piece));
    assert!(g.can_place((1, 2), &me, &piece));
    assert!(!g.can_place((-1, 0), &me, &piece));
    assert!(!g.can_place((i32::MAX, i32::MAX), &me, &piece));
    let hollow = Piece::new(rows(&["*.", ".."]));
    // empty footprint cells may hang off the board
    assert!(g.can_place((2, 2), &me, &hollow));
}

#[test]
fn scenario_boxed_in_gives_fallback() {
    let mut state = State::new();
    let turn = lines(&[
        "$$$ exec p1 : [robots/engine]",
        "Anfield 3 3:",
        "    012",
        "000 @..",
        "001 ...",
        "002 ..$",
        "Piece 3 3:",
        "***",
        "***",
        "***",
    ]);
    assert_eq!(state.parse(turn, "robots/engine"), Ok(()));
    let piece = state.current_piece.clone();
    assert!(anchors(&state.anfield, &piece, &state.robot).is_empty());
    assert_eq!(state.next_move(), (0, 0));
    assert_eq!(best_move(&Vec::new()), (0, 0));
}

#[test]
fn next_move_on_empty_board() {
    let mut state = State::new();
    assert_eq!(state.parse(five_by_five_turn(), "robots/engine"), Ok(()));
    assert_eq!(state.next_move(), (0, 0));
    assert_eq!(state.anfield.opp_occupation, vec![Cell::new(4, 4, 2)]);
}

#[test]
fn score_of_corner_anchor() {
    let mut state = State::new();
    assert_eq!(state.parse(five_by_five_turn(), "robots/engine"), Ok(()));
    let me = state.robot;
    state.anfield.update_opp_occupation(&me);
    let scored = state.anfield.potential_positions(&state.current_piece, &me);
    assert_eq!(scored.len(), 1);
    // blocking 0, edge 0, surround |sqrt(32) - 3| = 2
    assert_eq!(scored[0].1, 4);
    assert_eq!(scored[0].0.surround_score(&state.anfield, &me), 2);
    // the same candidate scores the same again
    assert_eq!(scored[0].0.score(&state.anfield, &me), 4);
}

#[test]
fn surround_term_values() {
    let me = player(1);
    let mut g = board(&["@....", ".....", "..$..", ".....", "....."], &me);
    g.update_opp_occupation(&me);
    assert_eq!(g.opp_occupation, vec![Cell::new(2, 2, 2)]);
    let piece = Piece::new(rows(&["*"]));
    let at = |x: i32, y: i32| Position { x, y, robot_idx: 1, piece: piece.clone() };
    // sqrt(8) is between 2 and 3, eight empty cells around: 8 - 2.83 -> 5
    assert_eq!(at(0, 0).surround_score(&g, &me), 5);
    // distance exactly 2: 8 - 2 = 6
    assert_eq!(at(2, 0).surround_score(&g, &me), 6);
    // no frontier at all
    let plain = board(&["@..", "...", "..."], &me);
    assert_eq!(at(0, 0).surround_score(&plain, &me), i32::MAX);
}

#[test]
fn score_with_blocking_and_edge() {
    let me = player(1);
    let mut g = board(&[".....", ".@...", ".....", "...$.", "....."], &me);
    g.update_opp_occupation(&me);
    let piece = Piece::new(rows(&["*"]));
    let pos = Position { x: 2, y: 2, robot_idx: 1, piece };
    // (2, 2) is empty: not legal for a one-cell piece, so score a legal one
    let piece2 = Piece::new(rows(&["**"]));
    let legal = Position { x: 1, y: 1, robot_idx: 1, piece: piece2 };
    assert!(g.can_place((1, 1), &me, &legal.piece));
    // cells (1,1) and (2,1); (2,1) is not next to (3,3), nor is (1,1): no blocking
    // edge: (1+1)/2 + (1+2)/2 = 1 + 1 = 2, 20 * 2 / 5 = 8
    // surround from (1,1) to (3,3): sqrt(8) against 8 empty cells -> 5, twice is 10
    assert_eq!(legal.score(&g, &me), 18);
    assert_eq!(pos.surround_score(&g, &me), 6);
}

#[test]
fn blocking_potential_value() {
    let me = player(1);
    let g = board(&["@....", ".....", "..$..", ".....", "....."], &me);
    // the opponent cell next to (1, 1) has 8 empty neighbours: 20 * 8 / 8 = 20, / 8 = 2
    assert_eq!(Cell::new(1, 1, 1).blocking_potential(&g), 2);
    // a cell of the opponent's own sees nothing to block
    assert_eq!(Cell::new(1, 1, 2).blocking_potential(&g), 0);
    assert_eq!(Cell::new(4, 4, 1).blocking_potential(&g), 0);
}

#[test]
fn neighbours_of_a_corner() {
    let me = player(1);
    let g = board(&["@.", ".$"], &me);
    let n = Cell::new(0, 0, 1).get_neightboor(&g);
    assert_eq!(n, vec![Cell::new(1, 0, 0), Cell::new(0, 1, 0), Cell::new(1, 1, 2)]);
    assert_eq!(Cell::new(5, 5, 0).get_neightboor(&g), vec![]);
}

#[test]
fn frontier_needs_three_empty_neighbours() {
    let me = player(1);
    let mut g = board(&["@@@", "@$.", "@.."], &me);
    g.update_opp_occupation(&me);
    assert_eq!(g.opp_occupation, vec![Cell::new(1, 1, 2)]);
    let mut g2 = board(&["@@@", "@$@", "@.."], &me);
    g2.update_opp_occupation(&me);
    assert!(g2.opp_occupation.is_empty());
}

#[test]
fn opponent_border_lists_empty_neighbours() {
    let me = player(1);
    let g = board(&["@.", "$@"], &me);
    let b = g.get_opponent_border(&me);
    // (1,0) is empty and not mine: its empty neighbours are none;
    // (0,1) is the opponent's: its empty neighbour is (1,0)
    assert_eq!(b, vec![Cell::new(1, 0, 0)]);
}

#[test]
fn board_round_trip() {
    let me = player(2);
    let text = rows(&["..@..", ".$$..", "....@"]);
    let g = Anfield::from_rows(5, 3, &text, &me);
    assert_eq!(g.to_rows(), text);
    let again = Anfield::from_rows(5, 3, &g.to_rows(), &player(1));
    assert_eq!(again.occupation, g.occupation);
    assert_eq!(g.occupation[0], vec![0, 0, 1, 0, 0]);
    assert_eq!(g.occupation[1], vec![0, 2, 2, 0, 0]);
}

#[test]
fn recent_marks_are_owned_too() {
    let me = player(1);
    let g = board(&["a.s", "@.$"], &me);
    assert_eq!(g.occupation, vec![vec![1, 0, 2], vec![1, 0, 2]]);
    assert_eq!(g.to_rows(), rows(&["@.$", "@.$"]));
}

#[test]
fn parse_identity_player_two() {
    let mut state = State::new();
    let turn = lines(&[
        "$$$ exec p2 : [robots/engine]",
        "Anfield 4 2:",
        "    0123",
        "000 @...",
        "001 ...$",
        "Piece 2 1:",
        ".*",
    ]);
    assert_eq!(state.parse(turn, "robots/engine"), Ok(()));
    assert_eq!(state.robot.id, 2);
    assert_eq!(state.robot.characters, ['s', '$']);
    assert_eq!(state.robot.starting_point, (3, 1));
    assert_eq!(state.opponent.starting_point, (0, 0));
    assert_eq!(state.anfield.occupation, vec![vec![1, 0, 0, 0], vec![0, 0, 0, 2]]);
    assert_eq!(state.current_piece.width, 2);
    assert_eq!(state.current_piece.height, 1);
    assert_eq!(state.current_piece.cells, rows(&[".*"]));
}

#[test]
fn parse_p1_of_another_program() {
    let mut state = State::new();
    let mut turn = five_by_five_turn();
    turn[0] = "$$$ exec p1 : [robots/other]".to_string();
    assert_eq!(state.parse(turn, "robots/engine"), Ok(()));
    assert_eq!(state.robot.id, 2);
    assert_eq!(state.robot.starting_point, (4, 4));
}

#[test]
fn later_turns_keep_identity() {
    let mut state = State::new();
    assert_eq!(state.parse(five_by_five_turn(), "robots/engine"), Ok(()));
    let mut turn = five_by_five_turn();
    turn[0] = "$$$ exec p2 : [robots/engine]".to_string();
    turn[3] = "000 @@...".to_string();
    assert_eq!(state.parse(turn, "robots/engine"), Ok(()));
    assert_eq!(state.robot.id, 1);
    assert_eq!(state.robot.starting_point, (0, 0));
    assert_eq!(state.anfield.occupation[0], vec![1, 1, 0, 0, 0]);
    // a turn without a marker or a board keeps both
    let turn = lines(&["Piece 1 1:", "*"]);
    assert_eq!(state.parse(turn, "robots/engine"), Ok(()));
    assert_eq!(state.anfield.occupation[0], vec![1, 1, 0, 0, 0]);
}

#[test]
fn parse_errors() {
    let mut state = State::new();
    let mut bad = five_by_five_turn();
    bad[1] = "Anfield x 5:".to_string();
    assert_eq!(state.parse(bad, "robots/engine"), Err(ParseError::GridSize));
    let mut bad = five_by_five_turn();
    bad[1] = "Anfield 0 5:".to_string();
    assert_eq!(state.parse(bad, "robots/engine"), Err(ParseError::GridSize));
    let mut bad = five_by_five_turn();
    bad.truncate(8);
    assert_eq!(state.parse(bad, "robots/engine"), Err(ParseError::NoPiece));
    let mut bad = five_by_five_turn();
    bad[8] = "Piece 1:".to_string();
    assert_eq!(state.parse(bad, "robots/engine"), Err(ParseError::PieceSize));
    let mut bad = five_by_five_turn();
    bad[8] = "Piece 1 2:".to_string();
    assert_eq!(state.parse(bad, "robots/engine"), Err(ParseError::PieceRows));
    let mut bad = five_by_five_turn();
    bad[9] = "**".to_string();
    assert_eq!(state.parse(bad, "robots/engine"), Err(ParseError::PieceWidth));
    // nothing was taken in
    assert!(!state.started);
    assert_eq!(state.robot.id, 0);
    assert_eq!(state.anfield.width, 0);
}

#[test]
fn size_lines() {
    assert_eq!(size_line(&chars_of("Anfield 20 15:")), Some((20, 15)));
    assert_eq!(size_line(&chars_of("Piece 4 1:")), Some((4, 1)));
    assert_eq!(size_line(&chars_of("Anfield 2147483648 1:")), None);
    assert_eq!(size_line(&chars_of("Anfield 20:")), None);
    assert_eq!(chars_of("héllo"), vec!['h', 'é', 'l', 'l', 'o']);
}

#[test]
fn update_area_grows_the_box() {
    let g = Anfield::new(10, 10);
    let mut r = player(1);
    r.set_starting_point(4, 4);
    assert_eq!(r.area, ((4, 4), (4, 4)));
    let pos = Position { x: 2, y: 5, robot_idx: 1, piece: Piece::new(rows(&["**", "**", "**"])) };
    r.update_area(&pos, &g);
    assert_eq!(r.area, ((2, 4), (4, 7)));
    let far = Position { x: 9, y: 9, robot_idx: 1, piece: Piece::new(rows(&["**"])) };
    r.update_area(&far, &g);
    assert_eq!(r.area, ((2, 4), (10, 9)));
    assert_eq!(r.starting_point, (4, 4));
}

#[test]
fn constructors() {
    let g = Anfield::new(3, 2);
    assert_eq!(g.occupation, vec![vec![0, 0, 0], vec![0, 0, 0]]);
    assert!(g.opp_occupation.is_empty());
    let p = Piece::new(rows(&[".*.", "***"]));
    assert_eq!((p.width, p.height), (3, 2));
    let empty = Piece::new(Vec::new());
    assert_eq!((empty.width, empty.height), (0, 0));
    let r = Robot::new(2, ['s', '$']);
    assert_eq!((r.id, r.area, r.starting_point), (2, ((0, 0), (0, 0)), (0, 0)));
    let c = Cell::new(1, 2, 3);
    assert_eq!((c.x, c.y, c.occupied_by), (1, 2, 3));
    assert_eq!(p.copy(), p);
}

#[test]
fn best_move_prefers_last_of_equal_scores() {
    let piece = Piece::new(rows(&["*"]));
    let at = |x: i32, y: i32| Position { x, y, robot_idx: 1, piece: piece.clone() };
    let c = vec![(at(0, 0), 3), (at(1, 0), 7), (at(2, 0), 7), (at(3, 0), 5)];
    assert_eq!(best_move(&c), (2, 0));
}

#[test]
fn expansion_share_of_empty_neighbours() {
    let me = player(1);
    let g = board(&[".....", ".@...", ".....", "...$.", "....."], &me);
    let pos = Position { x: 1, y: 1, robot_idx: 1, piece: Piece::new(rows(&["**"])) };
    // 8 empty cells around (1,1), 7 around (2,1): 20 * 15 / 16
    assert_eq!(pos.expansion_score(&g), 18);
}

#[test]
fn surround_ignores_frontier_order() {
    let me = player(1);
    let mut g = board(&["@....", "....$", ".....", ".....", "$...."], &me);
    g.update_opp_occupation(&me);
    assert_eq!(g.opp_occupation, vec![Cell::new(4, 1, 2), Cell::new(0, 4, 2)]);
    let pos = Position { x: 0, y: 0, robot_idx: 1, piece: Piece::new(rows(&["*"])) };
    let forward = pos.surround_score(&g, &me);
    g.opp_occupation.reverse();
    assert_eq!(pos.surround_score(&g, &me), forward);
    // nearest is (0, 4) at distance 4; empty around both: 5 + 3 = 8 -> 4
    assert_eq!(forward, 4);
}
