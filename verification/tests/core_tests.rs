use blokus_core_rs::{
    action_size, apply_move, create_initial_state, decode_action, encode_action,
    encode_state_tensor, generate_legal_moves, get_orientation, get_orientations, is_terminal,
    orientation_count, orientations, other, pass_action, piece_size, score_player, score_state,
    GameStatus, Move, StartPoint, StartPolicy, ACTION_SIZE, BOARD_CELLS, BOARD_SIZE, EMPTY,
    PASS_ACTION, PIECE_IDS, STATE_PLANES,
};

#[test]
fn orientation_and_action_counts_match_js_core() {
    assert_eq!(PIECE_IDS.len(), 21);
    assert_eq!(orientation_count(), 91);
    assert_eq!(pass_action(), 91 * 14 * 14);
    assert_eq!(action_size(), 91 * 14 * 14 + 1);
}

#[test]
fn initial_legal_move_counts_match_js_core() {
    let choose = create_initial_state(StartPolicy::ChooseStart);
    let fixed = create_initial_state(StartPolicy::FixedStart);
    assert_eq!(generate_legal_moves(&choose).len(), 116);
    assert_eq!(generate_legal_moves(&fixed).len(), 58);
}

#[test]
fn action_encode_decode_round_trips() {
    let state = create_initial_state(StartPolicy::FixedStart);
    for mv in generate_legal_moves(&state) {
        let action = encode_action(&mv);
        assert_eq!(decode_action(action, state.current_player), Some(mv));
    }
    assert_eq!(
        decode_action(pass_action(), 1),
        Some(Move::Pass { player: 1 })
    );
}

#[test]
fn apply_move_and_score_match_initial_expectations() {
    let state = create_initial_state(StartPolicy::FixedStart);
    assert_eq!(score_state(&state), [-89, -89]);
    let first = generate_legal_moves(&state)[0].clone();
    let next = apply_move(&state, &first).expect("first move should be legal");
    assert_eq!(next.current_player, 1);
    assert_eq!(next.turn, 1);
    assert_eq!(next.remaining_pieces[0].len(), 20);
    assert_eq!(
        encode_state_tensor(&next, 0).len(),
        STATE_PLANES * BOARD_CELLS
    );
}

#[test]
fn other_swaps_the_two_players() {
    assert_eq!(other(0), 1);
    assert_eq!(other(1), 0);
    assert_eq!(other(other(1)), 1);
}

#[test]
fn orientation_table_lookups() {
    let all = orientations();
    assert_eq!(all.len(), 91);
    for (g, orientation) in all.iter().enumerate() {
        assert_eq!(orientation.global_id, g);
        assert_eq!(orientation.cells.len(), orientation.unit_squares);
        assert!(orientation.cells.iter().any(|c| c[0] == 0));
        assert!(orientation.cells.iter().any(|c| c[1] == 0));
    }
    let monomino = get_orientation(0).expect("orientation 0 exists");
    assert_eq!(monomino.piece_id, "I1");
    assert_eq!(monomino.cells, vec![[0, 0]]);
    assert_eq!((monomino.width, monomino.height), (1, 1));
    assert!(get_orientation(91).is_none());
    assert_eq!(get_orientations("L5").len(), 8);
    assert_eq!(get_orientations("X5").len(), 1);
    assert_eq!(get_orientations("Q9").len(), 0);
    assert_eq!(piece_size("X5"), 5);
    assert_eq!(piece_size("V3"), 3);
    assert_eq!(piece_size("Q9"), 0);
    let total: usize = PIECE_IDS.iter().map(|p| piece_size(p)).sum();
    assert_eq!(total, 89);
}

#[test]
fn decode_action_exact_values() {
    let action = 5 * BOARD_CELLS + 3 * BOARD_SIZE + 2;
    assert_eq!(
        decode_action(action, 0),
        Some(Move::Place {
            player: 0,
            piece_id: "V3".to_owned(),
            orientation_global_id: 5,
            x: 2,
            y: 3,
        })
    );
    assert_eq!(decode_action(ACTION_SIZE, 0), None);
    assert_eq!(decode_action(usize::MAX, 1), None);
    assert_eq!(encode_action(&Move::Pass { player: 0 }), PASS_ACTION);
    assert_eq!(
        encode_action(&Move::Place {
            player: 1,
            piece_id: "V3".to_owned(),
            orientation_global_id: 5,
            x: 2,
            y: 3,
        }),
        action
    );
}

#[test]
fn every_action_decodes_and_encodes_back() {
    for action in 0..ACTION_SIZE {
        let mv = decode_action(action, 1).expect("every action decodes");
        assert_eq!(encode_action(&mv), action);
    }
}

#[test]
fn illegal_moves_are_refused() {
    let state = create_initial_state(StartPolicy::FixedStart);
    assert_eq!(
        apply_move(&state, &Move::Pass { player: 0 }).err(),
        Some("Illegal move".to_owned())
    );
    let away_from_start = Move::Place {
        player: 0,
        piece_id: "I1".to_owned(),
        orientation_global_id: 0,
        x: 5,
        y: 5,
    };
    assert!(apply_move(&state, &away_from_start).is_err());
    let wrong_player = Move::Place {
        player: 1,
        piece_id: "I1".to_owned(),
        orientation_global_id: 0,
        x: 0,
        y: 0,
    };
    assert!(apply_move(&state, &wrong_player).is_err());
    let wrong_piece = Move::Place {
        player: 0,
        piece_id: "I2".to_owned(),
        orientation_global_id: 0,
        x: 0,
        y: 0,
    };
    assert!(apply_move(&state, &wrong_piece).is_err());
}

#[test]
fn choose_start_assigns_the_covered_corner() {
    let state = create_initial_state(StartPolicy::ChooseStart);
    let corner = Move::Place {
        player: 0,
        piece_id: "I1".to_owned(),
        orientation_global_id: 0,
        x: 13,
        y: 13,
    };
    let next = apply_move(&state, &corner).expect("covering B is legal under chooseStart");
    assert_eq!(
        next.start_assignment,
        [Some(StartPoint::B), Some(StartPoint::A)]
    );
    assert_eq!(next.board[13 * BOARD_SIZE + 13], 0);
    assert_eq!(next.placed_pieces[0], vec!["I1".to_owned()]);
    assert_eq!(next.last_placed_piece[0], Some("I1".to_owned()));
    let opponent_moves = generate_legal_moves(&next);
    assert!(!opponent_moves.is_empty());
    for mv in &opponent_moves {
        match mv {
            Move::Place {
                orientation_global_id,
                x,
                y,
                ..
            } => {
                let o = get_orientation(*orientation_global_id).unwrap();
                assert!(o.cells.iter().any(|c| (c[0] as usize + x, c[1] as usize + y) == (0, 0)));
            }
            Move::Pass { .. } => panic!("the opponent can place"),
        }
    }
}

#[test]
fn moves_keep_occupied_cells_and_pieces() {
    let mut state = create_initial_state(StartPolicy::FixedStart);
    for _ in 0..6 {
        let moves = generate_legal_moves(&state);
        let mv = moves[moves.len() / 2].clone();
        let next = apply_move(&state, &mv).unwrap();
        for k in 0..BOARD_CELLS {
            if state.board[k] != EMPTY {
                assert_eq!(next.board[k], state.board[k]);
            }
            if next.board[k] != state.board[k] {
                assert_eq!(next.board[k], state.current_player as i8);
            }
        }
        for player in 0..2 {
            assert_eq!(
                next.remaining_pieces[player].len() + next.placed_pieces[player].len(),
                21
            );
        }
        state = next;
    }
}

#[test]
fn second_piece_must_touch_a_corner_only() {
    let state = create_initial_state(StartPolicy::FixedStart);
    let first = Move::Place {
        player: 0,
        piece_id: "I1".to_owned(),
        orientation_global_id: 0,
        x: 0,
        y: 0,
    };
    let after_first = apply_move(&state, &first).unwrap();
    let reply = Move::Place {
        player: 1,
        piece_id: "I1".to_owned(),
        orientation_global_id: 0,
        x: 13,
        y: 13,
    };
    let after_reply = apply_move(&after_first, &reply).unwrap();
    let edge = Move::Place {
        player: 0,
        piece_id: "I2".to_owned(),
        orientation_global_id: 1,
        x: 1,
        y: 0,
    };
    assert!(apply_move(&after_reply, &edge).is_err());
    let corner = Move::Place {
        player: 0,
        piece_id: "I2".to_owned(),
        orientation_global_id: 1,
        x: 1,
        y: 1,
    };
    assert!(apply_move(&after_reply, &corner).is_ok());
}

#[test]
fn initial_state_is_not_terminal_and_scores() {
    let state = create_initial_state(StartPolicy::FixedStart);
    assert!(!is_terminal(&state));
    assert_eq!(state.status, GameStatus::Playing);
    let mut done = create_initial_state(StartPolicy::FixedStart);
    done.remaining_pieces[0].clear();
    done.last_placed_piece[0] = Some("I1".to_owned());
    assert_eq!(score_player(&done, 0), 20);
    done.last_placed_piece[0] = Some("I2".to_owned());
    assert_eq!(score_player(&done, 0), 15);
    assert_eq!(score_player(&done, 1), -89);
}

#[test]
fn encoded_planes_of_the_initial_state() {
    let state = create_initial_state(StartPolicy::FixedStart);
    let planes = encode_state_tensor(&state, 0);
    let at = |plane: usize, x: usize, y: usize| planes[plane * BOARD_CELLS + y * BOARD_SIZE + x];
    for y in 0..BOARD_SIZE {
        for x in 0..BOARD_SIZE {
            assert_eq!(at(0, x, y), 0);
            assert_eq!(at(2, x, y), 1);
            assert_eq!(at(5, x, y), 0);
            for plane in 9..51 {
                assert_eq!(at(plane, x, y), 1);
            }
        }
    }
    assert_eq!(at(3, 0, 0), 1);
    assert_eq!(at(3, 1, 0), 0);
    assert_eq!(at(7, 0, 0), 1);
    assert_eq!(at(8, 0, 0), 1);
    let seen_by_second = encode_state_tensor(&state, 1);
    assert_eq!(seen_by_second[7 * BOARD_CELLS + 13 * BOARD_SIZE + 13], 1);
    assert_eq!(seen_by_second[3 * BOARD_CELLS], 0);
}

#[test]
fn encoded_planes_turn_the_board_for_the_second_player() {
    let state = create_initial_state(StartPolicy::FixedStart);
    let first = Move::Place {
        player: 0,
        piece_id: "I1".to_owned(),
        orientation_global_id: 0,
        x: 0,
        y: 0,
    };
    let next = apply_move(&state, &first).unwrap();
    let mine = encode_state_tensor(&next, 0);
    let theirs = encode_state_tensor(&next, 1);
    assert_eq!(mine[0], 1);
    assert_eq!(theirs[BOARD_CELLS + 13 * BOARD_SIZE + 13], 1);
    assert_eq!(mine[9 * BOARD_CELLS], 0);
    assert_eq!(mine[30 * BOARD_CELLS], 1);
    assert_eq!(mine[3 * BOARD_CELLS + BOARD_SIZE + 1], 1);
    assert_eq!(mine[5 * BOARD_CELLS + 1], 1);
}

#[test]
fn legal_moves_come_in_generation_order() {
    let state = create_initial_state(StartPolicy::FixedStart);
    let moves = generate_legal_moves(&state);
    assert_eq!(
        moves[0],
        Move::Place { player: 0, piece_id: "I1".to_owned(), orientation_global_id: 0, x: 0, y: 0 }
    );
    let key = |mv: &Move| match mv {
        Move::Place { piece_id, orientation_global_id, x, y, .. } => {
            let piece = PIECE_IDS.iter().position(|p| p == piece_id).unwrap();
            (piece, *orientation_global_id, *y, *x)
        }
        Move::Pass { .. } => panic!("a fresh game has placements"),
    };
    for pair in moves.windows(2) {
        assert!(key(&pair[0]) < key(&pair[1]));
    }
}
