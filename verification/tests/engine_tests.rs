use blokus_core_rs::{
    apply_move, decode_action, piece_size, score_player, PIECE_IDS,
    choose_fast_move, create_initial_state, frame_replay, generate_legal_moves, move_piece_size,
    parse_options, play_fast_game, unframe_replay, GameStatus, Lcg, ReplayFrameError, StartPolicy,
    REPLAY_MAGIC,
};

#[test]
fn lcg_steps_exactly() {
    let mut rng = Lcg::new(7);
    assert_eq!(rng.next_u32(), 2118330556);
    assert_eq!(rng.state, 9098160460397411210);
    assert_eq!(rng.next_u32(), 4104526463);
    let mut one = Lcg::new(7);
    assert_eq!(one.index(1), 0);
    assert_eq!(one.state, 7);
    assert_eq!(one.index(10), 2118330556 % 10);
}

#[test]
fn shuffle_is_a_seeded_permutation() {
    let mut rng = Lcg::new(42);
    let mut values: Vec<usize> = (0..10).collect();
    rng.shuffle(&mut values);
    assert_eq!(values, vec![6, 0, 1, 8, 3, 4, 7, 5, 2, 9]);
    assert_eq!(rng.state, 8743034423534012537);
    let mut sorted = values.clone();
    sorted.sort();
    assert_eq!(sorted, (0..10).collect::<Vec<usize>>());
    let mut empty: Vec<usize> = Vec::new();
    rng.shuffle(&mut empty);
    assert!(empty.is_empty());
}

#[test]
fn fast_move_places_a_largest_piece() {
    let state = create_initial_state(StartPolicy::FixedStart);
    let moves = generate_legal_moves(&state);
    let mut rng = Lcg::new(3);
    let chosen = choose_fast_move(&moves, &mut rng);
    assert_eq!(move_piece_size(&chosen), 5);
    assert!(moves.contains(&chosen));
}

#[test]
fn fast_games_finish_with_consistent_records() {
    for seed in 0..3u64 {
        let mut rng = Lcg::new(seed);
        let policy = if seed % 2 == 0 {
            StartPolicy::FixedStart
        } else {
            StartPolicy::ChooseStart
        };
        let game = play_fast_game(policy, &mut rng).expect("fast games always finish");
        assert!(!game.positions.is_empty());
        assert!(game.positions.len() <= 85);
        for (index, position) in game.positions.iter().enumerate() {
            assert!(position.legal_actions.contains(&position.selected_action));
            assert_eq!(position.encoded_state.len(), 51 * 196);
            let expected = if position.player == 0 {
                game.score[0] - game.score[1]
            } else {
                game.score[1] - game.score[0]
            };
            assert_eq!(position.final_score_diff, expected);
            if index == 0 {
                assert_eq!(position.player, 0);
            }
        }
        assert!(game.score[0] <= 20 && game.score[0] >= -89);
        assert!(game.score[1] <= 20 && game.score[1] >= -89);
    }
    let _ = GameStatus::Finished;
}

#[test]
fn fast_games_depend_only_on_the_seed() {
    let mut first = Lcg::new(11);
    let mut second = Lcg::new(11);
    let a = play_fast_game(StartPolicy::FixedStart, &mut first).expect("fast games always finish");
    let b = play_fast_game(StartPolicy::FixedStart, &mut second).expect("fast games always finish");
    assert_eq!(first.state, second.state);
    assert_eq!(a.score, b.score);
    assert_eq!(a.positions.len(), b.positions.len());
    for (p, q) in a.positions.iter().zip(b.positions.iter()) {
        assert_eq!(p.selected_action, q.selected_action);
        assert_eq!(p.legal_actions, q.legal_actions);
    }
    let mut third = Lcg::new(11);
    let first_moves = generate_legal_moves(&create_initial_state(StartPolicy::FixedStart));
    let opening = choose_fast_move(&first_moves, &mut third);
    assert_eq!(a.positions[0].selected_action, blokus_core_rs::encode_action(&opening));
    let opening_actions: Vec<usize> = first_moves.iter().map(blokus_core_rs::encode_action).collect();
    assert_eq!(a.positions[0].legal_actions, opening_actions);
}

#[test]
fn options_come_in_pairs() {
    let args: Vec<String> = ["--games", "4", "--seed", "9"].iter().map(|s| s.to_string()).collect();
    let pairs = parse_options(&args).unwrap();
    assert_eq!(
        pairs,
        vec![
            ("--games".to_owned(), "4".to_owned()),
            ("--seed".to_owned(), "9".to_owned())
        ]
    );
    let odd: Vec<String> = vec!["--games".to_owned(), "4".to_owned(), "--out".to_owned()];
    assert_eq!(parse_options(&odd), Err("--out requires a value".to_owned()));
    assert_eq!(parse_options(&Vec::new()), Ok(Vec::new()));
}

#[test]
fn replay_frames_round_trip() {
    let payload = vec![1u8, 2, 3, 250];
    let framed = frame_replay(&payload);
    assert_eq!(&framed[..8], b"BLKSRP01");
    assert_eq!(&framed[..8], &REPLAY_MAGIC[..]);
    assert_eq!(unframe_replay(&framed), Ok(payload));
    assert_eq!(unframe_replay(&b"BLKS".to_vec()), Err(ReplayFrameError::TooShort));
    assert_eq!(
        unframe_replay(&b"NOTAREPLAYFILE".to_vec()),
        Err(ReplayFrameError::BadMagic)
    );
    assert_eq!(unframe_replay(&frame_replay(&Vec::new())), Ok(Vec::new()));
}

#[test]
fn every_position_of_a_game_keeps_its_accounts() {
    for seed in [5u64, 6u64] {
        let policy = if seed % 2 == 0 {
            StartPolicy::FixedStart
        } else {
            StartPolicy::ChooseStart
        };
        let mut rng = Lcg::new(seed);
        let game = play_fast_game(policy, &mut rng).expect("fast games always finish");
        let mut state = create_initial_state(policy);
        let mut all: Vec<String> = PIECE_IDS.iter().map(|p| p.to_string()).collect();
        all.sort();
        let mut positions = game.positions.iter();
        loop {
            for player in 0..2usize {
                let mut pieces = state.remaining_pieces[player].clone();
                pieces.extend(state.placed_pieces[player].iter().cloned());
                pieces.sort();
                assert_eq!(pieces, all);
                let owned = state.board.iter().filter(|c| **c == player as i8).count();
                let placed: usize = state.placed_pieces[player].iter().map(|p| piece_size(p)).sum();
                assert_eq!(owned, placed);
                if !state.placed_pieces[player].is_empty() || policy == StartPolicy::FixedStart {
                    assert!(state.start_assignment[player].is_some());
                }
                let score = score_player(&state, player);
                assert!((-89..=20).contains(&score));
            }
            assert!(state.board.iter().all(|c| (-1..=1).contains(c)));
            if state.status != GameStatus::Playing {
                break;
            }
            let position = positions.next().expect("a position for every move");
            let mv = decode_action(position.selected_action, state.current_player).unwrap();
            state = apply_move(&state, &mv).expect("recorded moves are legal");
        }
        assert!(positions.next().is_none());
        assert_eq!(score_player(&state, 0), game.score[0]);
        assert_eq!(score_player(&state, 1), game.score[1]);
    }
}
