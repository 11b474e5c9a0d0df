//! Fast self-play: both players repeatedly place one of their largest
//! pieces, chosen at random among the legal moves, until the game ends.
use vstd::prelude::*;
use crate::table::{ACTION_SIZE, BOARD_CELLS, BOARD_SIZE, STATE_PLANES};
use crate::types::{GameStatus, Move, MoveModel, StartPolicy, State, StateModel};
use crate::rules::{legal_move, legal_moves_in_order, moves_view};
use crate::game::{apply_move, create_initial_state, generate_legal_moves, initial_state, next_state, other_player};
use crate::action::{action_of, decoded, encode_action, lemma_legal_move_round_trip};
use crate::features::{encode_state_tensor, plane_on};
use crate::score::{score_of, score_state};
use crate::rng::{choose_fast_move, fast_choice, move_piece_size_of, Lcg};
use crate::laws::{lemma_initial_state_invariant, lemma_legal_move_progress, play_invariant, progress_measure};

verus! {

/// One position of a fast self-play game, from the mover's point of view.
#[derive(Debug)]
pub struct FastPosition {
    pub player: usize,
    pub encoded_state: Vec<u8>,
    pub legal_actions: Vec<usize>,
    pub selected_action: usize,
    pub final_score_diff: isize,
}

/// A finished fast self-play game: its positions in order and the final scores.
#[derive(Debug)]
pub struct FastGame {
    pub positions: Vec<FastPosition>,
    pub score: [isize; 2],
}

/// `states` and `moves` are a complete game from the initial state: each
/// move is legal where it is played and leads to the next state, and the
/// last state is finished.
pub open spec fn is_game_record(
    start_policy: StartPolicy,
    states: Seq<StateModel>,
    moves: Seq<MoveModel>,
) -> bool {
    &&& states.len() == moves.len() + 1
    &&& states[0] == initial_state(start_policy)
    &&& states.last().status == GameStatus::Finished
    &&& forall|i: int|
        0 <= i < moves.len() ==> {
            &&& states[i].status == GameStatus::Playing
            &&& legal_move(states[i], #[trigger] moves[i])
            &&& states[i + 1] == next_state(states[i], moves[i])
        }
}

/// The fast game from position `s` with generator state `seed`, for at most
/// `limit` moves: the positions met (ending where it stopped), the moves
/// played and the generator state after. In each position the fast policy
/// picks among the legal moves in generation order.
pub open spec fn fast_play(s: StateModel, seed: u64, limit: nat) -> (Seq<StateModel>, Seq<MoveModel>, u64)
    decreases limit,
{
    if limit == 0 || s.status != GameStatus::Playing {
        (seq![s], Seq::empty(), seed)
    } else {
        let choice = fast_choice(legal_moves_in_order(s), seed);
        let rest = fast_play(next_state(s, choice.0), choice.1, (limit - 1) as nat);
        (seq![s] + rest.0, seq![choice.0] + rest.1, rest.2)
    }
}

/// `action` is the action of some legal move in `s`.
pub open spec fn is_legal_action(s: StateModel, action: int) -> bool {
    exists|l: MoveModel| #[trigger] legal_move(s, l) && action_of(l) == action
}

/// Position `p` records the move `m` played in state `s`, in a game that
/// ended with `score`: the mover, the encoding of `s` for the mover, the
/// actions of the legal moves in generation order, the action of `m` (a legal move placing as
/// many unit squares as any), and the mover's final score margin.
#[verifier::opaque]
pub open spec fn records_position(p: FastPosition, s: StateModel, m: MoveModel, score: [isize; 2]) -> bool {
    &&& p.player == s.current_player
    &&& legal_move(s, m)
    &&& p.selected_action == action_of(m)
    &&& p.legal_actions@ == legal_moves_in_order(s).map_values(|l: MoveModel| action_of(l) as usize)
    &&& forall|k: int| 0 <= k < p.legal_actions@.len() ==> is_legal_action(s, #[trigger] p.legal_actions@[k] as int)
    &&& forall|l: MoveModel| legal_move(s, l) ==> p.legal_actions@.contains((#[trigger] action_of(l)) as usize)
    &&& forall|l: MoveModel| legal_move(s, l) ==> #[trigger] move_piece_size_of(l) <= move_piece_size_of(m)
    &&& p.encoded_state@.len() == STATE_PLANES * BOARD_CELLS
    &&& forall|plane: int, x: int, y: int|
        0 <= plane < STATE_PLANES && 0 <= x < BOARD_SIZE && 0 <= y < BOARD_SIZE
            ==> #[trigger] p.encoded_state@[plane * BOARD_CELLS + y * BOARD_SIZE + x] == (if plane_on(
            s,
            s.current_player,
            plane,
            x,
            y,
        ) {
            1u8
        } else {
            0u8
        })
    &&& p.final_score_diff == score[p.player as int] - score[other_player(p.player as nat) as int]
}

/// The actions of a list of legal moves.
fn legal_action_list(state: &State, moves: &Vec<Move>) -> (r: Vec<usize>)
    requires
        state.wf(),
        forall|i: int| 0 <= i < moves@.len() ==> legal_move(state@, #[trigger] moves_view(*moves)[i]),
        forall|m: MoveModel| legal_move(state@, m) ==> #[trigger] moves_view(*moves).contains(m),
    ensures
        r@ == moves_view(*moves).map_values(|l: MoveModel| action_of(l) as usize),
        forall|k: int| 0 <= k < r@.len() ==> is_legal_action(state@, #[trigger] r@[k] as int),
        forall|l: MoveModel| legal_move(state@, l) ==> r@.contains((#[trigger] action_of(l)) as usize),
{
    let mut r: Vec<usize> = Vec::new();
    let mut i: usize = 0;
    while i < moves.len()
        invariant
            i <= moves@.len(),
            r@.len() == i,
            forall|k: int| 0 <= k < moves@.len() ==> legal_move(state@, #[trigger] moves_view(*moves)[k]),
            forall|k: int| 0 <= k < i ==> #[trigger] r@[k] == action_of(moves_view(*moves)[k]),
        decreases moves@.len() - i,
    {
        proof {
            lemma_legal_move_round_trip(state@, moves_view(*moves)[i as int]);
        }
        assert(moves_view(*moves)[i as int] == moves@[i as int]@);
        r.push(encode_action(&moves[i]));
        i = i + 1;
    }
    proof {
        assert(r@ =~= moves_view(*moves).map_values(|l: MoveModel| action_of(l) as usize));
        assert forall|k: int| 0 <= k < r@.len() implies is_legal_action(state@, #[trigger] r@[k] as int) by {
            assert(legal_move(state@, moves_view(*moves)[k]));
        }
        assert forall|l: MoveModel| legal_move(state@, l) implies r@.contains(
            (#[trigger] action_of(l)) as usize,
        ) by {
            assert(moves_view(*moves).contains(l));
            let k = choose|k: int| 0 <= k < moves_view(*moves).len() && moves_view(*moves)[k] == l;
            assert(r@[k] == action_of(l));
        }
    }
    r
}

/// Plays one fast move in `state`: records the position and returns it with the move and the next state.
fn fast_step(state: &State, rng: &mut Lcg) -> (r: (Move, FastPosition, State))
    requires
        play_invariant(state@),
        state.wf(),
        state.status == GameStatus::Playing,
        state.turn < usize::MAX,
    ensures
        records_position(r.1, state@, r.0@, [0isize, 0isize]),
        (r.0@, final(rng).state) == fast_choice(legal_moves_in_order(state@), old(rng).state),
        legal_move(state@, r.0@),
        r.2@ == next_state(state@, r.0@),
        r.2.wf(),
{
    let player = state.current_player;
    let moves = generate_legal_moves(state);
    let legal_actions = legal_action_list(state, &moves);
    let selected = choose_fast_move(&moves, rng);
    proof {
        lemma_legal_move_round_trip(state@, selected@);
        lemma_legal_move_progress(state@, selected@);
        assert forall|l: MoveModel| legal_move(state@, l) implies #[trigger] move_piece_size_of(l)
            <= move_piece_size_of(selected@) by {
            assert(moves_view(moves).contains(l));
            let k = choose|k: int| 0 <= k < moves_view(moves).len() && moves_view(moves)[k] == l;
            crate::rng::lemma_max_piece_size_bounds(moves_view(moves), k);
        }
    }
    let selected_action = encode_action(&selected);
    let encoded_state = encode_state_tensor(state, player);
    let position = FastPosition {
        player,
        encoded_state,
        legal_actions,
        selected_action,
        final_score_diff: 0,
    };
    proof {
        reveal(records_position);
    }
    let next = match apply_move(state, &selected) {
        Ok(next) => next,
        Err(_) => {
            proof {
                assert(false);
            }
            state.clone()
        },
    };
    (selected, position, next)
}

/// A recorded position names the player to move.
proof fn lemma_position_player(p: FastPosition, s: StateModel, m: MoveModel)
    requires
        records_position(p, s, m, [0isize, 0isize]),
    ensures
        p.player == s.current_player,
{
    reveal(records_position);
}

/// A recorded position stays recorded once the final margin is filled in.
proof fn lemma_rescore(p: FastPosition, q: FastPosition, s: StateModel, m: MoveModel, score: [isize; 2])
    requires
        records_position(p, s, m, [0isize, 0isize]),
        q.player == p.player,
        q.encoded_state == p.encoded_state,
        q.legal_actions == p.legal_actions,
        q.selected_action == p.selected_action,
        q.final_score_diff == score[p.player as int] - score[other_player(p.player as nat) as int],
    ensures
        records_position(q, s, m, score),
{
    reveal(records_position);
}

/// Plays one fast self-play game from the initial state of `start_policy`,
/// drawing every choice from `rng`. The game is the fast game from the
/// initial state with the generator's state, which ends within
/// `progress_measure` of the initial state moves.
pub fn play_fast_game(start_policy: StartPolicy, rng: &mut Lcg) -> (r: Result<FastGame, String>)
    ensures
        r is Ok,
        r matches Ok(game) ==> {
            let run = fast_play(
                initial_state(start_policy),
                old(rng).state,
                progress_measure(initial_state(start_policy)),
            );
            &&& final(rng).state == run.2
            &&& is_game_record(start_policy, run.0, run.1)
            &&& game.positions@.len() == run.1.len()
            &&& game.score[0] == score_of(run.0.last(), 0)
            &&& game.score[1] == score_of(run.0.last(), 1)
            &&& forall|i: int|
                0 <= i < run.1.len() ==> records_position(
                    #[trigger] game.positions@[i],
                    run.0[i],
                    run.1[i],
                    game.score,
                )
        },
{
    let mut state = create_initial_state(start_policy);
    let ghost mut states: Seq<StateModel> = seq![state@];
    let ghost mut played: Seq<MoveModel> = Seq::empty();
    let mut positions: Vec<FastPosition> = Vec::new();
    proof {
        lemma_initial_state_invariant(start_policy);
    }
    let ghost mut limit: nat = progress_measure(state@);
    let ghost run = fast_play(state@, rng.state, limit);
    while state.status == GameStatus::Playing
        invariant
            play_invariant(state@),
            state.wf(),
            state.turn + progress_measure(state@) <= 85,
            state@.remaining_pieces[0].len() <= 21,
            state@.remaining_pieces[1].len() <= 21,
            states.len() == played.len() + 1,
            states[0] == initial_state(start_policy),
            states.last() == state@,
            limit >= progress_measure(state@),
            run == fast_play(initial_state(start_policy), old(rng).state, progress_measure(initial_state(start_policy))),
            run.0 == states.drop_last() + fast_play(state@, rng.state, limit).0,
            run.1 == played + fast_play(state@, rng.state, limit).1,
            run.2 == fast_play(state@, rng.state, limit).2,
            forall|i: int| 0 <= i < states.len() ==> #[trigger] states[i].wf(),
            positions@.len() == played.len(),
            forall|i: int|
                0 <= i < played.len() ==> {
                    &&& states[i].status == GameStatus::Playing
                    &&& legal_move(states[i], #[trigger] played[i])
                    &&& states[i + 1] == next_state(states[i], played[i])
                },
            forall|i: int|
                0 <= i < played.len() ==> records_position(
                    #[trigger] positions@[i],
                    states[i],
                    played[i],
                    [0isize, 0isize],
                ),
        decreases progress_measure(state@),
    {
        let ghost seed = rng.state;
        let ghost s = state@;
        let (selected, position, next) = fast_step(&state, rng);
        proof {
            lemma_legal_move_progress(state@, selected@);
        }
        positions.push(position);
        proof {
            let rest = fast_play(next@, rng.state, (limit - 1) as nat);
            assert(fast_play(s, seed, limit) == (seq![s] + rest.0, seq![selected@] + rest.1, rest.2));
            assert(states =~= states.drop_last().push(s));
            states = states.push(next@);
            played = played.push(selected@);
            limit = (limit - 1) as nat;
            assert(states.drop_last() =~= states.drop_last().drop_last().push(s));
            assert(run.0 =~= states.drop_last() + rest.0);
            assert(run.1 =~= played + rest.1);
        }
        state = next;
    }
    proof {
        assert(fast_play(state@, rng.state, limit) == (seq![state@], Seq::<MoveModel>::empty(), rng.state));
        assert(run.0 =~= states);
        assert(run.1 =~= played);
    }
    let score = score_state(&state);
    proof {
        crate::score::lemma_sum_sizes_bound(state@.remaining_pieces[0]);
        crate::score::lemma_sum_sizes_bound(state@.remaining_pieces[1]);
    }
    let mut i: usize = 0;
    while i < positions.len()
        invariant
            i <= positions@.len(),
            positions@.len() == played.len(),
            states.len() == played.len() + 1,
            forall|k: int|
                0 <= k < i ==> records_position(#[trigger] positions@[k], states[k], played[k], score),
            forall|k: int|
                i <= k < played.len() ==> records_position(
                    #[trigger] positions@[k],
                    states[k],
                    played[k],
                    [0isize, 0isize],
                ),
            forall|k: int| 0 <= k < played.len() ==> #[trigger] states[k].wf(),
            score[0] == score_of(states.last(), 0),
            score[1] == score_of(states.last(), 1),
            -105 <= score[0] <= 20,
            -105 <= score[1] <= 20,
        decreases positions@.len() - i,
    {
        proof {
            lemma_position_player(positions@[i as int], states[i as int], played[i as int]);
        }
        let diff = if positions[i].player == 0 {
            score[0] - score[1]
        } else {
            score[1] - score[0]
        };
        let ghost old_positions = positions@;
        assert(states[i as int].wf());
        assert(diff == score[positions@[i as int].player as int] - score[other_player(
            positions@[i as int].player as nat,
        ) as int]);
        positions[i].final_score_diff = diff;
        assert(positions@[i as int].player == old_positions[i as int].player);
        proof {
            lemma_rescore(old_positions[i as int], positions@[i as int], states[i as int], played[i as int], score);
        }
        i = i + 1;
    }
    let game = FastGame { positions, score };
    assert(is_game_record(start_policy, states, played));
    Ok(game)
}

} // verus!
