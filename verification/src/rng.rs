//! A 64-bit linear congruential generator, the uniform shuffle built on it,
//! and the fast self-play policy: a random move among those placing the largest piece.
use vstd::prelude::*;
use vstd::wrapping::u64_specs;
use crate::pieces::{piece_size, piece_size_of};
use crate::types::{Move, MoveModel};
use crate::rules::moves_view;

verus! {

pub const LCG_MULTIPLIER: u64 = 6364136223846793005;

pub const LCG_INCREMENT: u64 = 1442695040888963407;

/// The generator state after one step.
pub open spec fn lcg_next(state: u64) -> u64 {
    u64_specs::wrapping_add(u64_specs::wrapping_mul(state, LCG_MULTIPLIER), LCG_INCREMENT)
}

/// The 32-bit output drawn from a state: its upper half.
pub open spec fn lcg_output(state: u64) -> u32 {
    (state >> 32u64) as u32
}

/// A linear congruential generator over `u64` with wrapping arithmetic.
#[derive(Debug, Clone)]
pub struct Lcg {
    pub state: u64,
}

/// Exchanges entries `i` and `j` of `values` with std's `<[T]>::swap`
/// (reached through the vector's slice). Trusted: afterwards entry `i` holds
/// what entry `j` held and the other way round, and every other entry is
/// unchanged; `swap` panics only for an index out of bounds, which the
/// precondition rules out.
#[verifier::external_body]
fn swap_entries<T>(values: &mut Vec<T>, i: usize, j: usize)
    requires
        i < old(values)@.len(),
        j < old(values)@.len(),
    ensures
        final(values)@ == old(values)@.update(i as int, old(values)@[j as int]).update(
            j as int,
            old(values)@[i as int],
        ),
{
    values.swap(i, j);
}

/// `s` with entries `i` and `j` exchanged.
pub open spec fn swapped<T>(s: Seq<T>, i: int, j: int) -> Seq<T> {
    s.update(i, s[j]).update(j, s[i])
}

/// The shuffle from position `index` down to position 1: at each position a
/// step of the generator picks the entry (at or below it) to exchange with.
/// Returns the entries and the final generator state.
pub open spec fn shuffle_from<T>(s: Seq<T>, state: u64, index: int) -> (Seq<T>, u64)
    decreases index,
{
    if index <= 0 {
        (s, state)
    } else {
        let next = lcg_next(state);
        let j = (lcg_output(next) as int) % (index + 1);
        shuffle_from(swapped(s, index, j), next, index - 1)
    }
}

/// A shuffle only reorders the entries.
pub proof fn lemma_shuffle_permutes<T>(s: Seq<T>, state: u64, index: int)
    requires
        index < s.len(),
    ensures
        shuffle_from(s, state, index).0.to_multiset() == s.to_multiset(),
        shuffle_from(s, state, index).0.len() == s.len(),
    decreases index,
{
    if index > 0 {
        let next = lcg_next(state);
        let j = (lcg_output(next) as int) % (index + 1);
        lemma_swap_permutes(s, index, j);
        lemma_shuffle_permutes(swapped(s, index, j), next, index - 1);
    }
}

/// Exchanging two entries only reorders them.
pub proof fn lemma_swap_permutes<T>(s: Seq<T>, i: int, j: int)
    requires
        0 <= i < s.len(),
        0 <= j < s.len(),
    ensures
        swapped(s, i, j).to_multiset() == s.to_multiset(),
        swapped(s, i, j).len() == s.len(),
{
    if i == j {
        assert(swapped(s, i, j) =~= s);
    } else {
        let s1 = s.update(i, s[j]);
        vstd::seq_lib::to_multiset_update(s, i, s[j]);
        vstd::seq_lib::to_multiset_update(s1, j, s[i]);
        vstd::seq_lib::to_multiset_contains(s, s[i]);
        let m = s.to_multiset();
        assert(m.count(s[i]) > 0) by {
            assert(s.contains(s[i]));
        }
        assert(m.insert(s[j]).remove(s[i]).insert(s[i]).remove(s[j]) =~= m);
    }
}

impl Lcg {
    pub fn new(seed: u64) -> (r: Self)
        ensures
            r.state == seed,
    {
        Self { state: seed }
    }

    /// Steps the generator and returns the upper half of the new state.
    pub fn next_u32(&mut self) -> (r: u32)
        ensures
            final(self).state == lcg_next(old(self).state),
            r == lcg_output(final(self).state),
    {
        self.state = self.state.wrapping_mul(LCG_MULTIPLIER).wrapping_add(LCG_INCREMENT);
        (self.state >> 32) as u32
    }

    /// A position below `len`: 0 when `len <= 1` (without stepping), else
    /// the next output modulo `len`.
    pub fn index(&mut self, len: usize) -> (r: usize)
        ensures
            len <= 1 ==> r == 0 && final(self).state == old(self).state,
            len > 1 ==> final(self).state == lcg_next(old(self).state) && r == (lcg_output(
                final(self).state,
            ) as int) % (len as int),
            len > 0 ==> r < len,
    {
        if len <= 1 {
            0
        } else {
            self.next_u32() as usize % len
        }
    }

    /// Shuffles `values` in place, exchanging each position from the last
    /// down to 1 with a position drawn at or below it.
    pub fn shuffle<T>(&mut self, values: &mut Vec<T>)
        ensures
            (final(values)@, final(self).state) == shuffle_from(
                old(values)@,
                old(self).state,
                old(values)@.len() - 1,
            ),
            final(values)@.to_multiset() == old(values)@.to_multiset(),
    {
        proof {
            lemma_shuffle_permutes(values@, self.state, values@.len() - 1);
        }
        let ghost goal = shuffle_from(values@, self.state, values@.len() - 1);
        let mut index = values.len();
        while index > 1
            invariant
                1 <= index <= values@.len() || (index == values@.len() && index == 0),
                values@.len() == old(values)@.len(),
                goal == shuffle_from(values@, self.state, index - 1),
            decreases index,
        {
            index = index - 1;
            let swap = self.next_u32() as usize % (index + 1);
            swap_entries(values, index, swap);
        }
    }
}

/// The unit squares a move places (0 for a pass).
pub open spec fn move_piece_size_of(m: MoveModel) -> nat {
    match m {
        MoveModel::Place { piece_id, .. } => piece_size_of(piece_id),
        MoveModel::Pass { .. } => 0,
    }
}

/// The largest number of unit squares placed by any of `ms` (0 if empty).
pub open spec fn max_piece_size(ms: Seq<MoveModel>) -> nat
    decreases ms.len(),
{
    if ms.len() == 0 {
        0
    } else {
        let rest = max_piece_size(ms.drop_last());
        let last = move_piece_size_of(ms.last());
        if last > rest {
            last
        } else {
            rest
        }
    }
}

/// The moves of `ms` that place exactly `size` unit squares, in order.
pub open spec fn moves_of_size(ms: Seq<MoveModel>, size: nat) -> Seq<MoveModel>
    decreases ms.len(),
{
    if ms.len() == 0 {
        Seq::empty()
    } else {
        let rest = moves_of_size(ms.drop_last(), size);
        if move_piece_size_of(ms.last()) == size {
            rest.push(ms.last())
        } else {
            rest
        }
    }
}

/// The fast policy's pick among `ms` with generator state `state`: one of
/// the moves placing the most unit squares, at a position drawn from the
/// generator when there is more than one; with the generator state after.
pub open spec fn fast_choice(ms: Seq<MoveModel>, state: u64) -> (MoveModel, u64) {
    let best = moves_of_size(ms, max_piece_size(ms));
    if best.len() <= 1 {
        (best[0], state)
    } else {
        let next = lcg_next(state);
        (best[(lcg_output(next) as int) % (best.len() as int)], next)
    }
}

/// The unit squares a move places.
pub fn move_piece_size(mv: &Move) -> (r: usize)
    ensures
        r == move_piece_size_of(mv@),
{
    match mv {
        Move::Place { piece_id, .. } => piece_size(piece_id.as_str()),
        Move::Pass { .. } => 0,
    }
}

pub proof fn lemma_max_piece_size_attained(ms: Seq<MoveModel>)
    requires
        ms.len() > 0,
    ensures
        moves_of_size(ms, max_piece_size(ms)).len() > 0,
        forall|i: int| 0 <= i < ms.len() ==> move_piece_size_of(#[trigger] ms[i]) <= max_piece_size(ms),
    decreases ms.len(),
{
    let init = ms.drop_last();
    let best = max_piece_size(ms);
    if init.len() > 0 {
        lemma_max_piece_size_attained(init);
    } else {
        assert(max_piece_size(init) == 0);
    }
    if move_piece_size_of(ms.last()) == best {
        assert(moves_of_size(ms, best) == moves_of_size(init, best).push(ms.last()));
    } else {
        assert(best == max_piece_size(init));
        assert(moves_of_size(ms, best) == moves_of_size(init, best));
    }
    assert forall|i: int| 0 <= i < ms.len() implies move_piece_size_of(#[trigger] ms[i]) <= max_piece_size(ms) by {
        if i < ms.len() - 1 {
            assert(ms[i] == init[i]);
        }
    }
}

/// No move of `ms` places more unit squares than `max_piece_size(ms)`.
pub proof fn lemma_max_piece_size_bounds(ms: Seq<MoveModel>, k: int)
    requires
        0 <= k < ms.len(),
    ensures
        move_piece_size_of(ms[k]) <= max_piece_size(ms),
{
    lemma_max_piece_size_attained(ms);
}

/// The moves kept by `moves_of_size` are moves of `ms` of that size.
pub proof fn lemma_moves_of_size_members(ms: Seq<MoveModel>, size: nat)
    ensures
        forall|i: int|
            0 <= i < moves_of_size(ms, size).len() ==> ms.contains(
                #[trigger] moves_of_size(ms, size)[i],
            ) && move_piece_size_of(moves_of_size(ms, size)[i]) == size,
    decreases ms.len(),
{
    if ms.len() > 0 {
        let init = ms.drop_last();
        lemma_moves_of_size_members(init, size);
        assert forall|i: int| 0 <= i < moves_of_size(ms, size).len() implies ms.contains(
            #[trigger] moves_of_size(ms, size)[i],
        ) && move_piece_size_of(moves_of_size(ms, size)[i]) == size by {
            let rest = moves_of_size(init, size);
            if i < rest.len() {
                let m = rest[i];
                assert(init.contains(m));
                let k = choose|k: int| 0 <= k < init.len() && init[k] == m;
                assert(ms[k] == m);
            } else {
                assert(ms[ms.len() - 1] == ms.last());
            }
        }
    }
}

/// Picks, with `rng`, one of the moves that place the most unit squares.
pub fn choose_fast_move(moves: &Vec<Move>, rng: &mut Lcg) -> (r: Move)
    requires
        moves@.len() > 0,
    ensures
        ({
            let best = moves_of_size(moves_view(*moves), max_piece_size(moves_view(*moves)));
            let len = best.len() as int;
            &&& len > 0
            &&& len <= 1 ==> r@ == best[0] && final(rng).state == old(rng).state
            &&& len > 1 ==> final(rng).state == lcg_next(old(rng).state) && r@ == best[(lcg_output(
                final(rng).state,
            ) as int) % len]
        }),
        (r@, final(rng).state) == fast_choice(moves_view(*moves), old(rng).state),
        moves_view(*moves).contains(r@),
        move_piece_size_of(r@) == max_piece_size(moves_view(*moves)),
{
    let ghost ms = moves_view(*moves);
    let mut best_size: usize = 0;
    let mut i: usize = 0;
    while i < moves.len()
        invariant
            ms == moves_view(*moves),
            i <= moves@.len(),
            best_size == max_piece_size(ms.take(i as int)),
        decreases moves@.len() - i,
    {
        assert(ms.take(i + 1).drop_last() =~= ms.take(i as int));
        let size = move_piece_size(&moves[i]);
        if size > best_size {
            best_size = size;
        }
        i = i + 1;
    }
    assert(ms.take(ms.len() as int) =~= ms);
    let mut candidates: Vec<usize> = Vec::new();
    let mut i: usize = 0;
    while i < moves.len()
        invariant
            ms == moves_view(*moves),
            i <= moves@.len(),
            best_size == max_piece_size(ms),
            candidates@.len() == moves_of_size(ms.take(i as int), best_size as nat).len(),
            forall|k: int|
                0 <= k < candidates@.len() ==> #[trigger] candidates@[k] < moves@.len() && ms[candidates@[k] as int]
                    == moves_of_size(ms.take(i as int), best_size as nat)[k],
        decreases moves@.len() - i,
    {
        assert(ms.take(i + 1).drop_last() =~= ms.take(i as int));
        assert(ms.take(i + 1).last() == ms[i as int]);
        if move_piece_size(&moves[i]) == best_size {
            candidates.push(i);
        }
        i = i + 1;
    }
    proof {
        lemma_max_piece_size_attained(ms);
        lemma_moves_of_size_members(ms, best_size as nat);
    }
    let k = rng.index(candidates.len());
    let chosen = candidates[k];
    assert(ms[chosen as int] == moves_of_size(ms, best_size as nat)[k as int]);
    moves[chosen].clone()
}

} // verus!
