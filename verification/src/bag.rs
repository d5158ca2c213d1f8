//! The piece randomizer: deals the seven kinds in a shuffled order, then
//! shuffles a fresh set.

use crate::geometry::TetrominoVariant;
use rand::seq::SliceRandom;
use vstd::prelude::*;

verus! {

/// The seven kinds, each once.
pub open spec fn all_kinds() -> Seq<TetrominoVariant> {
    seq![
        TetrominoVariant::I,
        TetrominoVariant::J,
        TetrominoVariant::L,
        TetrominoVariant::O,
        TetrominoVariant::S,
        TetrominoVariant::T,
        TetrominoVariant::Z,
    ]
}

/// Whether `s` holds each of the seven kinds exactly once, in any order.
pub open spec fn is_full_set(s: Seq<TetrominoVariant>) -> bool {
    s.to_multiset() == all_kinds().to_multiset()
}

/// Whether drawing from a bag that holds `before` can yield `kind` and leave
/// `after`. A bag that holds something deals its last entry. An empty bag
/// is first refilled with a full set in some order, and deals from that.
pub open spec fn draws(
    before: Seq<TetrominoVariant>,
    kind: TetrominoVariant,
    after: Seq<TetrominoVariant>,
) -> bool {
    if before.len() > 0 {
        kind == before.last() && after == before.drop_last()
    } else {
        is_full_set(after.push(kind))
    }
}

/// A full set has seven entries, no kind twice, and every kind.
pub proof fn lemma_full_set(s: Seq<TetrominoVariant>)
    requires
        is_full_set(s),
    ensures
        s.len() == 7,
        s.no_duplicates(),
        forall|kind: TetrominoVariant| s.contains(kind),
{
    broadcast use vstd::seq_lib::group_to_multiset_ensures;

    let all = all_kinds();
    assert(all.len() == 7);
    assert(all.no_duplicates());
    all.lemma_multiset_has_no_duplicates();
    s.lemma_multiset_has_no_duplicates_conv();
    assert(s.to_multiset().len() == s.len());
    assert(all.to_multiset().len() == all.len());
    assert forall|kind: TetrominoVariant| s.contains(kind) by {
        assert(all[kind.index()] == kind);
        assert(all.contains(kind));
        assert(all.to_multiset().count(kind) > 0);
    }
}

/// The kinds in waiting, dealt from the back.
pub struct Bag {
    pieces: Vec<TetrominoVariant>,
}

impl View for Bag {
    type V = Seq<TetrominoVariant>;

    closed spec fn view(&self) -> Seq<TetrominoVariant> {
        self.pieces@
    }
}

/// Calls `rand::seq::SliceRandom::shuffle` on the vector's slice, with the
/// generator that `rand::rng()` hands out. The call reorders the elements in
/// place by swaps: the vector holds afterwards what it held before. Which
/// order comes out is left open.
#[verifier::external_body]
fn shuffle_kinds(pieces: &mut Vec<TetrominoVariant>)
    ensures
        final(pieces)@.to_multiset() == old(pieces)@.to_multiset(),
{
    pieces.shuffle(&mut rand::rng());
}

impl Bag {
    /// No kind waits twice.
    pub open spec fn wf(&self) -> bool {
        self@.no_duplicates()
    }

    /// A bag that holds a freshly shuffled full set.
    pub fn new() -> (bag: Self)
        ensures
            is_full_set(bag@),
            bag.wf(),
    {
        let mut bag = Bag { pieces: Vec::new() };
        bag.refill();
        bag
    }

    /// A bag that holds `pieces`, the last of them to be dealt first.
    pub fn holding(pieces: Vec<TetrominoVariant>) -> (bag: Self)
        requires
            pieces@.no_duplicates(),
        ensures
            bag@ == pieces@,
            bag.wf(),
    {
        Bag { pieces }
    }

    /// The number of kinds in waiting.
    pub fn remaining(&self) -> (n: usize)
        ensures
            n == self@.len(),
    {
        self.pieces.len()
    }

    /// Replaces what the bag holds by a full set in a shuffled order.
    pub fn refill(&mut self)
        ensures
            is_full_set(final(self)@),
            final(self).wf(),
    {
        let mut pieces: Vec<TetrominoVariant> = Vec::new();
        pieces.push(TetrominoVariant::I);
        pieces.push(TetrominoVariant::J);
        pieces.push(TetrominoVariant::L);
        pieces.push(TetrominoVariant::O);
        pieces.push(TetrominoVariant::S);
        pieces.push(TetrominoVariant::T);
        pieces.push(TetrominoVariant::Z);
        proof {
            assert(pieces@ =~= all_kinds());
        }
        shuffle_kinds(&mut pieces);
        self.pieces = pieces;
        proof {
            lemma_full_set(self@);
        }
    }

    /// Deals the next kind.
    pub fn next(&mut self) -> (kind: TetrominoVariant)
        requires
            old(self).wf(),
        ensures
            draws(old(self)@, kind, final(self)@),
            final(self).wf(),
            old(self)@.len() == 0 ==> final(self)@.len() == 6,
    {
        if self.pieces.is_empty() {
            self.refill();
        }
        let ghost held = self.pieces@;
        proof {
            if old(self)@.len() == 0 {
                lemma_full_set(held);
            }
        }
        let kind = self.pieces.pop().unwrap();
        proof {
            assert(self.pieces@.push(kind) =~= held);
        }
        kind
    }
}

/// Between two draws of the same kind lie at most twelve other draws.
/// `first` and `second` are the kinds of seven draws each, one run after
/// the other, and each a full set: within a run no kind comes twice, and
/// the kind of draw `i` of the first run comes again in the second run; if
/// that is its draw `j`, then `6 - i + j` draws lie between the two.
pub proof fn lemma_gap_is_at_most_twelve(
    first: Seq<TetrominoVariant>,
    second: Seq<TetrominoVariant>,
    i: int,
    j: int,
)
    requires
        is_full_set(first),
        is_full_set(second),
        0 <= i < 7,
        0 <= j < 7,
    ensures
        forall|a: int, b: int| 0 <= a < b < 7 ==> (first + second)[a] != (first + second)[b],
        (first + second)[i] == first[i],
        (first + second)[7 + j] == second[j],
        (7 + j) - i - 1 <= 12,
        exists|k: int| 0 <= k < 7 && second[k] == first[i],
{
    lemma_full_set(first);
    lemma_full_set(second);
    assert(second.contains(first[i]));
}

/// Seven draws in a row from a bag that holds a full set, or from an empty
/// one, yield each of the seven kinds exactly once and leave the bag empty.
/// `states[i]` is what the bag holds before draw `i`, and `kinds[i]` is what
/// draw `i` yields.
pub proof fn lemma_seven_draws_are_fair(
    states: Seq<Seq<TetrominoVariant>>,
    kinds: Seq<TetrominoVariant>,
)
    requires
        states.len() == 8,
        kinds.len() == 7,
        is_full_set(states[0]) || states[0].len() == 0,
        forall|i: int| 0 <= i < 7 ==> draws(states[i], #[trigger] kinds[i], states[i + 1]),
    ensures
        is_full_set(kinds),
        states[7].len() == 0,
        forall|kind: TetrominoVariant| kinds.contains(kind),
        kinds.no_duplicates(),
{
    // The full set that all seven draws are dealt from.
    let set = if states[0].len() == 0 {
        states[1].push(kinds[0])
    } else {
        states[0]
    };
    assert(draws(states[0], kinds[0], states[1]));
    lemma_full_set(set);
    assert(states[1] == set.take(6) && kinds[0] == set[6]) by {
        if states[0].len() == 0 {
            assert(set.take(6) =~= states[1]);
        } else {
            assert(set.drop_last() =~= set.take(6));
        }
    }
    assert(draws(states[1], kinds[1], states[2]));
    assert(states[2] =~= set.take(5) && kinds[1] == set[5]);
    assert(draws(states[2], kinds[2], states[3]));
    assert(states[3] =~= set.take(4) && kinds[2] == set[4]);
    assert(draws(states[3], kinds[3], states[4]));
    assert(states[4] =~= set.take(3) && kinds[3] == set[3]);
    assert(draws(states[4], kinds[4], states[5]));
    assert(states[5] =~= set.take(2) && kinds[4] == set[2]);
    assert(draws(states[5], kinds[5], states[6]));
    assert(states[6] =~= set.take(1) && kinds[5] == set[1]);
    assert(draws(states[6], kinds[6], states[7]));
    assert(states[7] =~= set.take(0) && kinds[6] == set[0]);
    assert(kinds =~= set.reverse());
    set.lemma_reverse_to_multiset();
    lemma_full_set(kinds);
}

} // verus!
