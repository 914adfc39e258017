//! The accumulator of a match: the round reached, the score needed to win,
//! the two running scores and the winning triples already credited.

use vstd::prelude::*;
use crate::topology::MAX_ROUND;
use crate::states::PlayerTag;
use crate::winning_logic::{
    lemma_winning_combinations_grow, lemma_winning_combinations_len, winning_combinations, Triple,
};

verus! {

/// A sequence without repetition whose items all occur in another is no
/// longer than the other.
pub proof fn lemma_distinct_items_len<A>(items: Seq<A>, within: Seq<A>)
    requires
        items.no_duplicates(),
        forall|a: A| items.contains(a) ==> within.contains(a),
    ensures
        items.len() <= within.len(),
{
    items.unique_seq_to_set();
    within.lemma_cardinality_of_set();
    vstd::seq_lib::seq_to_set_is_finite(within);
    assert(items.to_set().subset_of(within.to_set())) by {
        assert forall|a: A| items.to_set().contains(a) implies within.to_set().contains(a) by {
            assert(items.contains(a));
        }
    }
    vstd::set_lib::lemma_len_subset(items.to_set(), within.to_set());
}

/// Whether two triples hold the same cells in the same order.
pub fn same_triple(a: &Triple, b: &Triple) -> (same: bool)
    ensures
        same == (*a == *b),
{
    let same = a[0].0 == b[0].0 && a[0].1 == b[0].1 && a[1].0 == b[1].0 && a[1].1 == b[1].1
        && a[2].0 == b[2].0 && a[2].1 == b[2].1;
    proof {
        if same {
            assert(*a =~= *b);
        }
    }
    same
}

/// The accumulator of a match.
#[derive(Debug, Clone, PartialEq, Eq)]
pub struct RoundInit {
    round_count: u32,
    target: u32,
    x_score: u32,
    o_score: u32,
    game_combinations: Vec<Triple>,
}

impl RoundInit {
    /// The round reached.
    pub closed spec fn spec_round_count(&self) -> u32 {
        self.round_count
    }

    /// The score that wins the match.
    pub closed spec fn spec_target(&self) -> u32 {
        self.target
    }

    /// The points of player X.
    pub closed spec fn spec_x_score(&self) -> u32 {
        self.x_score
    }

    /// The points of player O.
    pub closed spec fn spec_o_score(&self) -> u32 {
        self.o_score
    }

    /// The triples credited so far, oldest first.
    pub closed spec fn spec_game_combinations(&self) -> Seq<Triple> {
        self.game_combinations@
    }

    /// The points of `player`.
    pub open spec fn score_of(&self, player: PlayerTag) -> u32 {
        match player {
            PlayerTag::X => self.spec_x_score(),
            PlayerTag::O => self.spec_o_score(),
        }
    }

    /// The target is at least one, no triple is credited twice, every
    /// credited triple is a candidate of the round reached, and each point
    /// stands for one credited triple.
    pub open spec fn wf(&self) -> bool {
        &&& self.spec_round_count() <= MAX_ROUND
        &&& self.spec_target() >= 1
        &&& self.spec_game_combinations().no_duplicates()
        &&& forall|t: Triple| #[trigger]
            self.spec_game_combinations().contains(t) ==> winning_combinations(
                self.spec_round_count() as nat,
            ).contains(t)
        &&& self.spec_x_score() + self.spec_o_score() == self.spec_game_combinations().len()
    }

    /// A match at its start: round `0`, no points, nothing credited. A
    /// target of `0` is raised to `1`.
    pub fn new(init_target: u32) -> (round: Self)
        ensures
            round.wf(),
            round.round_count() == 0,
            round.target() == if init_target == 0 {
                1u32
            } else {
                init_target
            },
            round.x_score() == 0,
            round.o_score() == 0,
            round.spec_game_combinations() == Seq::<Triple>::empty(),
    {
        RoundInit {
            round_count: 0,
            target: if init_target == 0 {
                1
            } else {
                init_target
            },
            x_score: 0,
            o_score: 0,
            game_combinations: Vec::new(),
        }
    }

    /// The round reached.
    #[verifier::when_used_as_spec(spec_round_count)]
    pub fn round_count(&self) -> (n: u32)
        ensures
            n == self.spec_round_count(),
    {
        self.round_count
    }

    /// The score that wins the match.
    #[verifier::when_used_as_spec(spec_target)]
    pub fn target(&self) -> (target: u32)
        ensures
            target == self.spec_target(),
    {
        self.target
    }

    /// The points of player X.
    #[verifier::when_used_as_spec(spec_x_score)]
    pub fn x_score(&self) -> (score: u32)
        ensures
            score == self.spec_x_score(),
    {
        self.x_score
    }

    /// The points of player O.
    #[verifier::when_used_as_spec(spec_o_score)]
    pub fn o_score(&self) -> (score: u32)
        ensures
            score == self.spec_o_score(),
    {
        self.o_score
    }

    /// The triples credited so far, oldest first.
    pub fn game_combinations(&self) -> (credited: &Vec<Triple>)
        ensures
            credited@ == self.spec_game_combinations(),
    {
        &self.game_combinations
    }

    /// Whether `t` has been credited already.
    pub fn has_scored(&self, t: &Triple) -> (scored: bool)
        ensures
            scored == self.spec_game_combinations().contains(*t),
    {
        let mut i: usize = 0;
        while i < self.game_combinations.len()
            invariant
                0 <= i <= self.game_combinations@.len(),
                forall|j: int| 0 <= j < i ==> self.game_combinations@[j] != *t,
            decreases self.game_combinations.len() - i,
        {
            if same_triple(&self.game_combinations[i], t) {
                return true;
            }
            i += 1;
        }
        false
    }

    /// Credits the candidate triple `t`, not credited before, to `player`:
    /// the triple joins the credited ones and the player gains one point.
    pub fn credit(&mut self, player: PlayerTag, t: Triple)
        requires
            old(self).wf(),
            winning_combinations(old(self).round_count() as nat).contains(t),
            !old(self).spec_game_combinations().contains(t),
        ensures
            final(self).wf(),
            final(self).round_count() == old(self).round_count(),
            final(self).target() == old(self).target(),
            final(self).spec_game_combinations() == old(self).spec_game_combinations().push(t),
            final(self).score_of(player) == old(self).score_of(player) + 1,
            final(self).score_of(player.opponent()) == old(self).score_of(player.opponent()),
    {
        proof {
            let grown = self.game_combinations@.push(t);
            let candidates = winning_combinations(self.round_count as nat);
            assert forall|a: Triple| grown.contains(a) implies candidates.contains(a) by {
                if a != t {
                    let i = choose|i: int| 0 <= i < grown.len() && grown[i] == a;
                    assert(self.game_combinations@[i] == a);
                    assert(self.spec_game_combinations().contains(a));
                }
            }
            assert(grown.no_duplicates());
            lemma_distinct_items_len(grown, candidates);
            lemma_winning_combinations_len(self.round_count as nat);
        }
        self.game_combinations.push(t);
        match player {
            PlayerTag::X => {
                self.x_score = self.x_score + 1;
            },
            PlayerTag::O => {
                self.o_score = self.o_score + 1;
            },
        }
    }

    /// Moves on to the next round. Scores and credited triples stay.
    pub fn next_round(&mut self)
        requires
            old(self).wf(),
            old(self).round_count() < MAX_ROUND,
        ensures
            final(self).wf(),
            final(self).round_count() == old(self).round_count() + 1,
            final(self).target() == old(self).target(),
            final(self).x_score() == old(self).x_score(),
            final(self).o_score() == old(self).o_score(),
            final(self).spec_game_combinations() == old(self).spec_game_combinations(),
    {
        proof {
            let n = self.round_count as nat;
            lemma_winning_combinations_grow(n, n + 1);
            assert forall|t: Triple| #[trigger]
                self.game_combinations@.contains(t) implies winning_combinations(n + 1).contains(
                t,
            ) by {
                assert(self.spec_game_combinations().contains(t));
                let i = choose|i: int|
                    0 <= i < winning_combinations(n).len() && winning_combinations(n)[i] == t;
                assert(winning_combinations(n + 1)[i] == t);
            }
        }
        self.round_count = self.round_count + 1;
    }

    /// Starts the match over: round `0`, no points, nothing credited. The
    /// target stays.
    pub fn reset(&mut self)
        requires
            old(self).wf(),
        ensures
            final(self).wf(),
            final(self).round_count() == 0,
            final(self).target() == old(self).target(),
            final(self).x_score() == 0,
            final(self).o_score() == 0,
            final(self).spec_game_combinations() == Seq::<Triple>::empty(),
    {
        self.round_count = 0;
        self.x_score = 0;
        self.o_score = 0;
        self.game_combinations = Vec::new();
    }
}

} // verus!
