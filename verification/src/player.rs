//! A player: what they hold, their score, and the spells they know.

use vstd::prelude::*;
use crate::base::Recipe;
use crate::base::Spell;
use crate::vec::Vec4;

verus! {

broadcast use crate::vec::group_vec4;

/// Per tier, what is still missing of `cost` given `inventory`: positive for
/// a shortfall, negative for a surplus.
pub open spec fn shortfall_of(cost: Seq<int>, inventory: Seq<int>) -> Seq<int> {
    Seq::new(4, |i: int| cost[i] - inventory[i])
}

/// Selects the spells that can be cast this turn.
pub open spec fn is_ready() -> spec_fn(Spell) -> bool {
    |s: Spell| s.castable
}

/// Selects the spells that cannot be cast this turn.
pub open spec fn is_used() -> spec_fn(Spell) -> bool {
    |s: Spell| !s.castable
}

/// One of the two contestants.
#[derive(Clone, Debug)]
pub struct Player {
    /// How much of each tier the player holds.
    pub inventory: Vec4<u32>,
    /// The player's score.
    pub score: i32,
    /// The spells that can be cast this turn, in the order they were given.
    pub ready_spells: Vec<Spell>,
    /// The spells that were cast and wait for a rest, in the order they were
    /// given.
    pub used_spells: Vec<Spell>,
}

impl Player {
    /// Whether the inventory covers every tier of the recipe's cost.
    pub open spec fn can_brew_spec(&self, recipe: &Recipe) -> bool {
        forall|i: int| 0 <= i < 4 ==> #[trigger] self.inventory@[i] >= recipe.ingredients@[i]
    }

    /// Whether casting the spell leaves no tier negative.
    pub open spec fn can_cast_spec(&self, spell: &Spell) -> bool {
        forall|i: int| 0 <= i < 4 ==> #[trigger] self.inventory@[i] + spell.delta@[i] >= 0
    }

    /// A player with the given inventory and score, whose spells are sorted
    /// into those that can be cast and those that cannot. Each list keeps the
    /// order in which its spells were given.
    pub fn new(inventory: Vec4<u32>, score: i32, spells: Vec<Spell>) -> (p: Self)
        ensures
            p.inventory == inventory,
            p.score == score,
            p.ready_spells@ == spells@.filter(is_ready()),
            p.used_spells@ == spells@.filter(is_used()),
    {
        let mut ready_spells: Vec<Spell> = Vec::new();
        let mut used_spells: Vec<Spell> = Vec::new();
        for i in 0..spells.len()
            invariant
                ready_spells@ == spells@.take(i as int).filter(is_ready()),
                used_spells@ == spells@.take(i as int).filter(is_used()),
        {
            let spell = spells[i];
            proof {
                reveal(Seq::filter);
                let before = spells@.take(i as int);
                let after = spells@.take(i + 1);
                assert(after.drop_last() =~= before);
                assert(after.filter(is_ready()) == if spell.castable {
                    before.filter(is_ready()).push(spell)
                } else {
                    before.filter(is_ready())
                });
                assert(after.filter(is_used()) == if spell.castable {
                    before.filter(is_used())
                } else {
                    before.filter(is_used()).push(spell)
                });
            }
            if spell.castable {
                ready_spells.push(spell);
            } else {
                used_spells.push(spell);
            }
        }
        assert(spells@.take(spells.len() as int) =~= spells@);
        Self { inventory, score, ready_spells, used_spells }
    }

    /// Whether the player holds enough of every tier to brew the recipe.
    pub fn can_brew(&self, recipe: &Recipe) -> (b: bool)
        ensures
            b == self.can_brew_spec(recipe),
    {
        self.inventory[0] >= recipe.ingredients[0] && self.inventory[1] >= recipe.ingredients[1]
            && self.inventory[2] >= recipe.ingredients[2] && self.inventory[3]
            >= recipe.ingredients[3]
    }

    /// Whether the player can cast the spell without driving a tier below
    /// zero.
    pub fn can_cast(&self, spell: &Spell) -> (b: bool)
        ensures
            b == self.can_cast_spec(spell),
    {
        self.inventory[0] as i64 + spell.delta[0] as i64 >= 0 && self.inventory[1] as i64
            + spell.delta[1] as i64 >= 0 && self.inventory[2] as i64 + spell.delta[2] as i64 >= 0
            && self.inventory[3] as i64 + spell.delta[3] as i64 >= 0
    }

    /// Per tier, the cost less what the player holds: positive where more is
    /// needed, negative or zero where the player already has enough.
    pub fn required_ingredients(&self, cost: &Vec4<i32>) -> (r: Vec4<i32>)
        requires
            forall|i: int| 0 <= i < 4 ==> #[trigger] cost@[i] - self.inventory@[i] >= i32::MIN,
        ensures
            r.ints() == shortfall_of(cost.ints(), self.inventory.ints()),
    {
        let r: Vec4<i32> = [
            (cost[0] as i64 - self.inventory[0] as i64) as i32,
            (cost[1] as i64 - self.inventory[1] as i64) as i32,
            (cost[2] as i64 - self.inventory[2] as i64) as i32,
            (cost[3] as i64 - self.inventory[3] as i64) as i32,
        ].into();
        assert(r.ints() =~= shortfall_of(cost.ints(), self.inventory.ints()));
        r
    }

    /// What the player lacks for the recipe, tier by tier, or `None` when
    /// nothing is lacking.
    pub fn recipe_missing_ingredients(&self, recipe: &Recipe) -> (m: Option<[u32; 4]>)
        ensures
            m is None <==> self.can_brew_spec(recipe),
            m matches Some(missing) ==> forall|i: int|
                0 <= i < 4 ==> #[trigger] missing@[i] == if recipe.ingredients@[i]
                    > self.inventory@[i] {
                    recipe.ingredients@[i] - self.inventory@[i]
                } else {
                    0
                },
    {
        let mut missing: [u32; 4] = [0u32;4];
        let mut none_missing = true;
        for i in 0..4usize
            invariant
                none_missing <==> forall|j: int|
                    0 <= j < i ==> #[trigger] self.inventory@[j] >= recipe.ingredients@[j],
                forall|j: int|
                    0 <= j < 4 ==> #[trigger] missing@[j] == if j < i && recipe.ingredients@[j]
                        > self.inventory@[j] {
                        recipe.ingredients@[j] - self.inventory@[j]
                    } else {
                        0
                    },
        {
            if recipe.ingredients[i] > self.inventory[i] {
                missing[i] = recipe.ingredients[i] - self.inventory[i];
                none_missing = false;
            }
        }
        if none_missing {
            None
        } else {
            Some(missing)
        }
    }

    /// Holding at least as much of every tier keeps every recipe brewable
    /// that was brewable before.
    pub proof fn lemma_can_brew_monotonic(&self, richer: &Player, recipe: &Recipe)
        requires
            self.can_brew_spec(recipe),
            forall|i: int| 0 <= i < 4 ==> #[trigger] richer.inventory@[i] >= self.inventory@[i],
        ensures
            richer.can_brew_spec(recipe),
    {
        assert forall|i: int| 0 <= i < 4 implies #[trigger] richer.inventory@[i]
            >= recipe.ingredients@[i] by {
            assert(self.inventory@[i] >= recipe.ingredients@[i]);
        }
    }
}

} // verus!
