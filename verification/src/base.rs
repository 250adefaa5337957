//! The entities of one turn: recipes, spells, the action that is chosen, and
//! the heuristic that rates a spell against what a recipe still needs.

use vstd::prelude::*;
use vstd::string::*;
pub use crate::player::Player;
use crate::text::numeral;
use crate::text::write_number;
use crate::vec::abs;
use crate::vec::norm1_of;
use crate::vec::positive_of;
use crate::vec::Vec4;

verus! {

broadcast use crate::vec::group_vec4;

/// A potion that can be brewed for a reward.
#[derive(Clone, Copy, Debug)]
pub struct Recipe {
    /// Identifier of the recipe within the turn.
    pub id: i32,
    /// How much of each tier brewing consumes.
    pub ingredients: Vec4<u32>,
    /// The reward for brewing.
    pub price: u32,
}

/// A spell that changes the inventory when cast.
#[derive(Clone, Copy, Debug)]
pub struct Spell {
    /// Identifier of the spell within the turn.
    pub id: i32,
    /// Change of each tier when cast: negative consumes, positive produces.
    pub delta: Vec4<i32>,
    /// Position in the tome; carried through, not used by the heuristic.
    pub tome_index: i32,
    /// Tax count; carried through, not used by the heuristic.
    pub tax_count: i32,
    /// Whether the spell can be cast this turn.
    pub castable: bool,
    /// Repeatable flag; carried through, not used by the heuristic.
    pub repeatable: i32,
}

/// A spell offered for learning. It carries no data.
#[derive(Clone, Copy, Debug)]
pub struct Learn;

/// What one turn decides.
#[derive(Clone, Copy, Debug, PartialEq, Eq, Structural)]
pub enum Action {
    /// Brew the recipe with this identifier.
    Brew(i32),
    /// Cast the spell with this identifier.
    Cast(i32),
    /// Make the used spells castable again.
    Rest,
    /// Do nothing.
    Wait,
}

impl Action {
    /// The line that announces the action: a keyword and, for brewing and
    /// casting, the identifier.
    pub open spec fn line(&self) -> Seq<char> {
        match self {
            Action::Brew(id) => "BREW "@ + numeral(*id as int),
            Action::Cast(id) => "CAST "@ + numeral(*id as int),
            Action::Rest => "REST"@,
            Action::Wait => "WAIT"@,
        }
    }

    /// Writes the action as the line that announces it.
    pub fn to_line(&self) -> (text: String)
        ensures
            text@ == self.line(),
    {
        match self {
            Action::Brew(id) => {
                let mut text = String::from_str("BREW ");
                write_number(&mut text, *id);
                text
            },
            Action::Cast(id) => {
                let mut text = String::from_str("CAST ");
                write_number(&mut text, *id);
                text
            },
            Action::Rest => String::from_str("REST"),
            Action::Wait => String::from_str("WAIT"),
        }
    }
}

/// What brewing a recipe would take: a number of turns and the ingredients
/// left over.
#[derive(Clone, Copy, Debug)]
pub struct RecipeCost {
    pub turns: usize,
    pub waste: Vec4<u32>,
}

/// A spell moves a tier the wrong way when its change and the need have
/// opposite signs.
pub open spec fn opposed(delta: int, required: int) -> bool {
    (delta < 0 && required > 0) || (delta > 0 && required < 0)
}

/// The smaller of two integers.
pub open spec fn min(a: int, b: int) -> int {
    if a <= b {
        a
    } else {
        b
    }
}

/// How far a spell moves one tier away from what is required.
pub open spec fn tier_regression(delta: int, required: int) -> int {
    if opposed(delta, required) {
        abs(delta - required)
    } else {
        0
    }
}

/// How much of a needed tier a spell supplies, capped at the need.
pub open spec fn tier_advancement(delta: int, required: int) -> int {
    if !opposed(delta, required) && delta >= 0 {
        min(abs(delta), abs(required))
    } else {
        0
    }
}

/// How much of a surplus tier a spell consumes, capped at the surplus.
pub open spec fn tier_cleaning(delta: int, required: int) -> int {
    if !opposed(delta, required) && delta < 0 {
        min(abs(delta), abs(required))
    } else {
        0
    }
}

/// Total advancement of a spell over the four tiers.
pub open spec fn advancement_of(delta: Seq<int>, required: Seq<int>) -> int {
    tier_advancement(delta[0], required[0]) + tier_advancement(delta[1], required[1])
        + tier_advancement(delta[2], required[2]) + tier_advancement(delta[3], required[3])
}

/// Total regression of a spell over the four tiers.
pub open spec fn regression_of(delta: Seq<int>, required: Seq<int>) -> int {
    tier_regression(delta[0], required[0]) + tier_regression(delta[1], required[1])
        + tier_regression(delta[2], required[2]) + tier_regression(delta[3], required[3])
}

/// Total cleaning of a spell over the four tiers.
pub open spec fn cleaning_of(delta: Seq<int>, required: Seq<int>) -> int {
    tier_cleaning(delta[0], required[0]) + tier_cleaning(delta[1], required[1])
        + tier_cleaning(delta[2], required[2]) + tier_cleaning(delta[3], required[3])
}

/// How a spell rates against what a recipe still requires.
///
/// The three buckets are wide enough to hold the exact sums for any spell and
/// any requirement that fits the component types.
#[derive(Clone, Copy, Debug, PartialEq, Eq, Structural)]
pub struct Usefulness {
    /// Needed ingredients that the spell supplies.
    pub advancement: u64,
    /// Movement against what is needed.
    pub regression: u64,
    /// Surplus ingredients that the spell consumes.
    pub cleaning: u64,
}

impl Usefulness {
    /// Whether `self` holds the three buckets of `delta` against `required`.
    pub open spec fn rates(&self, delta: Seq<int>, required: Seq<int>) -> bool {
        &&& self.advancement == advancement_of(delta, required)
        &&& self.regression == regression_of(delta, required)
        &&& self.cleaning == cleaning_of(delta, required)
    }

    /// The contribution of one tier.
    pub(crate) fn of_tier(delta: i32, required: i64) -> (u: Usefulness)
        requires
            -0x1_0000_0000 <= required <= 0x1_0000_0000,
        ensures
            u.advancement == tier_advancement(delta as int, required as int),
            u.regression == tier_regression(delta as int, required as int),
            u.cleaning == tier_cleaning(delta as int, required as int),
            u.advancement <= 0x8000_0000,
            u.cleaning <= 0x8000_0000,
            u.regression <= 0x1_8000_0000,
    {
        let d: i64 = delta as i64;
        if (d < 0 && required > 0) || (d > 0 && required < 0) {
            let gap: i64 = if d > required { d - required } else { required - d };
            Usefulness { advancement: 0, regression: gap as u64, cleaning: 0 }
        } else {
            let size: i64 = if d < 0 { -d } else { d };
            let need: i64 = if required < 0 { -required } else { required };
            let progress: u64 = if size > need { need as u64 } else { size as u64 };
            if d >= 0 {
                Usefulness { advancement: progress, regression: 0, cleaning: 0 }
            } else {
                Usefulness { advancement: 0, regression: 0, cleaning: progress }
            }
        }
    }

    /// The bucket-wise sum of four tier contributions.
    pub(crate) fn total(a: Usefulness, b: Usefulness, c: Usefulness, d: Usefulness) -> (u:
        Usefulness)
        requires
            a.advancement <= 0x8000_0000 && a.cleaning <= 0x8000_0000 && a.regression
                <= 0x1_8000_0000,
            b.advancement <= 0x8000_0000 && b.cleaning <= 0x8000_0000 && b.regression
                <= 0x1_8000_0000,
            c.advancement <= 0x8000_0000 && c.cleaning <= 0x8000_0000 && c.regression
                <= 0x1_8000_0000,
            d.advancement <= 0x8000_0000 && d.cleaning <= 0x8000_0000 && d.regression
                <= 0x1_8000_0000,
        ensures
            u.advancement == a.advancement + b.advancement + c.advancement + d.advancement,
            u.regression == a.regression + b.regression + c.regression + d.regression,
            u.cleaning == a.cleaning + b.cleaning + c.cleaning + d.cleaning,
    {
        Usefulness {
            advancement: a.advancement + b.advancement + c.advancement + d.advancement,
            regression: a.regression + b.regression + c.regression + d.regression,
            cleaning: a.cleaning + b.cleaning + c.cleaning + d.cleaning,
        }
    }
}

impl Spell {
    /// Rates the spell against `required`, where a positive component is a
    /// shortfall and a negative one a surplus.
    pub fn get_usefulness(&self, required: &Vec4<i32>) -> (u: Usefulness)
        ensures
            u.rates(self.delta.ints(), required.ints()),
    {
        let t0 = Usefulness::of_tier(self.delta[0], required[0] as i64);
        let t1 = Usefulness::of_tier(self.delta[1], required[1] as i64);
        let t2 = Usefulness::of_tier(self.delta[2], required[2] as i64);
        let t3 = Usefulness::of_tier(self.delta[3], required[3] as i64);
        Usefulness::total(t0, t1, t2, t3)
    }
}

/// A spell moves a tier the wrong way exactly when the product of its change
/// and the need is negative.
pub proof fn lemma_opposed_is_negative_product(delta: int, required: int)
    ensures
        opposed(delta, required) <==> delta * required < 0,
{
    assert(opposed(delta, required) <==> delta * required < 0) by (nonlinear_arith);
}

/// A spell whose change is exactly what is required moves no tier the wrong
/// way, and advances by the whole shortfall.
pub proof fn lemma_exact_spell(required: Seq<int>)
    requires
        required.len() == 4,
    ensures
        regression_of(required, required) == 0,
        advancement_of(required, required) == norm1_of(positive_of(required)),
{
}

} // verus!
