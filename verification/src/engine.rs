//! The decision of one turn.
//!
//! A recipe that can be brewed is always brewed, the best-paid one first.
//! Otherwise every spell that can be cast is rated against every recipe, and
//! the best-rated spell is cast, unless even that one does harm while the
//! inventory is nearly full: then the player rests. With no spell to cast the
//! player rests as well.
//!
//! Ratings are exact fractions. A rating against a recipe is only compared
//! while that recipe cannot be brewed, so its denominator, a multiple of what
//! the recipe still lacks, is never zero where it matters.

use vstd::prelude::*;
use crate::base::advancement_of;
use crate::base::cleaning_of;
use crate::base::regression_of;
use crate::base::Action;
use crate::base::Recipe;
use crate::base::Spell;
use crate::base::Usefulness;
use crate::input::Input;
use crate::input::ME;
use crate::player::shortfall_of;
use crate::player::Player;
use crate::vec::norm1_of;
use crate::vec::positive_of;
use crate::vec::Vec4;

verus! {

broadcast use crate::vec::group_vec4;

/// The price at which a recipe's advancement counts in full.
pub const MEAN_PRICE: u32 = 10;

/// The number of ingredients from which an inventory counts as nearly full.
pub const NEARLY_FULL: u32 = 8;

/// A rating as an exact fraction `num / den`.
pub struct Rating {
    pub num: int,
    pub den: int,
}

impl Rating {
    /// Whether `self` is a strictly greater fraction than `other`, both with
    /// positive denominators.
    pub open spec fn exceeds(self, other: Rating) -> bool {
        self.num * other.den > other.num * self.den
    }

    /// Whether the fraction is below zero, its denominator being positive.
    pub open spec fn is_negative(self) -> bool {
        self.num < 0
    }
}

/// What a recipe still lacks in total: the shortfalls of all tiers added up,
/// surpluses not counted.
pub open spec fn need_of(required: Seq<int>) -> int {
    norm1_of(positive_of(required))
}

/// The rating of a spell with change `delta` against a recipe of the given
/// price of which `required` is still missing:
/// `advancement / need * price / MEAN_PRICE - regression + cleaning`,
/// brought over the denominator `need * MEAN_PRICE`.
pub open spec fn rating_of(delta: Seq<int>, required: Seq<int>, price: int) -> Rating {
    let den = need_of(required) * MEAN_PRICE;
    Rating {
        num: advancement_of(delta, required) * price + (cleaning_of(delta, required)
            - regression_of(delta, required)) * den,
        den,
    }
}

/// The rating of `spell` against `recipe` for the player `me`.
pub open spec fn rating(me: Player, recipe: Recipe, spell: Spell) -> Rating {
    rating_of(
        spell.delta.ints(),
        shortfall_of(recipe.ingredients.ints(), me.inventory.ints()),
        recipe.price as int,
    )
}

/// A rating as the engine computes it.
#[derive(Clone, Copy, Debug)]
pub struct Score {
    /// Numerator of the fraction.
    pub num: i128,
    /// Denominator of the fraction.
    pub den: i128,
}

impl View for Score {
    type V = Rating;

    open spec fn view(&self) -> Rating {
        Rating { num: self.num as int, den: self.den as int }
    }
}

impl Score {
    /// The bounds within which two scores can be compared without overflow.
    /// Every score that [`rate`] returns is within them.
    pub open spec fn wf(&self) -> bool {
        &&& -0x400_0000_0000_0000_0000 <= self.num <= 0x400_0000_0000_0000_0000
        &&& 0 <= self.den <= 0x40_0000_0000
    }

    /// Whether `self` is a strictly greater fraction than `other`.
    pub fn exceeds(&self, other: &Score) -> (b: bool)
        requires
            self.wf(),
            other.wf(),
        ensures
            b == self@.exceeds(other@),
    {
        assert(-0x1_0000_0000_0000_0000_0000_0000_0000 <= self.num * other.den
            <= 0x1_0000_0000_0000_0000_0000_0000_0000) by (nonlinear_arith)
            requires
                -0x400_0000_0000_0000_0000 <= self.num <= 0x400_0000_0000_0000_0000,
                0 <= other.den <= 0x40_0000_0000,
        ;
        assert(-0x1_0000_0000_0000_0000_0000_0000_0000 <= other.num * self.den
            <= 0x1_0000_0000_0000_0000_0000_0000_0000) by (nonlinear_arith)
            requires
                -0x400_0000_0000_0000_0000 <= other.num <= 0x400_0000_0000_0000_0000,
                0 <= self.den <= 0x40_0000_0000,
        ;
        self.num * other.den > other.num * self.den
    }

    /// Whether the fraction is below zero.
    pub fn is_negative(&self) -> (b: bool)
        ensures
            b == self@.is_negative(),
    {
        self.num < 0
    }
}

/// A shortfall counted only where it is positive.
fn lacking(required: i64) -> (n: i128)
    ensures
        n == if required > 0 { required as int } else { 0 },
{
    if required > 0 {
        required as i128
    } else {
        0
    }
}

/// Rates `spell` against `recipe` for the player `me`.
pub fn rate(me: &Player, recipe: &Recipe, spell: &Spell) -> (score: Score)
    ensures
        score@ == rating(*me, *recipe, *spell),
        score.wf(),
{
    let r0: i64 = recipe.ingredients[0] as i64 - me.inventory[0] as i64;
    let r1: i64 = recipe.ingredients[1] as i64 - me.inventory[1] as i64;
    let r2: i64 = recipe.ingredients[2] as i64 - me.inventory[2] as i64;
    let r3: i64 = recipe.ingredients[3] as i64 - me.inventory[3] as i64;
    let u = Usefulness::total(
        Usefulness::of_tier(spell.delta[0], r0),
        Usefulness::of_tier(spell.delta[1], r1),
        Usefulness::of_tier(spell.delta[2], r2),
        Usefulness::of_tier(spell.delta[3], r3),
    );
    let need: i128 = lacking(r0) + lacking(r1) + lacking(r2) + lacking(r3);
    let mean: i128 = MEAN_PRICE as i128;
    assert(mean == 10);
    let den: i128 = need * mean;
    let gain: i128 = u.advancement as i128;
    let price: i128 = recipe.price as i128;
    let net: i128 = u.cleaning as i128 - u.regression as i128;
    assert(0 <= gain * price <= 0x2_0000_0000_0000_0000) by (nonlinear_arith)
        requires
            0 <= gain <= 0x2_0000_0000,
            0 <= price <= 0xffff_ffff,
    ;
    assert(-0x200_0000_0000_0000_0000 <= net * den <= 0x200_0000_0000_0000_0000)
        by (nonlinear_arith)
        requires
            -0x8_0000_0000 <= net <= 0x8_0000_0000,
            0 <= den <= 0x40_0000_0000,
    ;
    proof {
        let required = shortfall_of(recipe.ingredients.ints(), me.inventory.ints());
        assert(required[0] == r0 && required[1] == r1 && required[2] == r2 && required[3] == r3);
        assert(need == need_of(required));
    }
    Score { num: gain * price + net * den, den }
}

/// Whether recipe `i` is within reach of the player's inventory.
pub open spec fn brewable(recipes: Seq<Recipe>, me: Player, i: int) -> bool {
    0 <= i < recipes.len() && me.can_brew_spec(&recipes[i])
}

/// Whether recipe `i` is the one to brew: it can be brewed, no recipe that
/// can be brewed pays more, and none before it pays as much.
pub open spec fn is_best_brew(recipes: Seq<Recipe>, me: Player, i: int) -> bool {
    &&& brewable(recipes, me, i)
    &&& forall|j: int| brewable(recipes, me, j) ==> recipes[j].price <= recipes[i].price
    &&& forall|j: int| brewable(recipes, me, j) && j < i ==> recipes[j].price < recipes[i].price
}

/// Whether ready spell `s` can be cast.
pub open spec fn castable(me: Player, s: int) -> bool {
    0 <= s < me.ready_spells@.len() && me.can_cast_spec(&me.ready_spells@[s])
}

/// Whether casting ready spell `s` with recipe `r` in mind is an option.
pub open spec fn candidate(recipes: Seq<Recipe>, me: Player, r: int, s: int) -> bool {
    0 <= r < recipes.len() && castable(me, s)
}

/// The rating of ready spell `s` against recipe `r`.
pub open spec fn rating_at(recipes: Seq<Recipe>, me: Player, r: int, s: int) -> Rating {
    rating(me, recipes[r], me.ready_spells@[s])
}

/// Whether the pair `(r1, s1)` is met before `(r2, s2)` when the recipes are
/// gone through in order and, for each recipe, the spells in order.
pub open spec fn precedes(r1: int, s1: int, r2: int, s2: int) -> bool {
    r1 < r2 || (r1 == r2 && s1 < s2)
}

/// Whether ready spell `s`, rated against recipe `r`, is the one to cast: no
/// option is rated higher, and no option met before it is rated as high.
///
/// This is the spell that is left when each recipe keeps its best-rated
/// spell, and the best-rated recipe is kept among those, the first winning
/// every tie.
pub open spec fn is_best_cast(recipes: Seq<Recipe>, me: Player, r: int, s: int) -> bool {
    &&& candidate(recipes, me, r, s)
    &&& forall|r2: int, s2: int| #[trigger]
        candidate(recipes, me, r2, s2) ==> !rating_at(recipes, me, r2, s2).exceeds(
            rating_at(recipes, me, r, s),
        )
    &&& forall|r2: int, s2: int| #[trigger]
        candidate(recipes, me, r2, s2) && precedes(r2, s2, r, s) ==> rating_at(
            recipes,
            me,
            r,
            s,
        ).exceeds(rating_at(recipes, me, r2, s2))
}

/// Whether a turn can be decided: with a spell to cast there must be a recipe
/// to rate it against.
pub open spec fn decidable(recipes: Seq<Recipe>, me: Player) -> bool {
    recipes.len() == 0 ==> forall|s: int| !castable(me, s)
}

/// The action of the turn.
pub open spec fn decide(recipes: Seq<Recipe>, me: Player) -> Action {
    if exists|i: int| brewable(recipes, me, i) {
        Action::Brew(recipes[choose|i: int| is_best_brew(recipes, me, i)].id)
    } else if exists|r: int, s: int| candidate(recipes, me, r, s) {
        let (r, s) = choose|r: int, s: int| is_best_cast(recipes, me, r, s);
        if rating_at(recipes, me, r, s).is_negative() && norm1_of(me.inventory.ints())
            >= NEARLY_FULL {
            Action::Rest
        } else {
            Action::Cast(me.ready_spells@[s].id)
        }
    } else {
        Action::Rest
    }
}

/// At most one recipe is the one to brew.
pub proof fn lemma_best_brew_unique(recipes: Seq<Recipe>, me: Player, i: int, j: int)
    requires
        is_best_brew(recipes, me, i),
        is_best_brew(recipes, me, j),
    ensures
        i == j,
{
}

/// At most one spell is the one to cast.
pub proof fn lemma_best_cast_unique(
    recipes: Seq<Recipe>,
    me: Player,
    r1: int,
    s1: int,
    r2: int,
    s2: int,
)
    requires
        is_best_cast(recipes, me, r1, s1),
        is_best_cast(recipes, me, r2, s2),
    ensures
        r1 == r2,
        s1 == s2,
{
    if precedes(r1, s1, r2, s2) {
        assert(candidate(recipes, me, r1, s1));
        assert(rating_at(recipes, me, r2, s2).exceeds(rating_at(recipes, me, r1, s1)));
    } else if precedes(r2, s2, r1, s1) {
        assert(candidate(recipes, me, r2, s2));
        assert(rating_at(recipes, me, r1, s1).exceeds(rating_at(recipes, me, r2, s2)));
    }
}

/// Among the first `n` recipes, if one can be brewed, one is the one to brew.
proof fn lemma_best_brew_among(recipes: Seq<Recipe>, me: Player, n: int) -> (b: int)
    requires
        0 <= n <= recipes.len(),
        exists|j: int| brewable(recipes, me, j) && j < n,
    ensures
        brewable(recipes, me, b),
        b < n,
        forall|j: int| brewable(recipes, me, j) && j < n ==> recipes[j].price <= recipes[b].price,
        forall|j: int| brewable(recipes, me, j) && j < b ==> recipes[j].price < recipes[b].price,
    decreases n,
{
    if exists|j: int| brewable(recipes, me, j) && j < n - 1 {
        let before = lemma_best_brew_among(recipes, me, n - 1);
        if brewable(recipes, me, n - 1) && recipes[n - 1].price > recipes[before].price {
            n - 1
        } else {
            before
        }
    } else {
        n - 1
    }
}

/// Where a recipe can be brewed, exactly one recipe is the one to brew.
pub proof fn lemma_best_brew_exists(recipes: Seq<Recipe>, me: Player)
    requires
        exists|i: int| brewable(recipes, me, i),
    ensures
        exists|i: int| is_best_brew(recipes, me, i),
{
    let b = lemma_best_brew_among(recipes, me, recipes.len() as int);
    assert(is_best_brew(recipes, me, b));
}

/// Brewing comes first: as soon as any recipe can be brewed, the turn's
/// action is to brew, whatever spells there are, and the recipe brewed is one
/// that can be brewed and that no other such recipe pays more than.
pub proof fn lemma_brew_has_priority(recipes: Seq<Recipe>, me: Player, i: int)
    requires
        brewable(recipes, me, i),
    ensures
        exists|b: int|
            {
                &&& #[trigger] brewable(recipes, me, b)
                &&& recipes[b].price >= recipes[i].price
                &&& decide(recipes, me) == Action::Brew(recipes[b].id)
            },
{
    lemma_best_brew_exists(recipes, me);
    let b = choose|b: int| is_best_brew(recipes, me, b);
    assert(brewable(recipes, me, b));
}

/// Ties go to the first: of the recipes that can be brewed and pay the most,
/// the one given first is brewed.
pub proof fn lemma_first_best_paid_is_brewed(recipes: Seq<Recipe>, me: Player, i: int)
    requires
        brewable(recipes, me, i),
        forall|j: int| brewable(recipes, me, j) ==> recipes[j].price <= recipes[i].price,
        forall|j: int| brewable(recipes, me, j) && j < i ==> recipes[j].price != recipes[i].price,
    ensures
        decide(recipes, me) == Action::Brew(recipes[i].id),
{
    assert(is_best_brew(recipes, me, i));
    let b = choose|b: int| is_best_brew(recipes, me, b);
    lemma_best_brew_unique(recipes, me, i, b);
}

/// A recipe that cannot be brewed lacks at least one ingredient.
pub proof fn lemma_need_positive(me: Player, recipe: Recipe)
    requires
        !me.can_brew_spec(&recipe),
    ensures
        need_of(shortfall_of(recipe.ingredients.ints(), me.inventory.ints())) >= 1,
{
    let i = choose|i: int| 0 <= i < 4 && !(#[trigger] me.inventory@[i] >= recipe.ingredients@[i]);
    let required = shortfall_of(recipe.ingredients.ints(), me.inventory.ints());
    assert(required[i] >= 1);
    assert(positive_of(required)[i] >= 1);
}

/// Being rated higher carries over: what exceeds one rating exceeds every
/// rating that this one is not below.
pub proof fn lemma_exceeds_carries(a: Rating, b: Rating, c: Rating)
    requires
        a.den > 0,
        b.den > 0,
        c.den > 0,
        a.exceeds(b),
        !c.exceeds(b),
    ensures
        a.exceeds(c),
{
    assert(a.num * c.den > c.num * a.den) by (nonlinear_arith)
        requires
            a.den > 0,
            b.den > 0,
            c.den > 0,
            a.num * b.den > b.num * a.den,
            c.num * b.den <= b.num * c.den,
    ;
}

/// Whether ready spell `s` is the one kept for recipe `r`: no spell that can
/// be cast is rated higher against `r`, and none before it is rated as high.
#[verifier::opaque]
pub open spec fn is_best_for(recipes: Seq<Recipe>, me: Player, r: int, s: int) -> bool {
    &&& candidate(recipes, me, r, s)
    &&& forall|s2: int| #[trigger]
        castable(me, s2) ==> !rating_at(recipes, me, r, s2).exceeds(rating_at(recipes, me, r, s))
    &&& forall|s2: int| #[trigger]
        castable(me, s2) && s2 < s ==> rating_at(recipes, me, r, s).exceeds(
            rating_at(recipes, me, r, s2),
        )
}

/// Whether ready spell `s` is the one kept for recipe `r`, and `r` the recipe
/// kept among all: no recipe's kept spell is rated higher, and none of an
/// earlier recipe is rated as high.
pub open spec fn is_best_kept(recipes: Seq<Recipe>, me: Player, r: int, s: int) -> bool {
    &&& is_best_for(recipes, me, r, s)
    &&& forall|r2: int, s2: int| #[trigger]
        is_best_for(recipes, me, r2, s2) ==> !rating_at(recipes, me, r2, s2).exceeds(
            rating_at(recipes, me, r, s),
        )
    &&& forall|r2: int, s2: int| #[trigger]
        is_best_for(recipes, me, r2, s2) && r2 < r ==> rating_at(recipes, me, r, s).exceeds(
            rating_at(recipes, me, r2, s2),
        )
}

/// Every option is rated over a positive denominator while no recipe can be
/// brewed.
proof fn lemma_ratings_positive(recipes: Seq<Recipe>, me: Player)
    requires
        forall|i: int| !brewable(recipes, me, i),
    ensures
        forall|r: int, s: int| 0 <= r < recipes.len() ==> (#[trigger] rating_at(
            recipes,
            me,
            r,
            s,
        )).den > 0,
{
    assert forall|r: int, s: int| 0 <= r < recipes.len() implies (#[trigger] rating_at(
        recipes,
        me,
        r,
        s,
    )).den > 0 by {
        assert(!brewable(recipes, me, r));
        lemma_need_positive(me, recipes[r]);
    }
}

/// What is not rated higher than a rating is not rated higher than any rating
/// that this one does not exceed.
proof fn lemma_not_exceeding_carries(a: Rating, b: Rating, c: Rating)
    requires
        a.den > 0,
        b.den > 0,
        c.den > 0,
        !a.exceeds(b),
        !b.exceeds(c),
    ensures
        !a.exceeds(c),
{
    if a.exceeds(c) {
        lemma_exceeds_carries(a, c, b);
    }
}

/// Among the first `n` ready spells, if one can be cast, one is the best
/// against recipe `r`.
proof fn lemma_best_for_among(recipes: Seq<Recipe>, me: Player, r: int, n: int) -> (b: int)
    requires
        forall|i: int| !brewable(recipes, me, i),
        0 <= r < recipes.len(),
        0 <= n <= me.ready_spells@.len(),
        exists|s: int| castable(me, s) && s < n,
    ensures
        castable(me, b),
        b < n,
        forall|s: int| #[trigger]
            castable(me, s) && s < n ==> !rating_at(recipes, me, r, s).exceeds(
                rating_at(recipes, me, r, b),
            ),
        forall|s: int| #[trigger]
            castable(me, s) && s < b ==> rating_at(recipes, me, r, b).exceeds(
                rating_at(recipes, me, r, s),
            ),
    decreases n,
{
    lemma_ratings_positive(recipes, me);
    if exists|s: int| castable(me, s) && s < n - 1 {
        let before = lemma_best_for_among(recipes, me, r, n - 1);
        let last = rating_at(recipes, me, r, n - 1);
        let kept = rating_at(recipes, me, r, before);
        if castable(me, n - 1) && last.exceeds(kept) {
            assert forall|s: int| #[trigger] castable(me, s) && s < n - 1 implies last.exceeds(
                rating_at(recipes, me, r, s),
            ) by {
                lemma_exceeds_carries(last, kept, rating_at(recipes, me, r, s));
            }
            n - 1
        } else {
            before
        }
    } else {
        n - 1
    }
}

/// Each recipe keeps exactly one spell, as soon as a spell can be cast.
proof fn lemma_best_for_exists(recipes: Seq<Recipe>, me: Player, r: int) -> (s: int)
    requires
        forall|i: int| !brewable(recipes, me, i),
        0 <= r < recipes.len(),
        exists|s: int| castable(me, s),
    ensures
        is_best_for(recipes, me, r, s),
{
    reveal(is_best_for);
    lemma_best_for_among(recipes, me, r, me.ready_spells@.len() as int)
}

/// A recipe keeps at most one spell.
proof fn lemma_best_for_unique(recipes: Seq<Recipe>, me: Player, r: int, s1: int, s2: int)
    requires
        is_best_for(recipes, me, r, s1),
        is_best_for(recipes, me, r, s2),
    ensures
        s1 == s2,
{
    reveal(is_best_for);
    if s1 < s2 {
        assert(castable(me, s1));
    } else if s2 < s1 {
        assert(castable(me, s2));
    }
}

/// A spell kept for a recipe is an option.
proof fn lemma_best_for_is_candidate(recipes: Seq<Recipe>, me: Player)
    ensures
        forall|r: int, s: int| #[trigger]
            is_best_for(recipes, me, r, s) ==> candidate(recipes, me, r, s),
{
    reveal(is_best_for);
}

/// Among the first `n` recipes, one is the best with the spell it keeps.
proof fn lemma_best_kept_among(recipes: Seq<Recipe>, me: Player, n: int) -> (b: (int, int))
    requires
        forall|i: int| !brewable(recipes, me, i),
        0 < n <= recipes.len(),
        exists|s: int| castable(me, s),
    ensures
        is_best_for(recipes, me, b.0, b.1),
        b.0 < n,
        forall|r2: int, s2: int| #[trigger]
            is_best_for(recipes, me, r2, s2) && r2 < n ==> !rating_at(recipes, me, r2, s2).exceeds(
                rating_at(recipes, me, b.0, b.1),
            ),
        forall|r2: int, s2: int| #[trigger]
            is_best_for(recipes, me, r2, s2) && r2 < b.0 ==> rating_at(
                recipes,
                me,
                b.0,
                b.1,
            ).exceeds(rating_at(recipes, me, r2, s2)),
    decreases n,
{
    lemma_ratings_positive(recipes, me);
    lemma_best_for_is_candidate(recipes, me);
    let s = lemma_best_for_exists(recipes, me, n - 1);
    let last = rating_at(recipes, me, n - 1, s);
    assert forall|s2: int| #[trigger] is_best_for(recipes, me, n - 1, s2) implies s2 == s by {
        lemma_best_for_unique(recipes, me, n - 1, s, s2);
    }
    if n == 1 {
        (0, s)
    } else {
        let before = lemma_best_kept_among(recipes, me, n - 1);
        let kept = rating_at(recipes, me, before.0, before.1);
        if last.exceeds(kept) {
            assert forall|r2: int, s2: int| #[trigger]
                is_best_for(recipes, me, r2, s2) && r2 < n - 1 implies last.exceeds(
                rating_at(recipes, me, r2, s2),
            ) by {
                lemma_exceeds_carries(last, kept, rating_at(recipes, me, r2, s2));
            }
            (n - 1, s)
        } else {
            before
        }
    }
}

/// Keeping the best spell of each recipe and then the best recipe, the first
/// winning every tie, comes to the same as taking the first of the
/// best-rated options.
pub proof fn lemma_best_cast_is_best_kept(recipes: Seq<Recipe>, me: Player, r: int, s: int)
    requires
        forall|i: int| !brewable(recipes, me, i),
    ensures
        is_best_cast(recipes, me, r, s) <==> is_best_kept(recipes, me, r, s),
{
    reveal(is_best_for);
    lemma_ratings_positive(recipes, me);
    let here = rating_at(recipes, me, r, s);
    if is_best_cast(recipes, me, r, s) {
        assert forall|s2: int| #[trigger] castable(me, s2) implies !rating_at(
            recipes,
            me,
            r,
            s2,
        ).exceeds(here) by {
            assert(candidate(recipes, me, r, s2));
        }
        assert forall|s2: int| #[trigger] castable(me, s2) && s2 < s implies here.exceeds(
            rating_at(recipes, me, r, s2),
        ) by {
            assert(candidate(recipes, me, r, s2));
        }
        assert(is_best_for(recipes, me, r, s));
        assert forall|r2: int, s2: int| #[trigger]
            is_best_for(recipes, me, r2, s2) implies !rating_at(recipes, me, r2, s2).exceeds(
            here,
        ) by {
            assert(candidate(recipes, me, r2, s2));
        }
        assert forall|r2: int, s2: int| #[trigger]
            is_best_for(recipes, me, r2, s2) && r2 < r implies here.exceeds(
            rating_at(recipes, me, r2, s2),
        ) by {
            assert(candidate(recipes, me, r2, s2));
        }
    }
    if is_best_kept(recipes, me, r, s) {
        assert(castable(me, s));
        assert forall|r2: int, s2: int| #[trigger]
            candidate(recipes, me, r2, s2) implies !rating_at(recipes, me, r2, s2).exceeds(
            here,
        ) && (precedes(r2, s2, r, s) ==> here.exceeds(rating_at(recipes, me, r2, s2))) by {
            let kept = lemma_best_for_exists(recipes, me, r2);
            let there = rating_at(recipes, me, r2, s2);
            let best = rating_at(recipes, me, r2, kept);
            assert(castable(me, s2));
            assert(!there.exceeds(best));
            assert(!best.exceeds(here));
            lemma_not_exceeding_carries(there, best, here);
            if r2 < r {
                lemma_exceeds_carries(here, best, there);
            }
        }
    }
}

/// With a spell to cast, a recipe to rate it against and nothing to brew,
/// exactly one option is the one to cast.
pub proof fn lemma_best_cast_exists(recipes: Seq<Recipe>, me: Player)
    requires
        forall|i: int| !brewable(recipes, me, i),
        exists|r: int, s: int| candidate(recipes, me, r, s),
    ensures
        exists|r: int, s: int| is_best_cast(recipes, me, r, s),
{
    let (r0, s0) = choose|r: int, s: int| candidate(recipes, me, r, s);
    assert(castable(me, s0));
    let b = lemma_best_kept_among(recipes, me, recipes.len() as int);
    lemma_best_for_is_candidate(recipes, me);
    assert(is_best_kept(recipes, me, b.0, b.1));
    lemma_best_cast_is_best_kept(recipes, me, b.0, b.1);
}

/// The index of the recipe to brew, if any can be brewed.
fn best_brew(recipes: &Vec<Recipe>, me: &Player) -> (found: Option<usize>)
    ensures
        match found {
            Some(i) => is_best_brew(recipes@, *me, i as int),
            None => forall|j: int| !brewable(recipes@, *me, j),
        },
{
    let mut found: Option<usize> = None;
    for k in 0..recipes.len()
        invariant
            match found {
                Some(i) => {
                    &&& i < k
                    &&& brewable(recipes@, *me, i as int)
                    &&& forall|j: int|
                        brewable(recipes@, *me, j) && j < k ==> recipes@[j].price
                            <= recipes@[i as int].price
                    &&& forall|j: int|
                        brewable(recipes@, *me, j) && j < i ==> recipes@[j].price
                            < recipes@[i as int].price
                },
                None => forall|j: int| brewable(recipes@, *me, j) ==> j >= k,
            },
    {
        if me.can_brew(&recipes[k]) {
            let better = match found {
                Some(i) => recipes[k].price > recipes[i].price,
                None => true,
            };
            if better {
                found = Some(k);
            }
        }
    }
    found
}

/// What is known of the best option among those met before `(r, s)`.
spec fn best_before(
    recipes: Seq<Recipe>,
    me: Player,
    r: int,
    s: int,
    best: Option<(usize, usize, Score)>,
) -> bool {
    match best {
        Some((rb, sb, score)) => {
            &&& candidate(recipes, me, rb as int, sb as int)
            &&& precedes(rb as int, sb as int, r, s)
            &&& score@ == rating_at(recipes, me, rb as int, sb as int)
            &&& score.wf()
            &&& forall|r2: int, s2: int| #[trigger]
                candidate(recipes, me, r2, s2) && precedes(r2, s2, r, s) ==> !rating_at(
                    recipes,
                    me,
                    r2,
                    s2,
                ).exceeds(score@)
            &&& forall|r2: int, s2: int| #[trigger]
                candidate(recipes, me, r2, s2) && precedes(r2, s2, rb as int, sb as int)
                    ==> score@.exceeds(rating_at(recipes, me, r2, s2))
        },
        None => forall|r2: int, s2: int| #[trigger]
            candidate(recipes, me, r2, s2) ==> !precedes(r2, s2, r, s),
    }
}

/// The best option with `(r, s)` taken into account, given the best among
/// the options before it.
proof fn lemma_best_step(
    recipes: Seq<Recipe>,
    me: Player,
    r: int,
    s: int,
    best: Option<(usize, usize, Score)>,
    score: Score,
) -> (next: Option<(usize, usize, Score)>)
    requires
        forall|i: int| !brewable(recipes, me, i),
        0 <= r < recipes.len(),
        0 <= s < me.ready_spells@.len(),
        r <= usize::MAX,
        s <= usize::MAX,
        best_before(recipes, me, r, s, best),
        castable(me, s) ==> score@ == rating_at(recipes, me, r, s) && score.wf(),
    ensures
        best_before(recipes, me, r, s + 1, next),
        next == if castable(me, s) && (best matches Some(b) ==> score@.exceeds(b.2@)) {
            Some((r as usize, s as usize, score))
        } else {
            best
        },
{
    let next = if castable(me, s) && (best matches Some(b) ==> score@.exceeds(b.2@)) {
        Some((r as usize, s as usize, score))
    } else {
        best
    };
    assert forall|r2: int, s2: int| #[trigger] candidate(recipes, me, r2, s2) implies rating_at(
        recipes,
        me,
        r2,
        s2,
    ).den > 0 by {
        assert(!brewable(recipes, me, r2));
        lemma_need_positive(me, recipes[r2]);
    }
    assert forall|r2: int, s2: int|
        precedes(r2, s2, r, s + 1) implies precedes(r2, s2, r, s) || (r2 == r && s2 == s) by {}
    if castable(me, s) {
        assert(candidate(recipes, me, r, s));
        match best {
            Some((rb, sb, b)) => {
                if score@.exceeds(b@) {
                    assert forall|r2: int, s2: int| #[trigger]
                        candidate(recipes, me, r2, s2) && precedes(
                            r2,
                            s2,
                            r,
                            s,
                        ) implies score@.exceeds(rating_at(recipes, me, r2, s2)) by {
                        lemma_exceeds_carries(score@, b@, rating_at(recipes, me, r2, s2));
                    }
                    assert forall|r2: int, s2: int| #[trigger]
                        candidate(recipes, me, r2, s2) && precedes(
                            r2,
                            s2,
                            r,
                            s + 1,
                        ) implies !rating_at(recipes, me, r2, s2).exceeds(score@) by {
                        if r2 == r && s2 == s {
                        } else {
                            assert(precedes(r2, s2, r, s));
                            assert(score@.exceeds(rating_at(recipes, me, r2, s2)));
                        }
                    }
                    assert(best_before(recipes, me, r, s + 1, next));
                } else {
                    assert(best_before(recipes, me, r, s + 1, next));
                }
            },
            None => {
                assert forall|r2: int, s2: int| #[trigger]
                    candidate(recipes, me, r2, s2) && precedes(
                        r2,
                        s2,
                        r,
                        s + 1,
                    ) implies r2 == r && s2 == s by {}
                assert(best_before(recipes, me, r, s + 1, next));
            },
        }
    } else {
        assert(!candidate(recipes, me, r, s));
        assert(best_before(recipes, me, r, s + 1, next));
    }
    next
}

/// The recipe and the ready spell of the best option to cast, with its score,
/// if there is a spell to cast and a recipe to rate it against.
fn best_cast(recipes: &Vec<Recipe>, me: &Player) -> (best: Option<(usize, usize, Score)>)
    requires
        forall|i: int| !brewable(recipes@, *me, i),
    ensures
        match best {
            Some((r, s, score)) => {
                &&& is_best_cast(recipes@, *me, r as int, s as int)
                &&& score@ == rating_at(recipes@, *me, r as int, s as int)
            },
            None => forall|r: int, s: int| !candidate(recipes@, *me, r, s),
        },
{
    let mut best: Option<(usize, usize, Score)> = None;
    for r in 0..recipes.len()
        invariant
            forall|i: int| !brewable(recipes@, *me, i),
            best_before(recipes@, *me, r as int, 0, best),
    {
        for s in 0..me.ready_spells.len()
            invariant
                forall|i: int| !brewable(recipes@, *me, i),
                r < recipes.len(),
                best_before(recipes@, *me, r as int, s as int, best),
        {
            let ghost before = best;
            let mut score = Score { num: 0, den: 0 };
            let mut replace = false;
            if me.can_cast(&me.ready_spells[s]) {
                score = rate(me, &recipes[r], &me.ready_spells[s]);
                replace = match best {
                    Some(b) => score.exceeds(&b.2),
                    None => true,
                };
            }
            if replace {
                best = Some((r, s, score));
            }
            proof {
                let next = lemma_best_step(recipes@, *me, r as int, s as int, before, score);
                assert(next == best);
            }
        }
        proof {
            assert forall|r2: int, s2: int| #[trigger]
                candidate(recipes@, *me, r2, s2) && precedes(
                    r2,
                    s2,
                    r + 1,
                    0,
                ) implies precedes(r2, s2, r as int, me.ready_spells@.len() as int) by {}
        }
    }
    proof {
        assert forall|r2: int, s2: int| #[trigger]
            candidate(recipes@, *me, r2, s2) implies precedes(
            r2,
            s2,
            recipes@.len() as int,
            0,
        ) by {}
    }
    best
}

/// Whether the inventory holds at least [`NEARLY_FULL`] ingredients.
fn nearly_full(inventory: &Vec4<u32>) -> (b: bool)
    ensures
        b == (norm1_of(inventory.ints()) >= NEARLY_FULL),
{
    let held: u64 = inventory[0] as u64 + inventory[1] as u64 + inventory[2] as u64
        + inventory[3] as u64;
    held >= NEARLY_FULL as u64
}

/// Decides the turn for the player at [`ME`]. The other player is not
/// consulted.
///
/// A turn with a spell to cast and no recipe at all cannot be decided.
pub fn play(input: &Input) -> (action: Action)
    requires
        decidable(input.recipes@, input.players@[ME as int]),
    ensures
        action == decide(input.recipes@, input.players@[ME as int]),
{
    let me = &input.players[ME];
    let recipes = &input.recipes;
    match best_brew(recipes, me) {
        Some(i) => {
            proof {
                assert(brewable(recipes@, *me, i as int));
                let c = choose|j: int| is_best_brew(recipes@, *me, j);
                lemma_best_brew_unique(recipes@, *me, i as int, c);
            }
            return Action::Brew(recipes[i].id);
        },
        None => {},
    }
    match best_cast(recipes, me) {
        Some((r, s, score)) => {
            proof {
                assert(candidate(recipes@, *me, r as int, s as int));
                let (cr, cs) = choose|cr: int, cs: int| is_best_cast(recipes@, *me, cr, cs);
                lemma_best_cast_unique(recipes@, *me, r as int, s as int, cr, cs);
            }
            if score.is_negative() && nearly_full(&me.inventory) {
                Action::Rest
            } else {
                Action::Cast(me.ready_spells[s].id)
            }
        },
        None => Action::Rest,
    }
}

} // verus!
