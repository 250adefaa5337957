//! The state of one turn, and how it is read from the lines of the contest's
//! text protocol.
//!
//! A turn is handed over as a number of entity lines, followed by one line
//! for each player, the deciding player first. The fields of a line are
//! separated by single spaces and counted from zero.
//!
//! An entity line holds an identifier in field 0 and a keyword in field 1.
//! After `BREW` come four costs in fields 2 to 5, each written as the negated
//! cost, and the price in field 6. After `CAST` and `OPPONENT_CAST` come four
//! changes in fields 2 to 5, and the tome index, the tax count, the castable
//! flag and the repeatable flag in fields 7 to 10. After `LEARN` nothing is
//! read. A player line holds the four inventory counts and the score.
//!
//! Fields are read in the order just given, after the keyword, and the first
//! one that is absent or malformed is the line's fault. Fields beyond those
//! named are ignored.

use vstd::prelude::*;
use vstd::string::*;
use crate::base::Learn;
use crate::base::Recipe;
use crate::base::Spell;
use crate::player::is_ready;
use crate::player::is_used;
use crate::player::Player;
use crate::text::chars_of;
use crate::text::i32_of;
use crate::text::is_word;
use crate::text::pieces;
use crate::text::read_i32;
use crate::text::read_u32;
use crate::text::split;
use crate::text::split_fields;
use crate::text::trim_bounds;
use crate::text::trimmed;
use crate::text::u32_of;
use crate::text::within;
use crate::vec::Vec4;

verus! {

broadcast use crate::vec::group_vec4;

/// Position of the deciding player in [`Input::players`].
pub const ME: usize = 0;

/// Position of the other player in [`Input::players`].
pub const OPPONENT: usize = 1;

/// Why a line could not be read.
#[derive(Clone, Debug)]
pub enum ParseError {
    /// The line has no field at this position.
    MissingField(usize),
    /// The field at this position is not a number of the kind expected there.
    MalformedField(usize),
    /// The keyword of an entity line is none of those known. Holds the
    /// keyword.
    UnknownKind(String),
}

/// What a [`ParseError`] says, with the keyword as a sequence of characters.
pub enum Fault {
    MissingField(usize),
    MalformedField(usize),
    UnknownKind(Seq<char>),
}

impl View for ParseError {
    type V = Fault;

    open spec fn view(&self) -> Fault {
        match self {
            ParseError::MissingField(k) => Fault::MissingField(*k),
            ParseError::MalformedField(k) => Fault::MalformedField(*k),
            ParseError::UnknownKind(word) => Fault::UnknownKind(word@),
        }
    }
}

/// A result with its error, if any, replaced by what the error says.
pub open spec fn seen<T>(r: Result<T, ParseError>) -> Result<T, Fault> {
    match r {
        Ok(v) => Ok(v),
        Err(e) => Err(e@),
    }
}

/// Field `k` of `line`, trimmed, if the line has that many fields.
pub open spec fn field(line: Seq<char>, k: usize) -> Option<Seq<char>> {
    let fields = split(line, ' ');
    if k < fields.len() {
        Some(trimmed(fields[k as int]))
    } else {
        None
    }
}

/// Field `k` of `line` as a signed number.
pub open spec fn signed_field(line: Seq<char>, k: usize) -> Result<i32, Fault> {
    match field(line, k) {
        None => Err(Fault::MissingField(k)),
        Some(word) => match i32_of(word) {
            Some(n) => Ok(n),
            None => Err(Fault::MalformedField(k)),
        },
    }
}

/// Field `k` of `line` as an unsigned number.
pub open spec fn unsigned_field(line: Seq<char>, k: usize) -> Result<u32, Fault> {
    match field(line, k) {
        None => Err(Fault::MissingField(k)),
        Some(word) => match u32_of(word) {
            Some(n) => Ok(n),
            None => Err(Fault::MalformedField(k)),
        },
    }
}

/// Field `k` of `line` as a cost: the field holds the negated cost, so it
/// must be a signed number that is not positive and whose negation fits.
pub open spec fn cost_field(line: Seq<char>, k: usize) -> Result<u32, Fault> {
    match signed_field(line, k) {
        Err(fault) => Err(fault),
        Ok(n) => if i32::MIN < n <= 0 {
            Ok((-n) as u32)
        } else {
            Err(Fault::MalformedField(k))
        },
    }
}

/// The recipe that a `BREW` line describes.
pub open spec fn recipe_of(line: Seq<char>) -> Result<Recipe, Fault> {
    let id = signed_field(line, 0);
    let c0 = cost_field(line, 2);
    let c1 = cost_field(line, 3);
    let c2 = cost_field(line, 4);
    let c3 = cost_field(line, 5);
    let price = unsigned_field(line, 6);
    if id is Err {
        Err(id->Err_0)
    } else if c0 is Err {
        Err(c0->Err_0)
    } else if c1 is Err {
        Err(c1->Err_0)
    } else if c2 is Err {
        Err(c2->Err_0)
    } else if c3 is Err {
        Err(c3->Err_0)
    } else if price is Err {
        Err(price->Err_0)
    } else {
        Ok(
            Recipe {
                id: id->Ok_0,
                ingredients: Vec4::quad(c0->Ok_0, c1->Ok_0, c2->Ok_0, c3->Ok_0),
                price: price->Ok_0,
            },
        )
    }
}

/// The spell that a `CAST` or `OPPONENT_CAST` line describes.
pub open spec fn spell_of(line: Seq<char>) -> Result<Spell, Fault> {
    let id = signed_field(line, 0);
    let d0 = signed_field(line, 2);
    let d1 = signed_field(line, 3);
    let d2 = signed_field(line, 4);
    let d3 = signed_field(line, 5);
    let tome_index = signed_field(line, 7);
    let tax_count = signed_field(line, 8);
    let castable = signed_field(line, 9);
    let repeatable = signed_field(line, 10);
    if id is Err {
        Err(id->Err_0)
    } else if d0 is Err {
        Err(d0->Err_0)
    } else if d1 is Err {
        Err(d1->Err_0)
    } else if d2 is Err {
        Err(d2->Err_0)
    } else if d3 is Err {
        Err(d3->Err_0)
    } else if tome_index is Err {
        Err(tome_index->Err_0)
    } else if tax_count is Err {
        Err(tax_count->Err_0)
    } else if castable is Err {
        Err(castable->Err_0)
    } else if repeatable is Err {
        Err(repeatable->Err_0)
    } else {
        Ok(
            Spell {
                id: id->Ok_0,
                delta: Vec4::quad(d0->Ok_0, d1->Ok_0, d2->Ok_0, d3->Ok_0),
                tome_index: tome_index->Ok_0,
                tax_count: tax_count->Ok_0,
                castable: castable->Ok_0 == 1,
                repeatable: repeatable->Ok_0,
            },
        )
    }
}

/// The entity that `line` describes.
pub open spec fn entity_of(line: Seq<char>) -> Result<InputAction, Fault> {
    match field(line, 1) {
        None => Err(Fault::MissingField(1)),
        Some(kind) => if kind == "BREW"@ {
            match recipe_of(line) {
                Ok(recipe) => Ok(InputAction::Brew(recipe)),
                Err(fault) => Err(fault),
            }
        } else if kind == "CAST"@ {
            match spell_of(line) {
                Ok(spell) => Ok(InputAction::Cast(spell)),
                Err(fault) => Err(fault),
            }
        } else if kind == "OPPONENT_CAST"@ {
            match spell_of(line) {
                Ok(spell) => Ok(InputAction::OpponentCast(spell)),
                Err(fault) => Err(fault),
            }
        } else if kind == "LEARN"@ {
            Ok(InputAction::Learn(Learn))
        } else {
            Err(Fault::UnknownKind(kind))
        },
    }
}

/// The inventory and the score that a player line holds.
pub open spec fn holdings_of(line: Seq<char>) -> Result<(Vec4<u32>, i32), Fault> {
    let i0 = unsigned_field(line, 0);
    let i1 = unsigned_field(line, 1);
    let i2 = unsigned_field(line, 2);
    let i3 = unsigned_field(line, 3);
    let score = signed_field(line, 4);
    if i0 is Err {
        Err(i0->Err_0)
    } else if i1 is Err {
        Err(i1->Err_0)
    } else if i2 is Err {
        Err(i2->Err_0)
    } else if i3 is Err {
        Err(i3->Err_0)
    } else if score is Err {
        Err(score->Err_0)
    } else {
        Ok((Vec4::quad(i0->Ok_0, i1->Ok_0, i2->Ok_0, i3->Ok_0), score->Ok_0))
    }
}

/// How many entity lines the count line `line` announces: the number it
/// holds, or none where that number is negative.
pub open spec fn count_of(line: Seq<char>) -> Result<usize, Fault> {
    match i32_of(trimmed(line)) {
        Some(n) => Ok(if n > 0 { n as usize } else { 0 }),
        None => Err(Fault::MalformedField(0)),
    }
}

/// The entities that the lines describe, in order, or the fault of the first
/// line that describes none.
pub open spec fn entities_of(lines: Seq<Seq<char>>) -> Result<Seq<InputAction>, Fault>
    decreases lines.len(),
{
    if lines.len() == 0 {
        Ok(Seq::empty())
    } else {
        match entities_of(lines.drop_last()) {
            Err(fault) => Err(fault),
            Ok(found) => match entity_of(lines.last()) {
                Err(fault) => Err(fault),
                Ok(entity) => Ok(found.push(entity)),
            },
        }
    }
}

/// Picks the recipes on offer.
pub open spec fn as_recipe() -> spec_fn(InputAction) -> Option<Recipe> {
    |entity: InputAction|
        match entity {
            InputAction::Brew(recipe) => Some(recipe),
            _ => None,
        }
}

/// Picks the spells of the deciding player.
pub open spec fn as_spell() -> spec_fn(InputAction) -> Option<Spell> {
    |entity: InputAction|
        match entity {
            InputAction::Cast(spell) => Some(spell),
            _ => None,
        }
}

/// Picks the spells of the other player.
pub open spec fn as_opponent_spell() -> spec_fn(InputAction) -> Option<Spell> {
    |entity: InputAction|
        match entity {
            InputAction::OpponentCast(spell) => Some(spell),
            _ => None,
        }
}

/// Whether `player` is what the player line `line` and the spells `spells`
/// describe: the inventory and score of the line, and the spells sorted into
/// ready and used, each list in the order given.
pub open spec fn describes(line: Seq<char>, spells: Seq<Spell>, player: Player) -> bool {
    &&& holdings_of(line) == Ok::<(Vec4<u32>, i32), Fault>((player.inventory, player.score))
    &&& player.ready_spells@ == spells.filter(is_ready())
    &&& player.used_spells@ == spells.filter(is_used())
}

/// The fault of a turn: that of its first faulty entity line, else that of
/// the deciding player's line, else that of the other player's line.
pub open spec fn turn_fault(lines: Seq<Seq<char>>, me: Seq<char>, opponent: Seq<char>) -> Option<
    Fault,
> {
    if entities_of(lines) is Err {
        Some(entities_of(lines)->Err_0)
    } else if holdings_of(me) is Err {
        Some(holdings_of(me)->Err_0)
    } else if holdings_of(opponent) is Err {
        Some(holdings_of(opponent)->Err_0)
    } else {
        None
    }
}

/// The texts of `lines` as sequences of characters.
pub open spec fn texts(lines: Seq<String>) -> Seq<Seq<char>> {
    lines.map_values(|line: String| line@)
}

/// A line cut into its fields.
struct Line {
    chars: Vec<char>,
    bounds: Vec<(usize, usize)>,
}

impl Line {
    /// Whether the bounds are those of the fields of the characters.
    spec fn wf(&self) -> bool {
        &&& within(self.bounds@, self.chars@.len() as int)
        &&& pieces(self.chars@, self.bounds@) == split(self.chars@, ' ')
    }

    /// Cuts `line` into its fields.
    fn of(line: &str) -> (cut: Line)
        ensures
            cut.wf(),
            cut.chars@ == line@,
    {
        let chars = chars_of(line);
        let bounds = split_fields(&chars);
        Line { chars, bounds }
    }

    /// The bounds of field `k`, trimmed.
    fn word(&self, k: usize) -> (r: Result<(usize, usize), ParseError>)
        requires
            self.wf(),
        ensures
            match r {
                Ok((from, to)) => from <= to <= self.chars@.len() && field(self.chars@, k) == Some(
                    self.chars@.subrange(from as int, to as int),
                ),
                Err(e) => field(self.chars@, k) is None && e@ == Fault::MissingField(k),
            },
    {
        if k >= self.bounds.len() {
            return Err(ParseError::MissingField(k));
        }
        let (from, to) = self.bounds[k];
        assert(pieces(self.chars@, self.bounds@)[k as int] == self.chars@.subrange(
            from as int,
            to as int,
        ));
        let (a, b) = trim_bounds(&self.chars, from, to);
        Ok((a, b))
    }

    /// Field `k` as a signed number.
    fn signed(&self, k: usize) -> (r: Result<i32, ParseError>)
        requires
            self.wf(),
        ensures
            seen(r) == signed_field(self.chars@, k),
    {
        let (from, to) = self.word(k)?;
        match read_i32(&self.chars, from, to) {
            Some(n) => Ok(n),
            None => Err(ParseError::MalformedField(k)),
        }
    }

    /// Field `k` as an unsigned number.
    fn unsigned(&self, k: usize) -> (r: Result<u32, ParseError>)
        requires
            self.wf(),
        ensures
            seen(r) == unsigned_field(self.chars@, k),
    {
        let (from, to) = self.word(k)?;
        match read_u32(&self.chars, from, to) {
            Some(n) => Ok(n),
            None => Err(ParseError::MalformedField(k)),
        }
    }

    /// Field `k` as a cost.
    fn cost(&self, k: usize) -> (r: Result<u32, ParseError>)
        requires
            self.wf(),
        ensures
            seen(r) == cost_field(self.chars@, k),
    {
        let n = self.signed(k)?;
        if i32::MIN < n && n <= 0 {
            Ok((-n) as u32)
        } else {
            Err(ParseError::MalformedField(k))
        }
    }

    /// The line as a recipe.
    fn recipe(&self) -> (r: Result<Recipe, ParseError>)
        requires
            self.wf(),
        ensures
            seen(r) == recipe_of(self.chars@),
    {
        let id = self.signed(0)?;
        let c0 = self.cost(2)?;
        let c1 = self.cost(3)?;
        let c2 = self.cost(4)?;
        let c3 = self.cost(5)?;
        let price = self.unsigned(6)?;
        let ingredients: Vec4<u32> = Vec4::from([c0, c1, c2, c3]);
        proof {
            assert(ingredients@ =~= Vec4::quad(c0, c1, c2, c3)@);
            ingredients.lemma_ext(Vec4::quad(c0, c1, c2, c3));
        }
        Ok(Recipe { id, ingredients, price })
    }

    /// The line as a spell.
    fn spell(&self) -> (r: Result<Spell, ParseError>)
        requires
            self.wf(),
        ensures
            seen(r) == spell_of(self.chars@),
    {
        let id = self.signed(0)?;
        let d0 = self.signed(2)?;
        let d1 = self.signed(3)?;
        let d2 = self.signed(4)?;
        let d3 = self.signed(5)?;
        let tome_index = self.signed(7)?;
        let tax_count = self.signed(8)?;
        let castable = self.signed(9)?;
        let repeatable = self.signed(10)?;
        let delta: Vec4<i32> = Vec4::from([d0, d1, d2, d3]);
        proof {
            assert(delta@ =~= Vec4::quad(d0, d1, d2, d3)@);
            delta.lemma_ext(Vec4::quad(d0, d1, d2, d3));
        }
        Ok(Spell { id, delta, tome_index, tax_count, castable: castable == 1, repeatable })
    }

    /// The line as a player's inventory and score.
    fn holdings(&self) -> (r: Result<(Vec4<u32>, i32), ParseError>)
        requires
            self.wf(),
        ensures
            seen(r) == holdings_of(self.chars@),
    {
        let i0 = self.unsigned(0)?;
        let i1 = self.unsigned(1)?;
        let i2 = self.unsigned(2)?;
        let i3 = self.unsigned(3)?;
        let score = self.signed(4)?;
        let inventory: Vec4<u32> = Vec4::from([i0, i1, i2, i3]);
        proof {
            assert(inventory@ =~= Vec4::quad(i0, i1, i2, i3)@);
            inventory.lemma_ext(Vec4::quad(i0, i1, i2, i3));
        }
        Ok((inventory, score))
    }
}

/// One entity line of a turn.
#[derive(Clone, Copy, Debug)]
pub enum InputAction {
    /// A recipe on offer.
    Brew(Recipe),
    /// A spell of the deciding player.
    Cast(Spell),
    /// A spell of the other player.
    OpponentCast(Spell),
    /// A spell offered for learning.
    Learn(Learn),
}

impl InputAction {
    /// Reads one entity line.
    pub fn parse(line: &str) -> (r: Result<InputAction, ParseError>)
        ensures
            seen(r) == entity_of(line@),
    {
        let cut = Line::of(line);
        let (from, to) = cut.word(1)?;
        proof {
            reveal_strlit("BREW");
            reveal_strlit("CAST");
            reveal_strlit("OPPONENT_CAST");
            reveal_strlit("LEARN");
        }
        if is_word(&cut.chars, from, to, "BREW") {
            Ok(InputAction::Brew(cut.recipe()?))
        } else if is_word(&cut.chars, from, to, "CAST") {
            Ok(InputAction::Cast(cut.spell()?))
        } else if is_word(&cut.chars, from, to, "OPPONENT_CAST") {
            Ok(InputAction::OpponentCast(cut.spell()?))
        } else if is_word(&cut.chars, from, to, "LEARN") {
            Ok(InputAction::Learn(Learn))
        } else {
            let word = String::from_str(line.substring_char(from, to));
            Err(ParseError::UnknownKind(word))
        }
    }
}

/// Everything a turn's decision may depend on.
#[derive(Clone, Debug)]
pub struct Input {
    /// The recipes on offer, in the order they were given.
    pub recipes: Vec<Recipe>,
    /// The deciding player at [`ME`], the other at [`OPPONENT`].
    pub players: [Player; 2],
}

impl Input {
    /// Reads the line that opens a turn: how many entity lines follow.
    pub fn parse_count(line: &str) -> (r: Result<usize, ParseError>)
        ensures
            seen(r) == count_of(line@),
    {
        let chars = chars_of(line);
        let (from, to) = trim_bounds(&chars, 0, chars.len());
        assert(chars@.subrange(0, chars@.len() as int) =~= chars@);
        match read_i32(&chars, from, to) {
            Some(n) => Ok(if n > 0 { n as usize } else { 0 }),
            None => Err(ParseError::MalformedField(0)),
        }
    }

    /// Reads a player line and sorts the player's spells into those that
    /// can be cast and those that cannot.
    pub fn parse_player(line: &str, spells: Vec<Spell>) -> (r: Result<Player, ParseError>)
        ensures
            match r {
                Ok(player) => describes(line@, spells@, player),
                Err(e) => holdings_of(line@) == Err::<(Vec4<u32>, i32), Fault>(e@),
            },
    {
        let cut = Line::of(line);
        let (inventory, score) = cut.holdings()?;
        Ok(Player::new(inventory, score, spells))
    }

    /// Reads a turn from its entity lines and its two player lines.
    pub fn parse(lines: &Vec<String>, me: &str, opponent: &str) -> (r: Result<Input, ParseError>)
        ensures
            match r {
                Ok(input) => {
                    &&& entities_of(texts(lines@)) matches Ok(found)
                    &&& input.recipes@ == found.filter_map(as_recipe())
                    &&& describes(me@, found.filter_map(as_spell()), input.players@[ME as int])
                    &&& describes(
                        opponent@,
                        found.filter_map(as_opponent_spell()),
                        input.players@[OPPONENT as int],
                    )
                },
                Err(e) => turn_fault(texts(lines@), me@, opponent@) == Some(e@),
            },
    {
        let mut recipes: Vec<Recipe> = Vec::new();
        let mut my_spells: Vec<Spell> = Vec::new();
        let mut opp_spells: Vec<Spell> = Vec::new();
        for i in 0..lines.len()
            invariant
                entities_of(texts(lines@).take(i as int)) matches Ok(found) && recipes@
                    == found.filter_map(as_recipe()) && my_spells@ == found.filter_map(as_spell())
                    && opp_spells@ == found.filter_map(as_opponent_spell()),
        {
            let ghost upto = texts(lines@).take(i + 1);
            let ghost found = entities_of(texts(lines@).take(i as int))->Ok_0;
            proof {
                assert(upto.drop_last() =~= texts(lines@).take(i as int));
                assert(upto.last() == lines@[i as int]@);
            }
            match InputAction::parse(lines[i].as_str()) {
                Ok(entity) => {
                    proof {
                        let all = found.push(entity);
                        assert(entities_of(upto) == Ok::<Seq<InputAction>, Fault>(all));
                        assert(all.drop_last() =~= found);
                    }
                    match entity {
                        InputAction::Brew(recipe) => recipes.push(recipe),
                        InputAction::Cast(spell) => my_spells.push(spell),
                        InputAction::OpponentCast(spell) => opp_spells.push(spell),
                        InputAction::Learn(_) => (),
                    }
                },
                Err(e) => {
                    proof {
                        lemma_fault_stays(texts(lines@), i + 1);
                    }
                    return Err(e);
                },
            }
        }
        assert(texts(lines@).take(lines@.len() as int) =~= texts(lines@));
        let first = Input::parse_player(me, my_spells)?;
        let second = Input::parse_player(opponent, opp_spells)?;
        Ok(Input { recipes, players: [first, second] })
    }
}

/// A fault among the first `n` lines is the fault of all the lines.
proof fn lemma_fault_stays(lines: Seq<Seq<char>>, n: int)
    requires
        0 <= n <= lines.len(),
        entities_of(lines.take(n)) is Err,
    ensures
        entities_of(lines) == entities_of(lines.take(n)),
    decreases lines.len(),
{
    if n < lines.len() {
        assert(lines.drop_last().take(n) =~= lines.take(n));
        lemma_fault_stays(lines.drop_last(), n);
    } else {
        assert(lines.take(n) =~= lines);
    }
}

} // verus!
