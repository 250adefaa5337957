use brew_agent::base::Action;
use brew_agent::base::Recipe;
use brew_agent::base::Spell;
use brew_agent::engine::play;
use brew_agent::engine::rate;
use brew_agent::engine::Score;
use brew_agent::input::Input;
use brew_agent::player::Player;
use brew_agent::vec::Vec4;

fn spell(id: i32, delta: [i32; 4], castable: bool) -> Spell {
    Spell { id, delta: Vec4::from(delta), tome_index: 0, tax_count: 0, castable, repeatable: 0 }
}

fn recipe(id: i32, cost: [u32; 4], price: u32) -> Recipe {
    Recipe { id, ingredients: Vec4::from(cost), price }
}

fn turn(recipes: Vec<Recipe>, inventory: [u32; 4], spells: Vec<Spell>) -> Input {
    let me = Player::new(Vec4::from(inventory), 0, spells);
    let other = Player::new(Vec4::from([9, 9, 9, 9]), 3, vec![spell(99, [9, 9, 9, 9], true)]);
    Input { recipes, players: [me, other] }
}

#[test]
fn brews_the_recipe_it_can_afford() {
    let input = turn(vec![recipe(42, [3, 0, 0, 0], 5)], [3, 0, 0, 0], vec![]);
    assert_eq!(play(&input), Action::Brew(42));
}

#[test]
fn rests_without_a_castable_spell() {
    let input = turn(vec![recipe(42, [3, 0, 0, 0], 5)], [2, 0, 0, 0], vec![]);
    assert_eq!(play(&input), Action::Rest);
    let spent = turn(
        vec![recipe(42, [3, 0, 0, 0], 5)],
        [2, 0, 0, 0],
        vec![spell(1, [1, 0, 0, 0], false)],
    );
    assert_eq!(play(&spent), Action::Rest);
    let too_dear = turn(
        vec![recipe(42, [3, 0, 0, 0], 5)],
        [2, 0, 0, 0],
        vec![spell(1, [1, -1, 0, 0], true)],
    );
    assert_eq!(play(&too_dear), Action::Rest);
}

#[test]
fn rests_with_nothing_at_all() {
    let input = turn(vec![], [0, 0, 0, 0], vec![]);
    assert_eq!(play(&input), Action::Rest);
}

#[test]
fn casts_the_spell_that_fills_the_shortfall() {
    let input = turn(
        vec![recipe(42, [3, 1, 0, 0], 5)],
        [1, 0, 0, 0],
        vec![spell(7, [2, 1, 0, 0], true)],
    );
    assert_eq!(play(&input), Action::Cast(7));
}

#[test]
fn rests_when_every_cast_hurts_and_the_inventory_is_nearly_full() {
    let input = turn(
        vec![recipe(42, [0, 1, 0, 0], 5)],
        [9, 0, 0, 0],
        vec![spell(7, [1, 0, 0, 0], true)],
    );
    assert_eq!(play(&input), Action::Rest);
    let eight = turn(
        vec![recipe(42, [0, 1, 0, 0], 5)],
        [8, 0, 0, 0],
        vec![spell(7, [1, 0, 0, 0], true)],
    );
    assert_eq!(play(&eight), Action::Rest);
}

#[test]
fn casts_a_spell_that_hurts_while_the_inventory_has_room() {
    let input = turn(
        vec![recipe(42, [0, 1, 0, 0], 5)],
        [7, 0, 0, 0],
        vec![spell(7, [1, 0, 0, 0], true)],
    );
    assert_eq!(play(&input), Action::Cast(7));
}

#[test]
fn casts_a_spell_rated_zero_even_when_nearly_full() {
    let input = turn(
        vec![recipe(42, [0, 1, 0, 0], 5)],
        [9, 0, 0, 0],
        vec![spell(7, [0, 0, 0, 0], true)],
    );
    assert_eq!(play(&input), Action::Cast(7));
}

#[test]
fn brewing_comes_before_any_spell() {
    let input = turn(
        vec![recipe(1, [9, 9, 9, 9], 100), recipe(2, [1, 0, 0, 0], 1)],
        [1, 0, 0, 0],
        vec![spell(7, [8, 9, 9, 9], true)],
    );
    assert_eq!(play(&input), Action::Brew(2));
}

#[test]
fn brews_the_best_paid_recipe() {
    let input = turn(
        vec![
            recipe(1, [1, 0, 0, 0], 5),
            recipe(2, [0, 1, 0, 0], 9),
            recipe(3, [0, 0, 0, 5], 50),
            recipe(4, [0, 0, 1, 0], 7),
        ],
        [1, 1, 1, 0],
        vec![],
    );
    assert_eq!(play(&input), Action::Brew(2));
}

#[test]
fn brews_the_first_of_the_best_paid_recipes() {
    let input = turn(
        vec![
            recipe(1, [1, 0, 0, 0], 5),
            recipe(2, [0, 1, 0, 0], 9),
            recipe(3, [0, 0, 1, 0], 9),
            recipe(4, [0, 0, 0, 1], 9),
        ],
        [1, 1, 1, 1],
        vec![],
    );
    assert_eq!(play(&input), Action::Brew(2));
    assert_eq!(play(&input), Action::Brew(2));
}

#[test]
fn casts_the_first_of_the_best_rated_spells() {
    let input = turn(
        vec![recipe(42, [2, 0, 0, 0], 10)],
        [0, 0, 0, 0],
        vec![
            spell(5, [0, 1, 0, 0], true),
            spell(6, [1, 0, 0, 0], true),
            spell(7, [1, 0, 0, 0], true),
        ],
    );
    assert_eq!(play(&input), Action::Cast(6));
}

#[test]
fn casts_the_spell_rated_best_over_all_recipes() {
    let input = turn(
        vec![recipe(1, [4, 0, 0, 0], 10), recipe(2, [0, 1, 0, 0], 30)],
        [0, 0, 0, 0],
        vec![spell(5, [2, 0, 0, 0], true), spell(6, [0, 1, 0, 0], true)],
    );
    assert_eq!(play(&input), Action::Cast(6));
}

#[test]
fn equal_ratings_against_different_recipes_go_to_the_first_recipe() {
    let input = turn(
        vec![recipe(1, [2, 0, 0, 0], 10), recipe(2, [0, 3, 0, 0], 10)],
        [0, 0, 0, 0],
        vec![spell(5, [0, 3, 0, 0], true), spell(6, [2, 0, 0, 0], true)],
    );
    assert_eq!(play(&input), Action::Cast(6));
}

#[test]
fn skips_spells_that_cannot_be_cast() {
    let input = turn(
        vec![recipe(42, [2, 0, 0, 0], 10)],
        [0, 0, 0, 0],
        vec![
            spell(5, [2, -1, 0, 0], true),
            spell(6, [2, 0, 0, 0], false),
            spell(7, [1, 0, 0, 0], true),
        ],
    );
    assert_eq!(play(&input), Action::Cast(7));
}

#[test]
fn the_other_player_is_not_consulted() {
    let mut input = turn(
        vec![recipe(42, [3, 0, 0, 0], 5)],
        [1, 0, 0, 0],
        vec![spell(7, [2, 0, 0, 0], true)],
    );
    let before = play(&input);
    input.players[1] = Player::new(Vec4::from([0, 0, 0, 0]), 0, vec![]);
    assert_eq!(play(&input), before);
    assert_eq!(before, Action::Cast(7));
}

#[test]
fn decides_with_the_largest_numbers() {
    let input = turn(
        vec![recipe(42, [u32::MAX, u32::MAX, u32::MAX, u32::MAX], u32::MAX)],
        [0, 0, 0, 0],
        vec![spell(7, [i32::MAX, i32::MAX, i32::MAX, i32::MAX], true)],
    );
    assert_eq!(play(&input), Action::Cast(7));
    let full = turn(
        vec![recipe(42, [0, 0, 0, u32::MAX], u32::MAX)],
        [u32::MAX, u32::MAX, u32::MAX, 0],
        vec![spell(7, [i32::MAX, i32::MAX, i32::MAX, 0], true)],
    );
    assert_eq!(play(&full), Action::Rest);
}

#[test]
fn rating_is_the_exact_fraction() {
    let me = Player::new(Vec4::from([1, 0, 0, 0]), 0, vec![]);
    let score: Score = rate(&me, &recipe(1, [0, 2, 0, 0], 20), &spell(1, [-1, 1, 0, 0], true));
    assert_eq!((score.num, score.den), (40, 20));
    let other: Score = rate(&me, &recipe(1, [0, 2, 0, 0], 20), &spell(1, [1, 1, 0, 0], true));
    assert_eq!((other.num, other.den), (20 - 2 * 20, 20));
    assert!(score.exceeds(&other));
    assert!(!other.exceeds(&score));
    assert!(!score.exceeds(&score));
    assert!(other.is_negative());
    assert!(!score.is_negative());
}

#[test]
fn ratings_with_different_denominators_compare_as_fractions() {
    let me = Player::new(Vec4::from([0, 0, 0, 0]), 0, vec![]);
    let third: Score = rate(&me, &recipe(1, [3, 0, 0, 0], 10), &spell(1, [1, 0, 0, 0], true));
    let half: Score = rate(&me, &recipe(1, [2, 0, 0, 0], 10), &spell(1, [1, 0, 0, 0], true));
    let two_sixths: Score = rate(&me, &recipe(1, [6, 0, 0, 0], 10), &spell(1, [2, 0, 0, 0], true));
    assert_eq!((third.num, third.den), (10, 30));
    assert_eq!((half.num, half.den), (10, 20));
    assert!(half.exceeds(&third));
    assert!(!third.exceeds(&half));
    assert!(!third.exceeds(&two_sixths));
    assert!(!two_sixths.exceeds(&third));
}
