use brew_agent::base::Action;
use brew_agent::base::Recipe;
use brew_agent::base::Spell;
use brew_agent::base::Usefulness;
use brew_agent::player::Player;
use brew_agent::vec::Vec4;

fn spell(id: i32, delta: [i32; 4], castable: bool) -> Spell {
    Spell { id, delta: Vec4::from(delta), tome_index: 0, tax_count: 0, castable, repeatable: 0 }
}

fn recipe(id: i32, cost: [u32; 4], price: u32) -> Recipe {
    Recipe { id, ingredients: Vec4::from(cost), price }
}

fn player(inventory: [u32; 4]) -> Player {
    Player::new(Vec4::from(inventory), 0, vec![])
}

#[test]
fn usefulness_of_the_exact_spell() {
    let required: Vec4<i32> = Vec4::from([2, 0, 1, 0]);
    let u = spell(1, [2, 0, 1, 0], true).get_usefulness(&required);
    assert_eq!(u, Usefulness { advancement: 3, regression: 0, cleaning: 0 });
    assert_eq!(u.advancement, required.positive().norm1() as u64);
}

#[test]
fn usefulness_of_the_exact_spell_with_a_surplus() {
    let required: Vec4<i32> = Vec4::from([-3, 2, 0, 4]);
    let u = spell(1, [-3, 2, 0, 4], true).get_usefulness(&required);
    assert_eq!(u, Usefulness { advancement: 6, regression: 0, cleaning: 3 });
    assert_eq!(u.advancement, required.positive().norm1() as u64);
}

#[test]
fn usefulness_counts_movement_the_wrong_way() {
    let required: Vec4<i32> = Vec4::from([2, -1, 0, 0]);
    let u = spell(1, [-1, 3, 0, 0], true).get_usefulness(&required);
    assert_eq!(u, Usefulness { advancement: 0, regression: 3 + 4, cleaning: 0 });
}

#[test]
fn usefulness_caps_progress_at_the_need() {
    let required: Vec4<i32> = Vec4::from([1, -1, 5, -5]);
    let u = spell(1, [4, -4, 2, -2], true).get_usefulness(&required);
    assert_eq!(u, Usefulness { advancement: 1 + 2, regression: 0, cleaning: 1 + 2 });
}

#[test]
fn usefulness_where_nothing_is_required() {
    let required: Vec4<i32> = Vec4::from([0, 0, 0, 0]);
    let u = spell(1, [4, -4, 0, 1], true).get_usefulness(&required);
    assert_eq!(u, Usefulness { advancement: 0, regression: 0, cleaning: 0 });
}

#[test]
fn usefulness_of_a_spell_that_changes_nothing() {
    let required: Vec4<i32> = Vec4::from([3, -3, 0, 1]);
    let u = spell(1, [0, 0, 0, 0], true).get_usefulness(&required);
    assert_eq!(u, Usefulness { advancement: 0, regression: 0, cleaning: 0 });
}

#[test]
fn usefulness_at_the_ends_of_the_range() {
    let required: Vec4<i32> = Vec4::from([i32::MAX, i32::MAX, i32::MAX, i32::MAX]);
    let u = spell(1, [i32::MIN, i32::MIN, i32::MIN, i32::MIN], true).get_usefulness(&required);
    assert_eq!(u, Usefulness { advancement: 0, regression: 4 * 4294967295u64, cleaning: 0 });
    let v = spell(1, [i32::MIN, i32::MIN, i32::MIN, i32::MIN], true).get_usefulness(
        &Vec4::from([i32::MIN, i32::MIN, i32::MIN, i32::MIN]),
    );
    assert_eq!(v, Usefulness { advancement: 0, regression: 0, cleaning: 4 * 2147483648u64 });
}

#[test]
fn can_brew_needs_every_tier() {
    let r = recipe(1, [1, 2, 0, 0], 5);
    assert!(player([1, 2, 0, 0]).can_brew(&r));
    assert!(player([5, 2, 1, 1]).can_brew(&r));
    assert!(!player([0, 2, 0, 0]).can_brew(&r));
    assert!(!player([9, 1, 9, 9]).can_brew(&r));
}

#[test]
fn can_brew_stays_true_when_the_inventory_grows() {
    let r = recipe(1, [1, 2, 0, 3], 5);
    assert!(player([1, 2, 0, 3]).can_brew(&r));
    assert!(player([2, 2, 0, 3]).can_brew(&r));
    assert!(player([2, 3, 1, 4]).can_brew(&r));
    assert!(player([u32::MAX, u32::MAX, u32::MAX, u32::MAX]).can_brew(&r));
}

#[test]
fn can_cast_keeps_every_tier_at_zero_or_more() {
    let p = player([2, 0, 0, 0]);
    assert!(p.can_cast(&spell(1, [-2, 1, 0, 0], true)));
    assert!(p.can_cast(&spell(1, [0, 0, 0, 0], true)));
    assert!(!p.can_cast(&spell(1, [-3, 1, 0, 0], true)));
    assert!(!p.can_cast(&spell(1, [1, 0, 0, -1], true)));
}

#[test]
fn can_cast_with_a_large_inventory() {
    let p = player([u32::MAX, 0, 0, 0]);
    assert!(p.can_cast(&spell(1, [i32::MIN, 0, 0, 0], true)));
    assert!(p.can_cast(&spell(1, [i32::MAX, 0, 0, 0], true)));
    assert!(!p.can_cast(&spell(1, [0, i32::MIN, 0, 0], true)));
}

#[test]
fn required_ingredients_is_cost_less_inventory() {
    let p = player([3, 0, 2, 1]);
    let r = p.required_ingredients(&Vec4::from([1, 2, 2, 0]));
    assert_eq!((r[0], r[1], r[2], r[3]), (-2, 2, 0, -1));
}

#[test]
fn recipe_missing_ingredients_lists_the_shortfall() {
    let p = player([3, 0, 2, 1]);
    assert_eq!(p.recipe_missing_ingredients(&recipe(1, [1, 2, 5, 0], 5)), Some([0, 2, 3, 0]));
    assert_eq!(p.recipe_missing_ingredients(&recipe(1, [3, 0, 2, 1], 5)), None);
    assert_eq!(p.recipe_missing_ingredients(&recipe(1, [0, 0, 0, 0], 5)), None);
    assert_eq!(p.recipe_missing_ingredients(&recipe(1, [0, 0, 0, 2], 5)), Some([0, 0, 0, 1]));
}

#[test]
fn new_player_sorts_spells_and_keeps_their_order() {
    let spells = vec![
        spell(1, [1, 0, 0, 0], true),
        spell(2, [0, 1, 0, 0], false),
        spell(3, [0, 0, 1, 0], true),
        spell(4, [0, 0, 0, 1], false),
        spell(5, [2, 0, 0, 0], true),
    ];
    let p = Player::new(Vec4::from([1, 2, 3, 4]), 17, spells);
    assert_eq!(p.score, 17);
    assert_eq!((p.inventory[0], p.inventory[1], p.inventory[2], p.inventory[3]), (1, 2, 3, 4));
    let ready: Vec<i32> = p.ready_spells.iter().map(|s| s.id).collect();
    let used: Vec<i32> = p.used_spells.iter().map(|s| s.id).collect();
    assert_eq!(ready, vec![1, 3, 5]);
    assert_eq!(used, vec![2, 4]);
}

#[test]
fn action_lines() {
    assert_eq!(Action::Brew(5).to_line(), "BREW 5");
    assert_eq!(Action::Cast(78).to_line(), "CAST 78");
    assert_eq!(Action::Rest.to_line(), "REST");
    assert_eq!(Action::Wait.to_line(), "WAIT");
    assert_eq!(Action::Brew(0).to_line(), "BREW 0");
    assert_eq!(Action::Cast(-12).to_line(), "CAST -12");
    assert_eq!(Action::Brew(1000).to_line(), "BREW 1000");
    assert_eq!(Action::Brew(i32::MAX).to_line(), "BREW 2147483647");
    assert_eq!(Action::Cast(i32::MIN).to_line(), "CAST -2147483648");
}
