use brew_agent::base::Action;
use brew_agent::engine::play;
use brew_agent::input::Input;
use brew_agent::input::InputAction;
use brew_agent::input::ParseError;
use brew_agent::input::ME;
use brew_agent::input::OPPONENT;

fn lines(texts: &[&str]) -> Vec<String> {
    texts.iter().map(|t| String::from(*t)).collect()
}

fn fault(line: &str) -> ParseError {
    match InputAction::parse(line) {
        Ok(_) => panic!("the line was read"),
        Err(e) => e,
    }
}

#[test]
fn reads_a_recipe_line() {
    match InputAction::parse("44 BREW -2 0 -1 0 12 0 0 0 0\n") {
        Ok(InputAction::Brew(r)) => {
            assert_eq!(r.id, 44);
            assert_eq!(
                (r.ingredients[0], r.ingredients[1], r.ingredients[2], r.ingredients[3]),
                (2, 0, 1, 0)
            );
            assert_eq!(r.price, 12);
        },
        _ => panic!("not a recipe"),
    }
}

#[test]
fn reads_a_recipe_line_that_ends_with_the_price() {
    match InputAction::parse("7 BREW -0 -3 0 -2147483647 +9\n") {
        Ok(InputAction::Brew(r)) => {
            assert_eq!(r.id, 7);
            assert_eq!(
                (r.ingredients[0], r.ingredients[1], r.ingredients[2], r.ingredients[3]),
                (0, 3, 0, 2147483647)
            );
            assert_eq!(r.price, 9);
        },
        _ => panic!("not a recipe"),
    }
}

#[test]
fn reads_a_spell_line() {
    match InputAction::parse("78 CAST 2 0 -1 0 0 -1 -2 1 3\n") {
        Ok(InputAction::Cast(s)) => {
            assert_eq!(s.id, 78);
            assert_eq!((s.delta[0], s.delta[1], s.delta[2], s.delta[3]), (2, 0, -1, 0));
            assert_eq!(s.tome_index, -1);
            assert_eq!(s.tax_count, -2);
            assert!(s.castable);
            assert_eq!(s.repeatable, 3);
        },
        _ => panic!("not a spell"),
    }
}

#[test]
fn reads_a_spell_line_whose_price_field_is_no_number() {
    match InputAction::parse("78 CAST 2 0 -1 0 x 0 0 0 0") {
        Ok(InputAction::Cast(s)) => {
            assert_eq!(s.id, 78);
            assert!(!s.castable);
        },
        _ => panic!("not a spell"),
    }
}

#[test]
fn castable_is_the_flag_one_only() {
    match InputAction::parse("1 CAST 0 0 0 0 0 0 0 2 0") {
        Ok(InputAction::Cast(s)) => assert!(!s.castable),
        _ => panic!("not a spell"),
    }
    match InputAction::parse("1 CAST 0 0 0 0 0 0 0 +1 0") {
        Ok(InputAction::Cast(s)) => assert!(s.castable),
        _ => panic!("not a spell"),
    }
}

#[test]
fn reads_an_opponent_spell_line() {
    match InputAction::parse("82 OPPONENT_CAST -1 1 0 0 0 -1 -1 0 0\n") {
        Ok(InputAction::OpponentCast(s)) => {
            assert_eq!(s.id, 82);
            assert_eq!((s.delta[0], s.delta[1], s.delta[2], s.delta[3]), (-1, 1, 0, 0));
            assert!(!s.castable);
        },
        _ => panic!("not an opponent spell"),
    }
}

#[test]
fn reads_a_learn_line() {
    assert!(matches!(InputAction::parse("3 LEARN 1 1 1 1 0 0 0 0 0\n"), Ok(InputAction::Learn(_))));
    assert!(matches!(InputAction::parse("x LEARN\n"), Ok(InputAction::Learn(_))));
    assert!(matches!(InputAction::parse(" \tLEARN\r\n"), Ok(InputAction::Learn(_))));
}

#[test]
fn a_line_without_a_keyword_misses_field_one() {
    assert!(matches!(fault("44"), ParseError::MissingField(1)));
    assert!(matches!(fault(""), ParseError::MissingField(1)));
}

#[test]
fn an_unknown_keyword_is_named() {
    match fault("44 STEW -2 0 -1 0 12\n") {
        ParseError::UnknownKind(word) => assert_eq!(word, "STEW"),
        _ => panic!("another fault"),
    }
    match fault("44  BREW") {
        ParseError::UnknownKind(word) => assert_eq!(word, ""),
        _ => panic!("another fault"),
    }
    match fault("44 brew\n") {
        ParseError::UnknownKind(word) => assert_eq!(word, "brew"),
        _ => panic!("another fault"),
    }
}

#[test]
fn a_short_line_names_the_first_missing_field() {
    assert!(matches!(fault("44 BREW -2 0 -1 0"), ParseError::MissingField(6)));
    assert!(matches!(fault("44 BREW"), ParseError::MissingField(2)));
    assert!(matches!(fault("44 CAST 1 1 1 1 0 0 0 0"), ParseError::MissingField(10)));
    assert!(matches!(fault("44 OPPONENT_CAST 1 1 1 1 0"), ParseError::MissingField(7)));
}

#[test]
fn a_malformed_field_is_named() {
    assert!(matches!(fault("x BREW -2 0 -1 0 12"), ParseError::MalformedField(0)));
    assert!(matches!(fault("44 BREW -2 0 -1 zero 12"), ParseError::MalformedField(5)));
    assert!(matches!(fault("44 BREW -2 0 -1 0 -12"), ParseError::MalformedField(6)));
    assert!(matches!(fault("44 BREW -2 0 -1 0 4294967296"), ParseError::MalformedField(6)));
    assert!(matches!(fault("44 BREW -2 0 -1  0 12"), ParseError::MalformedField(5)));
    assert!(matches!(fault("44 CAST 1 1 1 1 0 0 0 0 1.5"), ParseError::MalformedField(10)));
    assert!(matches!(fault("44 CAST 1 1 1 2147483648 0 0 0 0 1"), ParseError::MalformedField(5)));
    assert!(matches!(fault("44 CAST 1 1 1 -2147483649 0 0 0 0 1"), ParseError::MalformedField(5)));
    assert!(matches!(fault("44 CAST 1 - 1 1 0 0 0 0 1"), ParseError::MalformedField(3)));
    assert!(matches!(fault("44 CAST 1 1 1 1 0 0 0 x 1 2"), ParseError::MalformedField(9)));
}

#[test]
fn the_first_faulty_field_is_the_one_named() {
    assert!(matches!(fault("x BREW y z"), ParseError::MalformedField(0)));
    assert!(matches!(fault("1 BREW y z"), ParseError::MalformedField(2)));
    assert!(matches!(fault("1 BREW -1 z"), ParseError::MalformedField(3)));
    assert!(matches!(fault("x STEW y z"), ParseError::UnknownKind(_)));
}

#[test]
fn a_cost_that_is_not_written_negated_is_malformed() {
    assert!(matches!(fault("44 BREW 2 0 -1 0 12"), ParseError::MalformedField(2)));
    assert!(matches!(fault("44 BREW -2 0 -1 -2147483648 12"), ParseError::MalformedField(5)));
}

#[test]
fn reads_the_count_line() {
    assert!(matches!(Input::parse_count("12\n"), Ok(12)));
    assert!(matches!(Input::parse_count(" 0 \n"), Ok(0)));
    assert!(matches!(Input::parse_count("-3\n"), Ok(0)));
    assert!(matches!(Input::parse_count("+2147483647"), Ok(2147483647)));
    assert!(matches!(Input::parse_count("\n"), Err(ParseError::MalformedField(0))));
    assert!(matches!(Input::parse_count("1 2\n"), Err(ParseError::MalformedField(0))));
    assert!(matches!(Input::parse_count("2147483648"), Err(ParseError::MalformedField(0))));
}

#[test]
fn reads_a_player_line() {
    match Input::parse_player("3 0 1 4294967295 -17\n", vec![]) {
        Ok(p) => {
            assert_eq!(
                (p.inventory[0], p.inventory[1], p.inventory[2], p.inventory[3]),
                (3, 0, 1, 4294967295)
            );
            assert_eq!(p.score, -17);
            assert!(p.ready_spells.is_empty());
            assert!(p.used_spells.is_empty());
        },
        Err(_) => panic!("the line was not read"),
    }
}

#[test]
fn a_faulty_player_line_names_its_field() {
    assert!(matches!(Input::parse_player("3 0 1\n", vec![]), Err(ParseError::MissingField(3))));
    assert!(matches!(Input::parse_player("3 0 1 0\n", vec![]), Err(ParseError::MissingField(4))));
    assert!(matches!(Input::parse_player("3 -1 1 0 5", vec![]), Err(ParseError::MalformedField(1))));
    assert!(matches!(Input::parse_player("3 1 1 0 5.0", vec![]), Err(ParseError::MalformedField(4))));
    assert!(matches!(Input::parse_player("", vec![]), Err(ParseError::MalformedField(0))));
}

#[test]
fn reads_a_turn() {
    let entities = lines(
        &[
            "44 BREW -2 0 -1 0 12 0 0 0 0\n",
            "78 CAST 2 0 0 0 0 -1 -1 1 0\n",
            "79 CAST -1 1 0 0 0 -1 -1 0 0\n",
            "82 OPPONENT_CAST 2 0 0 0 0 -1 -1 1 0\n",
            "3 LEARN 1 1 1 1 0 0 0 0 0\n",
            "45 BREW 0 -2 0 0 7 0 0 0 0\n",
            "80 CAST 0 -1 1 0 0 -1 -1 1 0\n",
        ],
    );
    let input = match Input::parse(&entities, "3 0 0 0 10\n", "1 1 0 0 20\n") {
        Ok(input) => input,
        Err(_) => panic!("the turn was not read"),
    };
    let recipes: Vec<i32> = input.recipes.iter().map(|r| r.id).collect();
    assert_eq!(recipes, vec![44, 45]);
    let me = &input.players[ME];
    assert_eq!(me.score, 10);
    assert_eq!(me.inventory[0], 3);
    let ready: Vec<i32> = me.ready_spells.iter().map(|s| s.id).collect();
    let used: Vec<i32> = me.used_spells.iter().map(|s| s.id).collect();
    assert_eq!(ready, vec![78, 80]);
    assert_eq!(used, vec![79]);
    let other = &input.players[OPPONENT];
    assert_eq!(other.score, 20);
    assert_eq!(other.inventory[1], 1);
    let theirs: Vec<i32> = other.ready_spells.iter().map(|s| s.id).collect();
    assert_eq!(theirs, vec![82]);
    assert!(other.used_spells.is_empty());
}

#[test]
fn a_turn_names_the_fault_of_its_first_faulty_line() {
    let entities = lines(&["44 BREW -2 0 -1 0 12\n", "78 CAST 2 0 0 0 0 -1 -1 one 0\n", "79 STEW\n"]);
    assert!(matches!(
        Input::parse(&entities, "3 0 0 0 10\n", "1 1 0 0 20\n"),
        Err(ParseError::MalformedField(9))
    ));
    let good = lines(&["44 BREW -2 0 -1 0 12\n"]);
    assert!(matches!(Input::parse(&good, "3 0 0 0\n", "x\n"), Err(ParseError::MissingField(4))));
    assert!(matches!(
        Input::parse(&good, "3 0 0 0 1\n", "x\n"),
        Err(ParseError::MalformedField(0))
    ));
    assert!(matches!(Input::parse(&good, "3 0 0 0 1\n", "1 1 1 1 1\n"), Ok(_)));
}

#[test]
fn a_turn_is_read_and_decided() {
    let entities = lines(
        &[
            "44 BREW -2 0 -1 0 12 0 0 0 0\n",
            "78 CAST 2 0 0 0 0 -1 -1 1 0\n",
            "80 CAST 0 0 1 0 0 -1 -1 1 0\n",
        ],
    );
    let first = match Input::parse(&entities, "0 0 1 0 0\n", "0 0 0 0 0\n") {
        Ok(input) => input,
        Err(_) => panic!("the turn was not read"),
    };
    assert_eq!(play(&first).to_line(), "CAST 78");
    let second = match Input::parse(&entities, "2 0 1 0 0\n", "0 0 0 0 0\n") {
        Ok(input) => input,
        Err(_) => panic!("the turn was not read"),
    };
    assert_eq!(play(&second).to_line(), "BREW 44");
    assert_eq!(play(&second), Action::Brew(44));
}
