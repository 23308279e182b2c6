use verbtree::Action;
use verbtree::Command;
use verbtree::Informational;
use verbtree::Manual;
use verbtree::Parameter;
use verbtree::Parser;
use verbtree::Verb;

#[test]
fn parse_command_with_one_parameter_short_name() {
    let parser = Parser::new(vec![Verb::new(
        "list",
        None,
        Some(vec![Command::new(
            "table",
            vec![Parameter::new('i', "name")],
        )]),
        Manual::new("list all the elements", vec![""]),
    )]);

    let action = parser.parse("list table -i my_table_name".to_string());

    if let Action::Run(parameter_value) = action {
        assert_eq!('i', parameter_value.get(0).unwrap().parameter_type.short_name);
        assert_eq!("name", parameter_value.get(0).unwrap().parameter_type.long_name);
        assert_eq!("my_table_name", parameter_value.get(0).unwrap().values.get(0).unwrap());
    } else {
        assert!(false);
    }
}

#[test]
fn parse_command_with_multiple_parameters() {
    let parser = Parser::new(vec![Verb::new(
        "list",
        None,
        Some(vec![Command::new(
            "table",
            vec![Parameter::new('i', "name"), Parameter::new('n', "count")],
        )]),
        Manual::new("list all the elements", vec![""]),
    )]);

    let action = parser.parse("list table -i my_table_name -n 10".to_string());

    if let Action::Run(parameter_value) = action {
        assert_eq!('i', parameter_value.get(0).unwrap().parameter_type.short_name);
        assert_eq!("name", parameter_value.get(0).unwrap().parameter_type.long_name);
        assert_eq!("my_table_name", parameter_value.get(0).unwrap().values.get(0).unwrap());

        assert_eq!('n', parameter_value.get(1).unwrap().parameter_type.short_name);
        assert_eq!("count", parameter_value.get(1).unwrap().parameter_type.long_name);
        assert_eq!("10", parameter_value.get(1).unwrap().values.get(0).unwrap());
    } else {
        assert!(false);
    }
}

fn sample_parser() -> Parser {
    Parser::new(vec![Verb::new(
        "list",
        Some(vec![Verb::new(
            "show",
            None,
            Some(vec![Command::new(
                "table",
                vec![Parameter::new('i', "name"), Parameter::new('n', "count")],
            )]),
            Manual::new("show things", vec!["detail"]),
        )]),
        Some(vec![Command::new(
            "table",
            vec![Parameter::new('i', "name"), Parameter::new('n', "count")],
        )]),
        Manual::new("list all the elements", vec!["detail line"]),
    )])
}

#[test]
fn unknown_first_token_with_and_without_tail() {
    let parser = sample_parser();

    match parser.parse("zap".to_string()) {
        Action::Unknown(token) => assert_eq!("zap", token),
        _ => assert!(false),
    }
    match parser.parse("zap table -i x".to_string()) {
        Action::Unknown(token) => assert_eq!("zap", token),
        _ => assert!(false),
    }
}

#[test]
fn empty_line_is_unknown_empty_token() {
    let parser = sample_parser();

    match parser.parse("".to_string()) {
        Action::Unknown(token) => assert_eq!("", token),
        _ => assert!(false),
    }
}

#[test]
fn unmatched_segment_is_incorrect_with_context() {
    let parser = sample_parser();

    match parser.parse("list bogus -i x".to_string()) {
        Action::Incorrect(remaining, verb) => {
            assert_eq!("bogus -i x", remaining);
            assert_eq!("list", verb.name());
        }
        _ => assert!(false),
    }
}

#[test]
fn delegation_round_trip_is_lossless() {
    let parser = sample_parser();
    let direct = Verb::new(
        "list",
        Some(vec![Verb::new(
            "show",
            None,
            Some(vec![Command::new(
                "table",
                vec![Parameter::new('i', "name"), Parameter::new('n', "count")],
            )]),
            Manual::new("show things", vec!["detail"]),
        )]),
        Some(vec![Command::new(
            "table",
            vec![Parameter::new('i', "name"), Parameter::new('n', "count")],
        )]),
        Manual::new("list all the elements", vec!["detail line"]),
    );

    let through_parser = parser.parse("list show table -i my_table_name -n 10".to_string());
    let through_verb = direct.parse("show table -i my_table_name -n 10");

    match (through_parser, through_verb) {
        (Action::Run(a), Action::Run(b)) => {
            assert_eq!(a.len(), b.len());
            assert_eq!(2, a.len());
            for (x, y) in a.iter().zip(b.iter()) {
                assert_eq!(x.parameter_type.short_name, y.parameter_type.short_name);
                assert_eq!(x.parameter_type.long_name, y.parameter_type.long_name);
                assert_eq!(x.values, y.values);
            }
            assert_eq!('i', a[0].parameter_type.short_name);
            assert_eq!(vec!["my_table_name".to_string()], a[0].values);
            assert_eq!('n', a[1].parameter_type.short_name);
            assert_eq!(vec!["10".to_string()], a[1].values);
        }
        _ => assert!(false),
    }
}

#[test]
fn child_verb_shadows_same_named_command() {
    let parser = Parser::new(vec![Verb::new(
        "list",
        Some(vec![Verb::new(
            "table",
            None,
            None,
            Manual::new("the verb", vec![]),
        )]),
        Some(vec![Command::new("table", vec![Parameter::new('i', "name")])]),
        Manual::new("list all the elements", vec![]),
    )]);

    // The command named "table" would yield Run; the verb wins and, with
    // nothing left to match, stalls.
    match parser.parse("list table".to_string()) {
        Action::Incorrect(remaining, verb) => {
            assert_eq!("", remaining);
            assert_eq!("table", verb.name());
        }
        _ => assert!(false),
    }
}

#[test]
fn duplicate_registration_resolves_to_latest() {
    let parser = Parser::new(vec![
        Verb::new("list", None, None, Manual::new("older", vec![])),
        Verb::new(
            "list",
            None,
            Some(vec![Command::new("table", vec![])]),
            Manual::new("newer", vec![]),
        ),
    ]);

    match parser.parse("list table".to_string()) {
        Action::Run(values) => assert!(values.is_empty()),
        _ => assert!(false),
    }
}

#[test]
fn repeated_separators_split_like_single_ones() {
    let parser = sample_parser();

    match parser.parse("list  table   -i  my_table_name".to_string()) {
        Action::Run(values) => {
            assert_eq!(1, values.len());
            assert_eq!('i', values[0].parameter_type.short_name);
            assert_eq!(vec!["my_table_name".to_string()], values[0].values);
        }
        _ => assert!(false),
    }
}

#[test]
fn get_help_returns_the_manual() {
    let verb = Verb::new(
        "list",
        None,
        None,
        Manual::new("list all the elements", vec!["first", "second"]),
    );

    let manual = verb.get_help();
    assert_eq!("list all the elements", manual.short_description);
    assert_eq!(vec!["first".to_string(), "second".to_string()], manual.detailed_help);
}
