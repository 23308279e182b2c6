use verbtree::Action;
use verbtree::Command;
use verbtree::Parameter;

fn table_command() -> Command {
    Command::new(
        "table",
        vec![Parameter::new('i', "name"), Parameter::new('n', "count")],
    )
}

#[test]
fn empty_argument_text_yields_empty_run() {
    let command = table_command();

    match command.parse("") {
        Action::Run(values) => assert!(values.is_empty()),
        _ => assert!(false),
    }
}

#[test]
fn short_flags_bind_their_values_in_order() {
    let command = table_command();

    match command.parse("-i my_table_name -n 10") {
        Action::Run(values) => {
            assert_eq!(2, values.len());
            assert_eq!('i', values[0].parameter_type.short_name);
            assert_eq!(vec!["my_table_name".to_string()], values[0].values);
            assert_eq!('n', values[1].parameter_type.short_name);
            assert_eq!(vec!["10".to_string()], values[1].values);
        }
        _ => assert!(false),
    }
}

#[test]
fn long_flags_bind_like_short_ones() {
    let command = table_command();

    match command.parse("--name my_table_name --count 10") {
        Action::Run(values) => {
            assert_eq!(2, values.len());
            assert_eq!('i', values[0].parameter_type.short_name);
            assert_eq!(vec!["my_table_name".to_string()], values[0].values);
            assert_eq!('n', values[1].parameter_type.short_name);
            assert_eq!(vec!["10".to_string()], values[1].values);
        }
        _ => assert!(false),
    }
}

#[test]
fn multi_character_short_flag_is_bad_parameter() {
    let command = table_command();

    match command.parse("-ix") {
        Action::BadParameter(stripped, inner) => {
            assert_eq!("ix", stripped);
            assert_eq!("table", inner.name());
        }
        _ => assert!(false),
    }
}

#[test]
fn bad_parameter_discards_earlier_flags() {
    let command = table_command();

    match command.parse("-i my_table_name -nx 10") {
        Action::BadParameter(stripped, inner) => {
            assert_eq!("nx", stripped);
            assert_eq!("table", inner.name());
        }
        _ => assert!(false),
    }
}

#[test]
fn repeated_flag_yields_two_separate_bindings() {
    let command = table_command();

    match command.parse("-i a -i b") {
        Action::Run(values) => {
            assert_eq!(2, values.len());
            assert_eq!('i', values[0].parameter_type.short_name);
            assert_eq!(vec!["a".to_string()], values[0].values);
            assert_eq!('i', values[1].parameter_type.short_name);
            assert_eq!(vec!["b".to_string()], values[1].values);
        }
        _ => assert!(false),
    }
}

#[test]
fn orphan_value_before_any_flag_is_dropped() {
    let command = table_command();

    match command.parse("orphan_value -i my_table_name") {
        Action::Run(values) => {
            assert_eq!(1, values.len());
            assert_eq!('i', values[0].parameter_type.short_name);
            assert_eq!(vec!["my_table_name".to_string()], values[0].values);
        }
        _ => assert!(false),
    }
}

#[test]
fn unknown_flags_are_dropped_silently() {
    let command = table_command();

    match command.parse("--nope ghost -z also -i real") {
        Action::Run(values) => {
            // Neither unknown flag opened a binding, so the values after
            // them were orphans and vanished with them.
            assert_eq!(1, values.len());
            assert_eq!('i', values[0].parameter_type.short_name);
            assert_eq!(vec!["real".to_string()], values[0].values);
        }
        _ => assert!(false),
    }
}

#[test]
fn lone_dash_is_dropped_silently() {
    let command = table_command();

    match command.parse("- -i x") {
        Action::Run(values) => {
            assert_eq!(1, values.len());
            assert_eq!('i', values[0].parameter_type.short_name);
            assert_eq!(vec!["x".to_string()], values[0].values);
        }
        _ => assert!(false),
    }
}

#[test]
fn double_dash_alone_matches_no_declared_flag() {
    let command = table_command();

    match command.parse("-- -i x") {
        Action::Run(values) => {
            assert_eq!(1, values.len());
            assert_eq!('i', values[0].parameter_type.short_name);
            assert_eq!(vec!["x".to_string()], values[0].values);
        }
        _ => assert!(false),
    }
}

#[test]
fn one_flag_collects_several_values() {
    let command = table_command();

    match command.parse("-i one two three") {
        Action::Run(values) => {
            assert_eq!(1, values.len());
            assert_eq!(
                vec!["one".to_string(), "two".to_string(), "three".to_string()],
                values[0].values
            );
        }
        _ => assert!(false),
    }
}
