use setenv::config::{Config, Profile};
use setenv::errors::SwitchError;
use setenv::shell::Shell;
use setenv::switch::{
    keep_variable_names, mark_whitespace, old_variable_names, split_marked, split_words, switch,
    switch_commands,
};

fn config_with(name: &str, pairs: &[(&str, &str)]) -> Config {
    let mut profile = Profile::new();
    for (key, value) in pairs {
        profile.insert(key.to_string(), value.to_string());
    }
    let mut config = Config::new();
    config.profiles.insert(name.to_string(), profile);
    config
}

fn strings(items: &[&str]) -> Vec<String> {
    items.iter().map(|s| s.to_string()).collect()
}

#[test]
fn split_words_at_any_whitespace() {
    assert_eq!(split_words("A B"), strings(&["A", "B"]));
    assert_eq!(split_words("  A   B  "), strings(&["A", "B"]));
    assert_eq!(split_words("A\tB\nC\r\nD"), strings(&["A", "B", "C", "D"]));
    assert_eq!(split_words("A\u{a0}B\u{2003}C\u{3000}D"), strings(&["A", "B", "C", "D"]));
    assert_eq!(split_words("single"), strings(&["single"]));
    assert_eq!(split_words("a.b c-d"), strings(&["a.b", "c-d"]));
}

#[test]
fn split_words_of_nothing() {
    assert_eq!(split_words(""), Vec::<String>::new());
    assert_eq!(split_words("   "), Vec::<String>::new());
    assert_eq!(split_words("\t\n"), Vec::<String>::new());
}

#[test]
fn split_words_agrees_with_split_whitespace() {
    let samples = [
        "",
        " ",
        "a",
        " a",
        "a ",
        "a b",
        "a  b",
        "\ta\u{b}b\u{c}c\u{85}d\u{1680}e\u{2028}f\u{2029}g\u{202f}h\u{205f}i",
        "x\u{200b}y",
        "caf\u{e9} \u{1f600} z",
    ];
    for sample in samples {
        let expected: Vec<String> = sample.split_whitespace().map(|s| s.to_string()).collect();
        assert_eq!(split_words(sample), expected);
    }
}

#[test]
fn keep_variable_names_drops_what_no_profile_holds() {
    assert_eq!(
        keep_variable_names(strings(&["A", "1B", "SETENV_VARS", "C_D", "E-F", "SETENV_PROFILE", "_g", ""])),
        strings(&["A", "C_D", "_g"])
    );
    assert_eq!(keep_variable_names(Vec::new()), Vec::<String>::new());
    assert_eq!(keep_variable_names(strings(&["A", "A"])), strings(&["A", "A"]));
}

#[test]
fn old_variable_names_from_the_marker() {
    assert_eq!(old_variable_names("A B"), strings(&["A", "B"]));
    assert_eq!(old_variable_names(""), Vec::<String>::new());
    assert_eq!(
        old_variable_names("B A SETENV_VARS 9X SETENV_PROFILE ok;rm C"),
        strings(&["B", "A", "C"])
    );
    assert_eq!(old_variable_names("$(reboot) `x` A"), strings(&["A"]));
}

#[test]
fn switch_unsets_exports_and_sets_the_markers() {
    let config = config_with("p", &[("X", "1"), ("Y", "2")]);
    let lines = switch(&config, Shell::Bash, "p", "A B").unwrap();
    assert_eq!(
        lines,
        strings(&[
            "unset A B",
            "export X=\"1\"",
            "export Y=\"2\"",
            "export SETENV_PROFILE=\"p\"",
            "export SETENV_VARS=\"X Y\"",
        ])
    );
}

#[test]
fn switch_for_fish() {
    let config = config_with("p", &[("Y", "2"), ("X", "1")]);
    let lines = switch(&config, Shell::Fish, "p", "A B").unwrap();
    assert_eq!(
        lines,
        strings(&[
            "set -eg A B",
            "set -gx X \"1\"",
            "set -gx Y \"2\"",
            "set -gx SETENV_PROFILE \"p\"",
            "set -gx SETENV_VARS \"X Y\"",
        ])
    );
}

#[test]
fn switch_for_zsh_is_written_as_for_bash() {
    let config = config_with("p", &[("X", "1")]);
    assert_eq!(
        switch(&config, Shell::Zsh, "p", "A").unwrap(),
        switch(&config, Shell::Bash, "p", "A").unwrap()
    );
}

#[test]
fn switch_without_old_variables_has_no_unset() {
    let config = config_with("p", &[("X", "1")]);
    let expected = strings(&[
        "export X=\"1\"",
        "export SETENV_PROFILE=\"p\"",
        "export SETENV_VARS=\"X\"",
    ]);
    assert_eq!(switch(&config, Shell::Bash, "p", "").unwrap(), expected);
    assert_eq!(switch(&config, Shell::Bash, "p", "   ").unwrap(), expected);
    assert_eq!(
        switch(&config, Shell::Bash, "p", "SETENV_VARS 1X SETENV_PROFILE").unwrap(),
        expected
    );
}

#[test]
fn switch_to_an_empty_profile() {
    let config = config_with("empty", &[]);
    assert_eq!(
        switch(&config, Shell::Bash, "empty", "OLD").unwrap(),
        strings(&[
            "unset OLD",
            "export SETENV_PROFILE=\"empty\"",
            "export SETENV_VARS=\"\"",
        ])
    );
}

#[test]
fn switch_escapes_the_values() {
    let config = config_with("p", &[("V", "a\"b$c`d\\e")]);
    assert_eq!(
        switch(&config, Shell::Bash, "p", "").unwrap(),
        strings(&[
            "export V=\"a\\\"b\\$c\\`d\\\\e\"",
            "export SETENV_PROFILE=\"p\"",
            "export SETENV_VARS=\"V\"",
        ])
    );
}

#[test]
fn switch_again_to_the_same_profile() {
    let config = config_with("p", &[("X", "1"), ("Y", "2")]);
    let first = switch(&config, Shell::Bash, "p", "").unwrap();
    let second = switch(&config, Shell::Bash, "p", "X Y").unwrap();
    assert_eq!(second[0], "unset X Y");
    assert_eq!(second[1..], first[..]);
    assert_eq!(switch(&config, Shell::Bash, "p", "X Y").unwrap(), second);
}

#[test]
fn switch_keeps_the_order_of_the_old_names() {
    let config = config_with("p", &[]);
    let lines = switch(&config, Shell::Bash, "p", "Z A M").unwrap();
    assert_eq!(lines[0], "unset Z A M");
}

#[test]
fn switch_to_a_missing_profile_lists_the_known_ones() {
    let mut config = Config::new();
    for name in ["zeta", "alpha", "mid"] {
        config.profiles.insert(name.to_string(), Profile::new());
    }
    match switch(&config, Shell::Bash, "nope", "A B") {
        Err(SwitchError::ProfileNotFound { profile, available }) => {
            assert_eq!(profile, "nope");
            assert_eq!(available, strings(&["alpha", "mid", "zeta"]));
        }
        other => panic!("unexpected: {:?}", other),
    }
}

#[test]
fn switch_in_an_empty_config() {
    let config = Config::new();
    match switch(&config, Shell::Fish, "default", "") {
        Err(SwitchError::ProfileNotFound { profile, available }) => {
            assert_eq!(profile, "default");
            assert!(available.is_empty());
        }
        other => panic!("unexpected: {:?}", other),
    }
}

#[test]
fn switch_commands_take_the_old_names_as_given() {
    let config = config_with("p", &[("X", "1"), ("Y", "2")]);
    let lines = switch_commands(&config, Shell::Bash, "p", &strings(&["A", "B"])).unwrap();
    assert_eq!(
        lines,
        strings(&[
            "unset A B",
            "export X=\"1\"",
            "export Y=\"2\"",
            "export SETENV_PROFILE=\"p\"",
            "export SETENV_VARS=\"X Y\"",
        ])
    );
    let none: Vec<String> = Vec::new();
    let lines = switch_commands(&config, Shell::Bash, "p", &none).unwrap();
    assert_eq!(lines.len(), 4);
    assert!(switch_commands(&config, Shell::Bash, "q", &none).is_err());
}

#[test]
fn mark_whitespace_marks_each_character() {
    assert_eq!(mark_whitespace(""), Vec::<(char, bool)>::new());
    assert_eq!(
        mark_whitespace("a b\t\u{a0}c"),
        vec![
            ('a', false),
            (' ', true),
            ('b', false),
            ('\t', true),
            ('\u{a0}', true),
            ('c', false),
        ]
    );
    assert_eq!(mark_whitespace("_\u{200b}"), vec![('_', false), ('\u{200b}', false)]);
}

#[test]
fn split_marked_breaks_at_the_marks_only() {
    assert_eq!(
        split_marked(&[('A', false), (' ', true), ('B', false)]),
        strings(&["A", "B"])
    );
    assert_eq!(
        split_marked(&[('A', false), (' ', false), ('B', false)]),
        strings(&["A B"])
    );
    assert_eq!(
        split_marked(&[('x', true), ('A', false), ('B', false), ('y', true), ('z', true), ('C', false)]),
        strings(&["AB", "C"])
    );
    assert_eq!(split_marked(&[('x', true), ('y', true)]), Vec::<String>::new());
    assert_eq!(split_marked(&[]), Vec::<String>::new());
}
