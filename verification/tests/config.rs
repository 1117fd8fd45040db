use setenv::config::{Config, Profile};
use setenv::errors::{AddVariableError, NewProfileError, ValidationError};

fn profile_of(pairs: &[(&str, &str)]) -> Profile {
    let mut profile = Profile::new();
    for (name, value) in pairs {
        profile.insert(name.to_string(), value.to_string());
    }
    profile
}

fn variables(profile: &Profile) -> Vec<(String, String)> {
    let mut out = Vec::new();
    for i in 0..profile.env_vars.len() {
        out.push((
            profile.env_vars.key(i).clone(),
            profile.env_vars.value(i).clone(),
        ));
    }
    out
}

fn snapshot(config: &Config) -> Vec<(String, Vec<(String, String)>)> {
    let mut out = Vec::new();
    for i in 0..config.profiles.len() {
        out.push((
            config.profiles.key(i).clone(),
            variables(config.profiles.value(i)),
        ));
    }
    out
}

fn pair(name: &str, value: &str) -> (String, String) {
    (name.to_string(), value.to_string())
}

#[test]
fn default_config_holds_the_example_profile() {
    let config = Config::default_config();
    assert_eq!(config.profile_names(), vec!["default"]);
    let profile = config.get_profile("default").unwrap();
    assert_eq!(
        variables(profile),
        vec![
            pair("ANOTHER_VAR", "another_value"),
            pair("EXAMPLE_VAR", "example_value"),
        ]
    );
    assert!(config.validate().is_ok());
}

#[test]
fn empty_config_is_valid() {
    let config = Config::new();
    assert!(config.validate().is_ok());
    assert!(config.profile_names().is_empty());
    assert!(config.get_profile("default").is_none());
}

#[test]
fn get_profile_finds_by_exact_name() {
    let mut config = Config::new();
    config.profiles.insert("dev".to_string(), profile_of(&[("A", "1")]));
    config.profiles.insert("prod".to_string(), profile_of(&[("B", "2")]));
    assert_eq!(variables(config.get_profile("dev").unwrap()), vec![pair("A", "1")]);
    assert_eq!(variables(config.get_profile("prod").unwrap()), vec![pair("B", "2")]);
    assert!(config.get_profile("de").is_none());
    assert!(config.get_profile("devx").is_none());
    assert!(config.get_profile("Dev").is_none());
    assert!(config.get_profile("").is_none());
}

#[test]
fn profile_names_come_sorted() {
    let mut config = Config::new();
    for name in ["zeta", "alpha", "mid", "Beta", "alpha2", "al"] {
        config.profiles.insert(name.to_string(), Profile::new());
    }
    assert_eq!(
        config.profile_names(),
        vec!["Beta", "al", "alpha", "alpha2", "mid", "zeta"]
    );
}

#[test]
fn profile_names_sort_as_strings_do() {
    let mut config = Config::new();
    let given = ["b", "a-b", "a_b", "ab", "a", "B", "0", "_", "\u{e9}", "z"];
    for name in given {
        config.profiles.insert(name.to_string(), Profile::new());
    }
    let mut expected: Vec<&str> = given.to_vec();
    expected.sort();
    assert_eq!(config.profile_names(), expected);
}

#[test]
fn inserting_a_name_again_replaces_the_value() {
    let mut profile = Profile::new();
    assert_eq!(profile.insert("A".to_string(), "1".to_string()), None);
    assert_eq!(profile.insert("B".to_string(), "2".to_string()), None);
    assert_eq!(
        profile.insert("A".to_string(), "3".to_string()),
        Some("1".to_string())
    );
    assert_eq!(variables(&profile), vec![pair("A", "3"), pair("B", "2")]);
}

#[test]
fn validate_reports_an_invalid_profile_name() {
    let mut config = Config::new();
    config.profiles.insert("good".to_string(), profile_of(&[("A", "1")]));
    config.profiles.insert("my profile".to_string(), profile_of(&[("B", "2")]));
    match config.validate() {
        Err(ValidationError::InvalidProfileName { profile }) => assert_eq!(profile, "my profile"),
        other => panic!("unexpected: {:?}", other),
    }
}

#[test]
fn validate_reports_the_first_invalid_profile_name() {
    let mut config = Config::new();
    config.profiles.insert("z z".to_string(), Profile::new());
    config.profiles.insert("a.a".to_string(), Profile::new());
    config.profiles.insert("ok".to_string(), Profile::new());
    match config.validate() {
        Err(ValidationError::InvalidProfileName { profile }) => assert_eq!(profile, "a.a"),
        other => panic!("unexpected: {:?}", other),
    }
}

#[test]
fn validate_reports_an_invalid_variable_name() {
    let mut config = Config::new();
    config.profiles.insert("dev".to_string(), profile_of(&[("GOOD", "1"), ("1BAD", "2")]));
    match config.validate() {
        Err(ValidationError::InvalidVariableName { profile, name }) => {
            assert_eq!(profile, "dev");
            assert_eq!(name, "1BAD");
        }
        other => panic!("unexpected: {:?}", other),
    }
}

#[test]
fn validate_reports_a_reserved_variable_name() {
    let mut config = Config::new();
    config.profiles.insert("dev".to_string(), profile_of(&[("SETENV_VARS", "x")]));
    match config.validate() {
        Err(ValidationError::ReservedVariableName { profile, name }) => {
            assert_eq!(profile, "dev");
            assert_eq!(name, "SETENV_VARS");
        }
        other => panic!("unexpected: {:?}", other),
    }
    let mut config = Config::new();
    config.profiles.insert("dev".to_string(), profile_of(&[("SETENV_PROFILE", "x")]));
    match config.validate() {
        Err(ValidationError::ReservedVariableName { profile, name }) => {
            assert_eq!(profile, "dev");
            assert_eq!(name, "SETENV_PROFILE");
        }
        other => panic!("unexpected: {:?}", other),
    }
}

#[test]
fn validate_puts_profile_names_before_variables() {
    let mut config = Config::new();
    config.profiles.insert("a".to_string(), profile_of(&[("BAD NAME", "1")]));
    config.profiles.insert("b b".to_string(), Profile::new());
    match config.validate() {
        Err(ValidationError::InvalidProfileName { profile }) => assert_eq!(profile, "b b"),
        other => panic!("unexpected: {:?}", other),
    }
}

#[test]
fn validate_reports_the_first_refused_variable() {
    let mut config = Config::new();
    config.profiles.insert(
        "b".to_string(),
        profile_of(&[("A-1", "x")]),
    );
    config.profiles.insert(
        "a".to_string(),
        profile_of(&[("SETENV_VARS", "x"), ("Z Z", "y"), ("OK", "z")]),
    );
    match config.validate() {
        Err(ValidationError::InvalidVariableName { profile, name }) => {
            assert_eq!(profile, "a");
            assert_eq!(name, "Z Z");
        }
        other => panic!("unexpected: {:?}", other),
    }
}

#[test]
fn validate_puts_invalid_names_before_marker_names() {
    let mut config = Config::new();
    config.profiles.insert("a".to_string(), profile_of(&[("SETENV_VARS", "1")]));
    config.profiles.insert("b".to_string(), profile_of(&[("1X", "1")]));
    match config.validate() {
        Err(ValidationError::InvalidVariableName { profile, name }) => {
            assert_eq!(profile, "b");
            assert_eq!(name, "1X");
        }
        other => panic!("unexpected: {:?}", other),
    }
}

#[test]
fn validate_reports_the_first_marker_name() {
    let mut config = Config::new();
    config.profiles.insert(
        "b".to_string(),
        profile_of(&[("SETENV_PROFILE", "x"), ("A", "1")]),
    );
    config.profiles.insert(
        "a".to_string(),
        profile_of(&[("B", "2"), ("SETENV_VARS", "x"), ("SETENV_PROFILE", "y")]),
    );
    match config.validate() {
        Err(ValidationError::ReservedVariableName { profile, name }) => {
            assert_eq!(profile, "a");
            assert_eq!(name, "SETENV_PROFILE");
        }
        other => panic!("unexpected: {:?}", other),
    }
}

#[test]
fn validate_reports_the_first_invalid_variable_name() {
    let mut config = Config::new();
    config.profiles.insert("b".to_string(), profile_of(&[("1A", "x")]));
    config.profiles.insert("a".to_string(), profile_of(&[("OK", "1"), ("Z.Z", "2"), ("A B", "3")]));
    match config.validate() {
        Err(ValidationError::InvalidVariableName { profile, name }) => {
            assert_eq!(profile, "a");
            assert_eq!(name, "A B");
        }
        other => panic!("unexpected: {:?}", other),
    }
}

#[test]
fn load_of_nothing_gives_the_default_to_store() {
    let (config, fresh) = Config::load(None).unwrap();
    assert!(fresh);
    assert_eq!(snapshot(&config), snapshot(&Config::default_config()));
}

#[test]
fn load_keeps_a_valid_configuration() {
    let mut stored = Config::new();
    stored.profiles.insert("dev".to_string(), profile_of(&[("A", "1")]));
    let before = snapshot(&stored);
    let (config, fresh) = Config::load(Some(stored)).unwrap();
    assert!(!fresh);
    assert_eq!(snapshot(&config), before);
}

#[test]
fn load_refuses_an_invalid_configuration() {
    let mut stored = Config::new();
    stored.profiles.insert("dev".to_string(), profile_of(&[("A B", "1")]));
    match Config::load(Some(stored)) {
        Err(ValidationError::InvalidVariableName { profile, name }) => {
            assert_eq!(profile, "dev");
            assert_eq!(name, "A B");
        }
        other => panic!("unexpected: {:?}", other.map(|(c, f)| (snapshot(&c), f))),
    }
}

#[test]
fn create_profile_adds_an_empty_profile() {
    let mut config = Config::default_config();
    assert!(config.create_profile("backend").is_ok());
    assert_eq!(config.profile_names(), vec!["backend", "default"]);
    assert!(variables(config.get_profile("backend").unwrap()).is_empty());
    assert_eq!(
        variables(config.get_profile("default").unwrap()),
        vec![
            pair("ANOTHER_VAR", "another_value"),
            pair("EXAMPLE_VAR", "example_value"),
        ]
    );
}

#[test]
fn create_profile_refuses_a_name_that_exists() {
    let mut config = Config::default_config();
    let before = snapshot(&config);
    match config.create_profile("default") {
        Err(NewProfileError::AlreadyExists { profile }) => assert_eq!(profile, "default"),
        other => panic!("unexpected: {:?}", other),
    }
    assert_eq!(snapshot(&config), before);
}

#[test]
fn create_profile_refuses_an_invalid_name() {
    let mut config = Config::default_config();
    let before = snapshot(&config);
    match config.create_profile("my profile") {
        Err(NewProfileError::InvalidName { profile }) => assert_eq!(profile, "my profile"),
        other => panic!("unexpected: {:?}", other),
    }
    match config.create_profile("") {
        Err(NewProfileError::InvalidName { profile }) => assert_eq!(profile, ""),
        other => panic!("unexpected: {:?}", other),
    }
    assert_eq!(snapshot(&config), before);
}

#[test]
fn add_variable_sets_and_replaces() {
    let mut config = Config::default_config();
    assert!(config.add_variable("default", "API_KEY", "secret").is_ok());
    assert!(config.add_variable("default", "EXAMPLE_VAR", "changed").is_ok());
    assert_eq!(
        variables(config.get_profile("default").unwrap()),
        vec![
            pair("ANOTHER_VAR", "another_value"),
            pair("API_KEY", "secret"),
            pair("EXAMPLE_VAR", "changed"),
        ]
    );
    assert_eq!(config.profile_names(), vec!["default"]);
    assert!(config.validate().is_ok());
}

#[test]
fn add_variable_leaves_other_profiles_alone() {
    let mut config = Config::default_config();
    config.create_profile("a").unwrap();
    config.create_profile("z").unwrap();
    config.add_variable("a", "X", "1").unwrap();
    config.add_variable("z", "Y", "2").unwrap();
    config.add_variable("a", "W", "0").unwrap();
    assert_eq!(
        snapshot(&config),
        vec![
            ("a".to_string(), vec![pair("W", "0"), pair("X", "1")]),
            (
                "default".to_string(),
                vec![
                    pair("ANOTHER_VAR", "another_value"),
                    pair("EXAMPLE_VAR", "example_value"),
                ]
            ),
            ("z".to_string(), vec![pair("Y", "2")]),
        ]
    );
}

#[test]
fn add_variable_refuses_an_invalid_name() {
    let mut config = Config::default_config();
    let before = snapshot(&config);
    for key in ["1ABC", "MY-VAR", "MY VAR", "MY.VAR", "", "A=B"] {
        match config.add_variable("default", key, "value") {
            Err(AddVariableError::InvalidName { name }) => assert_eq!(name, key),
            other => panic!("unexpected: {:?}", other),
        }
        assert_eq!(snapshot(&config), before);
    }
}

#[test]
fn add_variable_refuses_a_marker_name() {
    let mut config = Config::default_config();
    let before = snapshot(&config);
    for key in ["SETENV_VARS", "SETENV_PROFILE"] {
        match config.add_variable("default", key, "value") {
            Err(AddVariableError::ReservedName { name }) => assert_eq!(name, key),
            other => panic!("unexpected: {:?}", other),
        }
        assert_eq!(snapshot(&config), before);
    }
}

#[test]
fn add_variable_needs_the_profile() {
    let mut config = Config::default_config();
    let before = snapshot(&config);
    match config.add_variable("missing", "KEY", "value") {
        Err(AddVariableError::ProfileNotFound { profile }) => assert_eq!(profile, "missing"),
        other => panic!("unexpected: {:?}", other),
    }
    match config.add_variable("missing", "1BAD", "value") {
        Err(AddVariableError::ProfileNotFound { profile }) => assert_eq!(profile, "missing"),
        other => panic!("unexpected: {:?}", other),
    }
    assert_eq!(snapshot(&config), before);
}

#[test]
fn add_variable_keeps_any_value() {
    let mut config = Config::default_config();
    config.add_variable("default", "V", "a \"b\" $c `d` \\ e").unwrap();
    config.add_variable("default", "EMPTY", "").unwrap();
    let profile = config.get_profile("default").unwrap();
    assert_eq!(profile.env_vars.get("V").unwrap(), "a \"b\" $c `d` \\ e");
    assert_eq!(profile.env_vars.get("EMPTY").unwrap(), "");
}

#[test]
fn entries_list_everything_in_order() {
    let mut config = Config::new();
    config.profiles.insert("web".to_string(), profile_of(&[("PORT", "80"), ("HOST", "h")]));
    config.profiles.insert("api".to_string(), profile_of(&[("KEY", "k")]));
    config.profiles.insert("empty".to_string(), Profile::new());
    assert_eq!(
        config.entries(),
        vec![
            ("api".to_string(), vec![pair("KEY", "k")]),
            ("empty".to_string(), vec![]),
            ("web".to_string(), vec![pair("HOST", "h"), pair("PORT", "80")]),
        ]
    );
    assert_eq!(config.entries(), snapshot(&config));
}

#[test]
fn from_entries_takes_any_order() {
    let entries = vec![
        ("web".to_string(), vec![pair("PORT", "80"), pair("HOST", "h")]),
        ("api".to_string(), vec![pair("KEY", "k")]),
    ];
    let config = Config::from_entries(&entries);
    assert_eq!(
        config.entries(),
        vec![
            ("api".to_string(), vec![pair("KEY", "k")]),
            ("web".to_string(), vec![pair("HOST", "h"), pair("PORT", "80")]),
        ]
    );
}

#[test]
fn from_entries_keeps_the_later_of_two() {
    let entries = vec![
        ("p".to_string(), vec![pair("A", "1"), pair("A", "2")]),
        ("q".to_string(), vec![pair("B", "1")]),
        ("q".to_string(), vec![pair("C", "2")]),
    ];
    let config = Config::from_entries(&entries);
    assert_eq!(
        config.entries(),
        vec![
            ("p".to_string(), vec![pair("A", "2")]),
            ("q".to_string(), vec![pair("C", "2")]),
        ]
    );
    let none: Vec<(String, Vec<(String, String)>)> = Vec::new();
    assert!(Config::from_entries(&none).entries().is_empty());
}

#[test]
fn entries_and_back_give_the_same_config() {
    let mut config = Config::default_config();
    config.create_profile("backend").unwrap();
    config.add_variable("backend", "URL", "http://x/?a=\"b\"").unwrap();
    config.add_variable("backend", "EMPTY", "").unwrap();
    config.create_profile("a-b_c").unwrap();
    let entries = config.entries();
    let again = Config::from_entries(&entries);
    assert_eq!(again.entries(), entries);
    assert_eq!(again.profile_names(), config.profile_names());
    assert!(again.validate().is_ok());
    let profile = Profile::from_entries(&entries[1].1);
    assert_eq!(profile.entries(), entries[1].1);
}
