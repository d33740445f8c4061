use line_counter::{
    get_list_from_args_after_option, Config, ConfigError, Flag, PathKind, Vocabulary, FORMAT,
};

#[test]
fn config_null_test() {
    let args: Vec<String> = vec![];
    let expected_config: Config = Config{
        path: String::new(),
        path_is_directory:false,
        extensions_to_filter_for: Vec::new(),
        output_format: FORMAT::Default,
        search_subdirectories_recursively:false,
        show_help:true,
    };
    let actual_config = Config::new(&args).expect("test resulted in error creating config");

    assert_eq!(expected_config, actual_config);
}
#[test]
fn config_all_features_short_flags() {
    let args: Vec<String> = vec!["-r","--format=NUMERIC","-f","exe,rs","../"].iter().map(|s| s.to_string()).collect();
    let expected_config: Config = Config{
        path: String::from("../"),
        path_is_directory:true,
        extensions_to_filter_for: vec!["exe".to_string(),"rs".to_string()],
        output_format: FORMAT::Numeric,
        search_subdirectories_recursively:true,
        show_help:false,
    };
    let actual_config = Config::new(&args).expect("test resulted in error creating config");

    assert_eq!(expected_config, actual_config);
}
#[test]
fn config_all_features_long_flags() {
    let args: Vec<String> = vec!["--recursive","--filter","exe,rs", "--format=MARKDOWN","../"].iter().map(|s| s.to_string()).collect();
    let expected_config: Config = Config{
        path: String::from("../"),
        path_is_directory:true,
        extensions_to_filter_for: vec!["exe".to_string(),"rs".to_string()],
        output_format: FORMAT::Markdown,
        search_subdirectories_recursively:true,
        show_help:false,
    };
    let actual_config = Config::new(&args).expect("test resulted in error creating config");

    assert_eq!(expected_config, actual_config);
}
#[test]
fn config_help_short_flag() {
    let args: Vec<String> = vec!["-h"].iter().map(|s| s.to_string()).collect();
    let expected_config: Config = Config{
        path: String::new(),
        path_is_directory:false,
        extensions_to_filter_for: Vec::new(),
        output_format: FORMAT::Default,
        search_subdirectories_recursively:false,
        show_help:true,
    };
    let actual_config = Config::new(&args).expect("test resulted in error creating config");

    assert_eq!(expected_config, actual_config);
}
#[test]
fn config_help_long_flag() {
    let args: Vec<String> = vec!["--help"].iter().map(|s| s.to_string()).collect();

    let expected_config: Config = Config{
        path: String::new(),
        path_is_directory:false,
        extensions_to_filter_for: Vec::new(),
        output_format: FORMAT::Default,
        search_subdirectories_recursively:false,
        show_help:true,
    };
    let actual_config = Config::new(&args).expect("test resulted in error creating config");

    assert_eq!(expected_config, actual_config);
}
#[test]
fn config_filter_for_extension_short_flag() {
    let args: Vec<String> = vec!["-f", "exe,rs", "../"].iter().map(|s| s.to_string()).collect();

    let expected_config: Config = Config{
        path: String::from("../"),
        path_is_directory:true,
        extensions_to_filter_for: vec!["exe".to_string(),"rs".to_string()],
        output_format: FORMAT::Default,
        search_subdirectories_recursively:false,
        show_help:false,
    };
    let actual_config = Config::new(&args).expect("test resulted in error creating config");

    assert_eq!(expected_config, actual_config);
}
#[test]
#[should_panic]
fn config_filter_for_extension_empty() {
    let args: Vec<String> = vec!["-f", "../"].iter().map(|s| s.to_string()).collect();

    let _actual_config = Config::new(&args).expect("test resulted in error creating config");
}
#[test]
#[should_panic]
fn config_filter_for_extension_other_option_instead_of_flag() {
    let args: Vec<String> = vec!["-f", "-r", "../"].iter().map(|s| s.to_string()).collect();

    let _actual_config = Config::new(&args).expect("test resulted in error creating config");
}
#[test]
fn config_filter_for_extension_long_flag() {
    let args: Vec<String> = vec!["--filter", "exe,rs", "../"].iter().map(|s| s.to_string()).collect();

    let expected_config: Config = Config{
        path: String::from("../"),
        path_is_directory:true,
        extensions_to_filter_for: vec!["exe".to_string(),"rs".to_string()],
        output_format: FORMAT::Default,
        search_subdirectories_recursively:false,
        show_help:false,
    };
    let actual_config = Config::new(&args).expect("test resulted in error creating config");

    assert_eq!(expected_config, actual_config);
}
#[test]
fn config_recursion_short_flag() {
    let args: Vec<String> = vec!["-r", "../"].iter().map(|s| s.to_string()).collect();

    let expected_config: Config = Config{
        path: String::from("../"),
        path_is_directory:true,
        extensions_to_filter_for: Vec::new(),
        output_format: FORMAT::Default,
        search_subdirectories_recursively:true,
        show_help:false,
    };
    let actual_config = Config::new(&args).expect("test resulted in error creating config");

    assert_eq!(expected_config, actual_config);
}
#[test]
fn config_recursion_long_flag() {
    let args: Vec<String> = vec!["--recursive", "../"].iter().map(|s| s.to_string()).collect();

    let expected_config: Config = Config{
        path: String::from("../"),
        path_is_directory:true,
        extensions_to_filter_for: Vec::new(),
        output_format: FORMAT::Default,
        search_subdirectories_recursively:true,
        show_help:false,
    };
    let actual_config = Config::new(&args).expect("test resulted in error creating config");

    assert_eq!(expected_config, actual_config);
}
#[test]
fn config_format_bullet() {
    let args: Vec<String> = vec!["--format=BULLET", "../"].iter().map(|s| s.to_string()).collect();

    let expected_config: Config = Config{
        path: String::from("../"),
        path_is_directory:true,
        extensions_to_filter_for: Vec::new(),
        output_format: FORMAT::Bullet,
        search_subdirectories_recursively:false,
        show_help:false,
    };
    let actual_config = Config::new(&args).expect("test resulted in error creating config");

    assert_eq!(expected_config, actual_config);
}
#[test]
fn config_format_markdown() {
    let args: Vec<String> = vec!["--format=MARKDOWN", "../"].iter().map(|s| s.to_string()).collect();

    let expected_config: Config = Config{
        path: String::from("../"),
        path_is_directory:true,
        extensions_to_filter_for: Vec::new(),
        output_format: FORMAT::Markdown,
        search_subdirectories_recursively:false,
        show_help:false,
    };
    let actual_config = Config::new(&args).expect("test resulted in error creating config");

    assert_eq!(expected_config, actual_config);
}
#[test]
fn config_format_numeric() {
    let args: Vec<String> = vec!["--format=NUMERIC", "../"].iter().map(|s| s.to_string()).collect();

    let expected_config: Config = Config{
        path: String::from("../"),
        path_is_directory:true,
        extensions_to_filter_for: Vec::new(),
        output_format: FORMAT::Numeric,
        search_subdirectories_recursively:false,
        show_help:false,
    };
    let actual_config = Config::new(&args).expect("test resulted in error creating config");

    assert_eq!(expected_config, actual_config);
}
#[test]
#[should_panic]
fn config_mixed_casing() {
    let args: Vec<String> = vec!["-F","eXe,rs", "--forMAt=numMERIC","-r","../"].iter().map(|s| s.to_string()).collect();

    let _actual_config = Config::new(&args).expect("test resulted in error creating config");
}

fn tokens(list: &[&str]) -> Vec<String> {
    list.iter().map(|s| s.to_string()).collect()
}

#[test]
fn single_token_shows_help_whatever_it_is() {
    for token in ["prog", "-x", "--format=BULLET", "/nowhere/at/all", ""] {
        let config = Config::new(&tokens(&[token])).expect("one token asks for help");
        assert_eq!(
            config,
            Config {
                path: String::new(),
                path_is_directory: false,
                extensions_to_filter_for: Vec::new(),
                output_format: FORMAT::Default,
                search_subdirectories_recursively: false,
                show_help: true,
            }
        );
    }
}

#[test]
fn resolve_takes_the_kind_of_the_target_as_given() {
    let vocabulary = Vocabulary::standard();
    let args = tokens(&["-r", "some/where"]);
    let file = Config::resolve(&vocabulary, &args, PathKind::File).unwrap();
    assert_eq!(file.path, "some/where");
    assert!(!file.path_is_directory);
    assert!(file.search_subdirectories_recursively);
    assert!(!file.show_help);
    let directory = Config::resolve(&vocabulary, &args, PathKind::Directory).unwrap();
    assert_eq!(directory.path, "some/where");
    assert!(directory.path_is_directory);
    assert_eq!(
        Config::resolve(&vocabulary, &args, PathKind::Missing),
        Err(ConfigError::PathNotFound)
    );
}

#[test]
fn missing_target_is_path_not_found() {
    let args = tokens(&["-r", "/this/path/does/not/exist/anywhere"]);
    assert_eq!(Config::new(&args), Err(ConfigError::PathNotFound));
}

#[test]
fn empty_target_is_path_not_found() {
    let vocabulary = Vocabulary::standard();
    let args = tokens(&["-r", ""]);
    assert_eq!(
        Config::resolve(&vocabulary, &args, PathKind::Directory),
        Err(ConfigError::PathNotFound)
    );
    assert_eq!(Config::new(&args), Err(ConfigError::PathNotFound));
}

#[test]
fn existing_file_is_not_a_directory() {
    for here in ["src/lib.rs", "tests/config.rs", "/dev/null"] {
        let args = tokens(&["--format=BULLET", here]);
        match Config::new(&args) {
            Ok(config) => {
                assert_eq!(config.path, here);
                assert!(!config.path_is_directory);
                assert_eq!(config.output_format, FORMAT::Bullet);
                assert!(!config.show_help);
            }
            Err(error) => assert_eq!(error, ConfigError::PathNotFound),
        }
    }
}

#[test]
fn unknown_option_is_named() {
    let args = tokens(&["-r", "--bogus", "-z", "../"]);
    assert_eq!(
        Config::new(&args),
        Err(ConfigError::InvalidArgument("--bogus".to_string()))
    );
}

#[test]
fn mixed_case_flags_are_rejected() {
    let args = tokens(&["-F", "eXe,rs", "--forMAt=numMERIC", "-r", "../"]);
    assert_eq!(
        Config::new(&args),
        Err(ConfigError::InvalidArgument("-F".to_string()))
    );
    let args = tokens(&["--format=numeric", "../"]);
    assert_eq!(
        Config::new(&args),
        Err(ConfigError::InvalidArgument("--format=numeric".to_string()))
    );
    let args = tokens(&["--Help", "../"]);
    assert_eq!(
        Config::new(&args),
        Err(ConfigError::InvalidArgument("--Help".to_string()))
    );
}

#[test]
fn target_that_looks_like_an_option_must_be_known() {
    let args = tokens(&["-r", "-target"]);
    assert_eq!(
        Config::new(&args),
        Err(ConfigError::InvalidArgument("-target".to_string()))
    );
}

#[test]
fn unknown_option_comes_before_missing_list() {
    let args = tokens(&["-f", "--nope", "../"]);
    assert_eq!(
        Config::new(&args),
        Err(ConfigError::InvalidArgument("--nope".to_string()))
    );
}

#[test]
fn filter_without_list_is_missing_extension_list() {
    assert_eq!(
        Config::new(&tokens(&["-f", "../"])),
        Err(ConfigError::MissingExtensionList)
    );
    assert_eq!(
        Config::new(&tokens(&["-f", "-r", "../"])),
        Err(ConfigError::MissingExtensionList)
    );
    assert_eq!(
        Config::new(&tokens(&["-r", "../", "--filter"])),
        Err(ConfigError::MissingExtensionList)
    );
}

#[test]
fn two_tokens_may_be_the_filter_and_a_target_that_is_its_list() {
    let vocabulary = Vocabulary::standard();
    let args = tokens(&["-f", "rs"]);
    let config = Config::resolve(&vocabulary, &args, PathKind::File).unwrap();
    assert_eq!(config.path, "rs");
    assert_eq!(config.extensions_to_filter_for, vec!["rs"]);
    assert_eq!(
        Config::new(&tokens(&["--filter", "no-such-entry-anywhere"])),
        Err(ConfigError::PathNotFound)
    );
}

#[test]
fn list_that_strips_to_nothing_is_missing_extension_list() {
    assert_eq!(
        Config::new(&tokens(&["-f", "123,,;", "../"])),
        Err(ConfigError::MissingExtensionList)
    );
    assert_eq!(
        Config::new(&tokens(&["-r", "-f", "../"])),
        Err(ConfigError::MissingExtensionList)
    );
}

#[test]
fn missing_list_comes_before_help() {
    assert_eq!(
        Config::new(&tokens(&["-h", "-f", "-r", "../"])),
        Err(ConfigError::MissingExtensionList)
    );
}

#[test]
fn extension_list_is_cleaned() {
    let args = tokens(&["-f", "eXe, .RS,,c++,9,Txt", "../"]);
    let config = Config::new(&args).unwrap();
    assert_eq!(config.extensions_to_filter_for, vec!["exe", "rs", "c", "txt"]);
}

#[test]
fn list_may_be_the_target_itself() {
    let vocabulary = Vocabulary::standard();
    let args = tokens(&["-r", "-f", "src"]);
    let config = Config::resolve(&vocabulary, &args, PathKind::Directory).unwrap();
    assert_eq!(config.path, "src");
    assert_eq!(config.extensions_to_filter_for, vec!["src"]);
}

#[test]
fn last_filter_option_decides_and_its_first_occurrence_is_read() {
    let vocabulary = Vocabulary::standard();
    let args = tokens(&["-f", "a", "--filter", "b", "x"]);
    let config = Config::resolve(&vocabulary, &args, PathKind::File).unwrap();
    assert_eq!(config.extensions_to_filter_for, vec!["b"]);
    let args = tokens(&["-f", "a", "-f", "b", "x"]);
    let config = Config::resolve(&vocabulary, &args, PathKind::File).unwrap();
    assert_eq!(config.extensions_to_filter_for, vec!["a"]);
    let args = tokens(&["--filter", "-r", "-f", "rs", "x"]);
    let config = Config::resolve(&vocabulary, &args, PathKind::File).unwrap();
    assert_eq!(config.extensions_to_filter_for, vec!["rs"]);
    let args = tokens(&["-f", "rs", "--filter", "-r", "x"]);
    assert_eq!(
        Config::resolve(&vocabulary, &args, PathKind::File),
        Err(ConfigError::MissingExtensionList)
    );
}

#[test]
fn last_format_wins() {
    let args = tokens(&["--format=BULLET", "--format=NUMERIC", "--format=MARKDOWN", "../"]);
    assert_eq!(Config::new(&args).unwrap().output_format, FORMAT::Markdown);
    let args = tokens(&["--format=MARKDOWN", "--format=DEFAULT", "../"]);
    assert_eq!(Config::new(&args).unwrap().output_format, FORMAT::Default);
}

#[test]
fn flags_do_not_depend_on_their_order() {
    let one = Config::new(&tokens(&["-r", "--format=BULLET", "-f", "rs", "../"])).unwrap();
    let other = Config::new(&tokens(&["-f", "rs", "--format=BULLET", "-r", "../"])).unwrap();
    assert_eq!(one, other);
}

#[test]
fn help_skips_the_path_and_keeps_the_other_options() {
    let args = tokens(&["--help", "-r", "--format=NUMERIC", "/this/path/does/not/exist"]);
    let config = Config::new(&args).unwrap();
    assert_eq!(
        config,
        Config {
            path: String::new(),
            path_is_directory: false,
            extensions_to_filter_for: Vec::new(),
            output_format: FORMAT::Numeric,
            search_subdirectories_recursively: true,
            show_help: true,
        }
    );
}

#[test]
fn vocabulary_can_be_replaced() {
    let vocabulary = Vocabulary::new()
        .with("-deep", Flag::Recursive)
        .with("-only", Flag::Filter)
        .with("-n", Flag::Format(FORMAT::Numeric))
        .with("-n", Flag::Help);
    assert_eq!(vocabulary.lookup(&"-deep".to_string()), Some(Flag::Recursive));
    assert_eq!(vocabulary.lookup(&"-n".to_string()), Some(Flag::Format(FORMAT::Numeric)));
    assert_eq!(vocabulary.lookup(&"-r".to_string()), None);
    let args = tokens(&["-deep", "-only", "md", "-n", "docs"]);
    let config = Config::resolve(&vocabulary, &args, PathKind::Directory).unwrap();
    assert_eq!(
        config,
        Config {
            path: "docs".to_string(),
            path_is_directory: true,
            extensions_to_filter_for: vec!["md".to_string()],
            output_format: FORMAT::Numeric,
            search_subdirectories_recursively: true,
            show_help: false,
        }
    );
    assert_eq!(
        Config::resolve(&vocabulary, &tokens(&["-r", "docs"]), PathKind::Directory),
        Err(ConfigError::InvalidArgument("-r".to_string()))
    );
}

#[test]
fn standard_vocabulary_holds_the_ten_tokens() {
    let vocabulary = Vocabulary::standard();
    let expected = [
        ("-f", Flag::Filter),
        ("--filter", Flag::Filter),
        ("--format=DEFAULT", Flag::Format(FORMAT::Default)),
        ("--format=BULLET", Flag::Format(FORMAT::Bullet)),
        ("--format=MARKDOWN", Flag::Format(FORMAT::Markdown)),
        ("--format=NUMERIC", Flag::Format(FORMAT::Numeric)),
        ("-r", Flag::Recursive),
        ("--recursive", Flag::Recursive),
        ("-h", Flag::Help),
        ("--help", Flag::Help),
    ];
    assert_eq!(vocabulary.entries.len(), expected.len());
    for (token, flag) in expected {
        assert_eq!(vocabulary.lookup(&token.to_string()), Some(flag));
    }
    assert_eq!(vocabulary.lookup(&"-help".to_string()), None);
    assert_eq!(vocabulary.lookup(&"".to_string()), None);
}

#[test]
fn list_after_option_is_found_behind_its_first_occurrence() {
    let vocabulary = Vocabulary::standard();
    let args = tokens(&["-f", "Rs,TOML", "../"]);
    assert_eq!(
        get_list_from_args_after_option(&vocabulary, &args, &"-f".to_string()),
        Ok(vec!["rs".to_string(), "toml".to_string()])
    );
    assert_eq!(
        get_list_from_args_after_option(&vocabulary, &args, &"--filter".to_string()),
        Err(ConfigError::MissingExtensionList)
    );
    let args = tokens(&["../", "x", "-f"]);
    assert_eq!(
        get_list_from_args_after_option(&vocabulary, &args, &"-f".to_string()),
        Err(ConfigError::MissingExtensionList)
    );
}

#[test]
fn error_messages_name_what_went_wrong() {
    assert_eq!(
        ConfigError::InvalidArgument("-F".to_string()).message(),
        "Invalid argument: -F"
    );
    assert_eq!(
        ConfigError::MissingExtensionList.message(),
        "Error finding extensions list: no list found"
    );
    assert_eq!(ConfigError::PathNotFound.message(), "Invalid path given");
}

#[test]
fn options_are_read_without_a_look_at_the_path() {
    let vocabulary = Vocabulary::standard();
    let args = tokens(&["-r", "-f", "rs,md", "--format=BULLET", "/no/such/place"]);
    let draft = Config::from_options(&vocabulary, &args).unwrap();
    assert_eq!(
        draft,
        Config {
            path: String::new(),
            path_is_directory: false,
            extensions_to_filter_for: vec!["rs".to_string(), "md".to_string()],
            output_format: FORMAT::Bullet,
            search_subdirectories_recursively: true,
            show_help: false,
        }
    );
    let placed = draft.locate(&"/no/such/place".to_string(), PathKind::Directory).unwrap();
    assert_eq!(placed.path, "/no/such/place");
    assert!(placed.path_is_directory);
    assert_eq!(placed.extensions_to_filter_for, vec!["rs", "md"]);
    assert_eq!(placed.output_format, FORMAT::Bullet);
    assert!(placed.search_subdirectories_recursively);
}

#[test]
fn help_only_is_the_default_with_help_set() {
    let config = Config::help_only();
    assert!(config.show_help);
    assert_eq!(config.path, "");
    assert_eq!(Config::new(&[]).unwrap(), config);
    let vocabulary = Vocabulary::new();
    for kind in [PathKind::Missing, PathKind::File, PathKind::Directory] {
        assert_eq!(Config::resolve(&vocabulary, &tokens(&["-anything"]), kind).unwrap(), config);
    }
}

#[test]
fn kind_is_read_from_the_two_answers_of_the_file_system() {
    assert_eq!(PathKind::of(false, false), PathKind::Missing);
    assert_eq!(PathKind::of(false, true), PathKind::Missing);
    assert_eq!(PathKind::of(true, false), PathKind::File);
    assert_eq!(PathKind::of(true, true), PathKind::Directory);
}

#[test]
fn extension_that_is_listed_again_is_kept_once() {
    let args = tokens(&["-f", "rs,txt,RS", "../"]);
    let config = Config::new(&args).unwrap();
    assert_eq!(config.extensions_to_filter_for, vec!["rs", "txt"]);
    let vocabulary = Vocabulary::standard();
    assert_eq!(
        get_list_from_args_after_option(&vocabulary, &args, &"-f".to_string()),
        Ok(vec!["rs".to_string(), "txt".to_string()])
    );
}
