use brute_force::context::AppContext;
use brute_force::context::AppParameters;
use brute_force::context::Argument;

#[test]
fn given_boolean_argument_is_present_when_parsed_then_gets_proper_value() {
    let params = vec![String::from("--arg1"), String::from("true")];
    let mut argument: Argument<bool> = Argument {
        keyword: "--arg1",
        description: "",
        default: Some(false),
        value: None,
    };

    let actual = argument.try_set(&params);

    assert!(actual.is_ok());
    assert_eq!(actual.unwrap(), true);
}

#[test]
fn given_boolean_argument_is_present_with_only_keyword_when_parsed_then_gets_default_value() {
    let params = vec![String::from("--arg1")];
    let mut argument: Argument<bool> = Argument {
        keyword: "--arg1",
        description: "",
        default: Some(false),
        value: None,
    };

    let actual = argument.try_set(&params);

    assert!(actual.is_ok());
    assert_eq!(actual.unwrap(), false);
}

#[test]
fn given_boolean_argument_is_not_present_when_parsed_then_gets_default_value() {
    let params = vec![];
    let mut argument: Argument<bool> = Argument {
        keyword: "--arg1",
        description: "",
        default: Some(false),
        value: None,
    };

    let actual = argument.try_set(&params);

    assert!(actual.is_ok());
    assert_eq!(actual.unwrap(), false);
}

#[test]
fn given_boolean_argument_is_incorrect_with_non_default_value_when_parsed_then_gets_error() {
    let params = vec![String::from("--arg1"), String::from("123")];
    let mut argument: Argument<bool> = Argument {
        keyword: "--arg1",
        description: "",
        default: None,
        value: None,
    };

    let actual = argument.try_set(&params);

    assert!(actual.is_err());
}

#[test]
fn given_boolean_argument_is_incorrect_with_default_value_when_parsed_then_gets_default_value() {
    let params = vec![String::from("--arg1"), String::from("123")];
    let mut argument: Argument<bool> = Argument {
        keyword: "--arg1",
        description: "",
        default: Some(true),
        value: None,
    };

    let actual = argument.try_set(&params);

    assert!(actual.is_ok());
    assert_eq!(actual.unwrap(), true);
}

#[test]
fn given_u32_argument_is_present_when_parsed_then_gets_proper_value() {
    let params = vec![String::from("--arg1"), String::from("64")];
    let mut argument: Argument<u32> = Argument {
        keyword: "--arg1",
        description: "",
        default: None,
        value: None,
    };

    let actual = argument.try_set(&params);

    assert!(actual.is_ok());
    assert_eq!(actual.unwrap(), 64);
}

#[test]
fn given_u32_argument_is_present_with_only_keyword_when_parsed_then_gets_default_value() {
    let params = vec![String::from("--arg1")];
    let mut argument: Argument<u32> = Argument {
        keyword: "--arg1",
        description: "",
        default: Some(32),
        value: None,
    };

    let actual = argument.try_set(&params);

    assert!(actual.is_ok());
    assert_eq!(actual.unwrap(), 32);
}

#[test]
fn given_u32_argument_is_not_present_when_parsed_then_gets_default_value() {
    let params = vec![];
    let mut argument: Argument<u32> = Argument {
        keyword: "--arg1",
        description: "",
        default: Some(16),
        value: None,
    };

    let actual = argument.try_set(&params);

    assert!(actual.is_ok());
    assert_eq!(actual.unwrap(), 16);
}

#[test]
fn given_u32_argument_is_incorrect_with_non_default_value_when_parsed_then_gets_error() {
    let params = vec![String::from("--arg1"), String::from("something")];
    let mut argument: Argument<bool> = Argument {
        keyword: "--arg1",
        description: "",
        default: None,
        value: None,
    };

    let actual = argument.try_set(&params);

    assert!(actual.is_err());
}

#[test]
fn given_u32_argument_is_incorrect_with_default_value_when_parsed_then_gets_default_value() {
    let params = vec![String::from("--arg1"), String::from("something")];
    let mut argument: Argument<u32> = Argument {
        keyword: "--arg1",
        description: "",
        default: Some(8),
        value: None,
    };

    let actual = argument.try_set(&params);

    assert!(actual.is_ok());
    assert_eq!(actual.unwrap(), 8);
}

#[test]
fn given_char_argument_is_present_when_parsed_then_gets_proper_value() {
    let params = vec![String::from("--arg1"), String::from("a")];
    let mut argument: Argument<char> = Argument {
        keyword: "--arg1",
        description: "",
        default: None,
        value: None,
    };

    let actual = argument.try_set(&params);

    assert!(actual.is_ok());
    assert_eq!(actual.unwrap(), 'a');
}

#[test]
fn given_char_argument_is_present_with_only_keyword_when_parsed_then_gets_default_value() {
    let params = vec![String::from("--arg1")];
    let mut argument: Argument<char> = Argument {
        keyword: "--arg1",
        description: "",
        default: Some('b'),
        value: None,
    };

    let actual = argument.try_set(&params);

    assert!(actual.is_ok());
    assert_eq!(actual.unwrap(), 'b');
}

#[test]
fn given_char_argument_is_not_present_when_parsed_then_gets_default_value() {
    let params = vec![];
    let mut argument: Argument<char> = Argument {
        keyword: "--arg1",
        description: "",
        default: Some('c'),
        value: None,
    };

    let actual = argument.try_set(&params);

    assert!(actual.is_ok());
    assert_eq!(actual.unwrap(), 'c');
}

#[test]
fn given_char_argument_is_incorrect_with_non_default_value_when_parsed_then_gets_error() {
    let params = vec![String::from("--arg1"), String::from("something")];
    let mut argument: Argument<char> = Argument {
        keyword: "--arg1",
        description: "",
        default: None,
        value: None,
    };

    let actual = argument.try_set(&params);

    assert!(actual.is_err());
}

#[test]
fn given_char_argument_is_incorrect_with_default_value_when_parsed_then_gets_default_value() {
    let params = vec![String::from("--arg1"), String::from("something")];
    let mut argument: Argument<char> = Argument {
        keyword: "--arg1",
        description: "",
        default: Some('d'),
        value: None,
    };

    let actual = argument.try_set(&params);

    assert!(actual.is_ok());
    assert_eq!(actual.unwrap(), 'd');
}

#[test]
fn given_usize_argument_is_present_when_parsed_then_gets_proper_value() {
    let params = vec![String::from("--arg1"), String::from("64")];
    let mut argument: Argument<usize> = Argument {
        keyword: "--arg1",
        description: "",
        default: None,
        value: None,
    };

    let actual = argument.try_set(&params);

    assert!(actual.is_ok());
    assert_eq!(actual.unwrap(), 64);
}

#[test]
fn given_usize_argument_is_present_with_only_keyword_when_parsed_then_gets_default_value() {
    let params = vec![String::from("--arg1")];
    let mut argument: Argument<usize> = Argument {
        keyword: "--arg1",
        description: "",
        default: Some(32),
        value: None,
    };

    let actual = argument.try_set(&params);

    assert!(actual.is_ok());
    assert_eq!(actual.unwrap(), 32);
}

#[test]
fn given_usize_argument_is_not_present_when_parsed_then_gets_default_value() {
    let params = vec![];
    let mut argument: Argument<usize> = Argument {
        keyword: "--arg1",
        description: "",
        default: Some(16),
        value: None,
    };

    let actual = argument.try_set(&params);

    assert!(actual.is_ok());
    assert_eq!(actual.unwrap(), 16);
}

#[test]
fn given_usize_argument_is_incorrect_with_non_default_value_when_parsed_then_gets_error() {
    let params = vec![String::from("--arg1"), String::from("something")];
    let mut argument: Argument<usize> = Argument {
        keyword: "--arg1",
        description: "",
        default: None,
        value: None,
    };

    let actual = argument.try_set(&params);

    assert!(actual.is_err());
}

#[test]
fn given_usize_argument_is_incorrect_with_default_value_when_parsed_then_gets_default_value() {
    let params = vec![String::from("--arg1"), String::from("something")];
    let mut argument: Argument<usize> = Argument {
        keyword: "--arg1",
        description: "",
        default: Some(8),
        value: None,
    };

    let actual = argument.try_set(&params);

    assert!(actual.is_ok());
    assert_eq!(actual.unwrap(), 8);
}

#[test]
fn when_new_then_gets_appcontext_instance() {
    let actual = AppContext::new();

    assert_eq!(actual.available_chars.len(), 96);
    assert_eq!(actual.start_with.keyword, "--start-with");
    assert_eq!(actual.start_with_char.keyword, "--start-with-char");
    assert_eq!(actual.file.keyword, "--file");
    assert_eq!(actual.size.keyword, "--size");
    assert_eq!(actual.word_length.keyword, "--length");
    assert_eq!(actual.verbose.keyword, "--verbose");
}

#[test]
fn given_app_context_when_from_then_gets_parameters() {
    const WORD_LENGTH: usize = 8;
    const FILE: &'static str = "/home/brute-force/output";
    const SIZE: u32 = 10;
    const START_WITH: usize = 2;
    const START_WITH_CHAR: char = 'b';
    const VERBOSE: bool = true;

    let mut app_context = AppContext::new();
    app_context.word_length.value = Some(WORD_LENGTH);
    app_context.file.value = Some(FILE.to_string());
    app_context.size.value = Some(SIZE);
    app_context.start_with.value = Some(START_WITH);
    app_context.start_with_char.value = Some(START_WITH_CHAR);
    app_context.verbose.value = Some(true);

    let actual = AppParameters::from(&app_context);

    assert_eq!(actual.word_length, WORD_LENGTH);
    assert_eq!(actual.file, FILE.to_string());
    assert_eq!(actual.size, SIZE);
    assert_eq!(actual.start_with, START_WITH);
    assert_eq!(actual.start_with_char, 66);
    assert_eq!(actual.verbose, VERBOSE);
}

#[test]
fn get_parameters_applies_defaults() {
    let params = vec![
        String::from("--length"),
        String::from("5"),
        String::from("--file"),
        String::from("out.txt"),
        String::from("--size"),
        String::from("100"),
    ];
    let mut app_context = AppContext::new();

    let actual = app_context.get_parameters(&params).unwrap();

    assert_eq!(actual.word_length, 5);
    assert_eq!(actual.file, String::from("out.txt"));
    assert_eq!(actual.size, 100);
    assert_eq!(actual.start_with, 0);
    assert_eq!(actual.start_with_char, 0);
    assert_eq!(actual.verbose, false);
}

#[test]
fn get_parameters_reports_first_missing_argument() {
    let params = vec![
        String::from("--file"),
        String::from("out.txt"),
        String::from("--size"),
        String::from("100"),
    ];
    let mut app_context = AppContext::new();

    let actual = app_context.get_parameters(&params);

    assert_eq!(actual.unwrap_err(), String::from("--length not provided"));
}

#[test]
fn get_parameters_resolves_start_with_char_index() {
    let params = vec![
        String::from("--length"),
        String::from("3"),
        String::from("--file"),
        String::from("out.txt"),
        String::from("--size"),
        String::from("1"),
        String::from("--start-with-char"),
        String::from("b"),
    ];
    let mut app_context = AppContext::new();

    let actual = app_context.get_parameters(&params).unwrap();

    assert_eq!(actual.start_with_char, 66);
}

#[test]
fn missing_value_reports_value_not_provided() {
    let params = vec![String::from("--arg1")];
    let mut argument: Argument<usize> = Argument {
        keyword: "--arg1",
        description: "",
        default: None,
        value: None,
    };

    let actual = argument.try_set(&params);

    assert_eq!(
        actual.unwrap_err(),
        String::from("--arg1 value not provided")
    );
}

#[test]
fn unreadable_number_reports_parse_failure() {
    let params = vec![String::from("--arg1"), String::from("something")];
    let mut argument: Argument<usize> = Argument {
        keyword: "--arg1",
        description: "",
        default: None,
        value: None,
    };

    let actual = argument.try_set(&params);

    assert_eq!(
        actual.unwrap_err(),
        String::from("Impossible to parse something to usize")
    );
}

#[test]
fn unreadable_u32_reports_parse_failure() {
    let params = vec![String::from("--arg1"), String::from("4294967296")];
    let mut argument: Argument<u32> = Argument {
        keyword: "--arg1",
        description: "",
        default: None,
        value: None,
    };

    let actual = argument.try_set(&params);

    assert_eq!(
        actual.unwrap_err(),
        String::from("Impossible to parse 4294967296 to u32")
    );
}

#[test]
fn unreadable_boolean_reports_parse_failure() {
    let params = vec![String::from("--arg1"), String::from("yes")];
    let mut argument: Argument<bool> = Argument {
        keyword: "--arg1",
        description: "",
        default: None,
        value: None,
    };

    let actual = argument.try_set(&params);

    assert_eq!(
        actual.unwrap_err(),
        String::from("Impossible to parse yes to boolean")
    );
}

#[test]
fn unreadable_char_reports_parse_failure() {
    let params = vec![String::from("--arg1"), String::from("xy")];
    let mut argument: Argument<char> = Argument {
        keyword: "--arg1",
        description: "",
        default: None,
        value: None,
    };

    let actual = argument.try_set(&params);

    assert_eq!(
        actual.unwrap_err(),
        String::from("Impossible to parse xy to char")
    );
}

#[test]
fn plus_sign_and_zero_padding_parse_as_numbers() {
    let params = vec![String::from("--arg1"), String::from("+064")];
    let mut argument: Argument<usize> = Argument {
        keyword: "--arg1",
        description: "",
        default: None,
        value: None,
    };

    let actual = argument.try_set(&params);

    assert_eq!(actual.unwrap(), 64);
}
