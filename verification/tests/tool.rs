use snapshot_comparison::{experiment, process, process_strict, Config, ProcessError};

#[test]
fn test_process_basic() {
    let config = Config::default();
    let result = process("hello", &config);
    assert!(result.is_ok());
    assert_eq!(result.unwrap(), "HELLO");
}

#[test]
fn test_process_empty_string() {
    let config = Config::default();
    let result = process("", &config);
    assert!(result.is_ok());
    assert_eq!(result.unwrap(), "");
}

#[test]
fn test_process_mixed_case() {
    let config = Config::default();
    let result = process("HeLLo WoRLd", &config);
    assert!(result.is_ok());
    assert_eq!(result.unwrap(), "HELLO WORLD");
}

#[test]
fn test_process_special_characters() {
    let config = Config::default();
    let result = process("hello! @#$% 123", &config);
    assert!(result.is_ok());
    assert_eq!(result.unwrap(), "HELLO! @#$% 123");
}

#[test]
fn test_process_unicode() {
    let config = Config::default();
    let result = process("café résumé", &config);
    assert!(result.is_ok());
    assert_eq!(result.unwrap(), "CAFÉ RÉSUMÉ");
}

#[test]
fn test_process_strict_empty() {
    let config = Config::default();
    let result = process_strict("", &config);
    assert!(result.is_err());
    assert_eq!(result.unwrap_err(), ProcessError::EmptyInput);
}

#[test]
fn test_process_strict_valid() {
    let config = Config::default();
    let result = process_strict("hello", &config);
    assert!(result.is_ok());
    assert_eq!(result.unwrap(), "HELLO");
}

#[test]
fn test_config_verbose() {
    let config = Config { verbose: true };
    let result = process("test", &config);
    assert!(result.is_ok());
}

#[test]
fn test_basic_processing() {
    let config = Config::default();
    let result = process("hello world", &config);

    assert!(result.is_ok());
    assert_eq!(result.unwrap(), "HELLO WORLD");
}

#[test]
fn test_empty_input() {
    let config = Config::default();
    let result = process("", &config);

    assert!(result.is_ok());
    assert_eq!(result.unwrap(), "");
}

#[test]
fn test_strict_mode_rejects_empty() {
    let config = Config::default();
    let result = process_strict("", &config);

    assert!(result.is_err());
    match result {
        Err(ProcessError::EmptyInput) => (),
        _ => panic!("Expected EmptyInput error"),
    }
}

#[test]
fn test_strict_mode_accepts_valid() {
    let config = Config::default();
    let result = process_strict("test", &config);

    assert!(result.is_ok());
    assert_eq!(result.unwrap(), "TEST");
}

#[test]
fn test_unicode_handling() {
    let config = Config::default();

    // Test various Unicode inputs
    let cases = vec![
        ("café", "CAFÉ"),
        ("日本語", "日本語"), // Japanese doesn't change case
        ("ΩMEGA", "ΩMEGA"),
        ("über", "ÜBER"),
    ];

    for (input, expected) in cases {
        let result = process(input, &config).unwrap();
        assert_eq!(result, expected, "Failed for input: {}", input);
    }
}

#[test]
fn test_whitespace_handling() {
    let config = Config::default();

    let cases = vec![
        ("  hello  ", "  HELLO  "),
        ("\thello\t", "\tHELLO\t"),
        ("hello\nworld", "HELLO\nWORLD"),
    ];

    for (input, expected) in cases {
        let result = process(input, &config).unwrap();
        assert_eq!(result, expected);
    }
}

#[test]
fn test_config_clone() {
    let config = Config { verbose: true };
    let cloned = config.clone();

    assert_eq!(config.verbose, cloned.verbose);
}

#[test]
fn test_error_traits() {
    let err = ProcessError::EmptyInput;

    // Test Display
    let display = err.to_string();
    assert!(!display.is_empty());

    // Test Debug
    let debug = format!("{:?}", err);
    assert!(!debug.is_empty());

    // Test Clone
    let cloned = err.clone();
    assert_eq!(err, cloned);
}

#[test]
fn test_basic() {
    let result = experiment("test");
    assert!(result.contains("test"));
}


#[test]
fn experiment_prefixes_its_input() {
    assert_eq!(experiment(""), "Processed: ");
    assert_eq!(experiment("a b"), "Processed: a b");
    assert!(!Config::default().verbose);
    assert_eq!(process("stra\u{df}e", &Config { verbose: true }).unwrap(), "STRASSE");
}

#[test]
fn lib_test_error_display() {
    let err = ProcessError::EmptyInput;
    assert_eq!(err.to_string(), "Input cannot be empty");

    let err = ProcessError::InvalidInput("bad data".to_string());
    assert_eq!(err.to_string(), "Invalid input: bad data");
}
