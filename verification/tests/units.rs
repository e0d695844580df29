//! Unit scenarios for the tokenizer, the coercer, the stand-alone value
//! parsers, schema validation, and the diagnostic reporter.

use argbind::bind::{EnvPair, Provenance};
use argbind::color::{use_colors, ColorMode, Stream};
use argbind::diag::{describe, ErrorKind, ValidationError};
use argbind::digits::{parse_i64, parse_u64, render_i64, render_u64};
use argbind::schema::{ArgKind, ArgumentSpec, Arity, Schema, SchemaError, Subcommand, Validator, ValueType};
use argbind::token::{tokenize, Token};
use argbind::validators::{parse_percentage, port_in_range, validate_directory, validate_email};
use argbind::value::{canonical_string, coerce, TypedValue};
use argbind::validate_schema;

fn argv(xs: &[&str]) -> Vec<String> {
    xs.iter().map(|s| s.to_string()).collect()
}

#[test]
fn tokenizer_classifies_each_shape() {
    let toks = tokenize(&argv(&[
        "--input=in.txt",
        "--verbose",
        "-c10",
        "-",
        "plain",
        "--",
        "-v",
        "--still-plain",
    ]));
    assert_eq!(
        toks,
        vec![
            Token::Long { name: "input".to_string(), inline: Some("in.txt".to_string()) },
            Token::Long { name: "verbose".to_string(), inline: None },
            Token::Shorts { body: "c10".to_string() },
            Token::Plain { text: "-".to_string() },
            Token::Plain { text: "plain".to_string() },
            Token::Separator,
            Token::Plain { text: "-v".to_string() },
            Token::Plain { text: "--still-plain".to_string() },
        ]
    );
}

#[test]
fn tokenizer_splits_at_first_equals_only() {
    let toks = tokenize(&argv(&["--key=a=b", "--empty="]));
    assert_eq!(
        toks,
        vec![
            Token::Long { name: "key".to_string(), inline: Some("a=b".to_string()) },
            Token::Long { name: "empty".to_string(), inline: Some("".to_string()) },
        ]
    );
}

#[test]
fn recoerce_integer_round_trip() {
    for n in [0i64, 7, -42, 8080, i64::MAX, i64::MIN] {
        let v = TypedValue::Number(n);
        let s = canonical_string(&v);
        let back = coerce(s.as_str(), &ValueType::Number, None).unwrap();
        assert_eq!(back, v);
    }
}

#[test]
fn recoerce_boolean_round_trip() {
    for b in [true, false] {
        let v = TypedValue::Truth(b);
        let s = canonical_string(&v);
        let back = coerce(s.as_str(), &ValueType::Truth, None).unwrap();
        assert_eq!(back, v);
    }
}

#[test]
fn recoerce_selection_round_trip() {
    let choices = vec!["json".to_string(), "yaml".to_string()];
    for name in ["json", "yaml"] {
        let v = TypedValue::Selection(name.to_string());
        let s = canonical_string(&v);
        let back = coerce(s.as_str(), &ValueType::Selection(choices.clone()), None).unwrap();
        assert_eq!(back, v);
    }
}

#[test]
fn recoerce_integer_within_range() {
    let v = TypedValue::Number(16);
    let s = canonical_string(&v);
    let back = coerce(s.as_str(), &ValueType::Number, Some(Validator::IntRange(1, 32))).unwrap();
    assert_eq!(back, v);
}

#[test]
fn leading_plus_is_accepted_like_the_machine_parsers() {
    assert_eq!(parse_u64("+42"), Some(42));
    assert_eq!(parse_u64("+"), None);
    assert_eq!(parse_i64("+7"), Some(7));
    assert_eq!(parse_i64("+-3"), None);
    assert_eq!(parse_i64("++1"), None);
    assert_eq!(port_in_range("+80"), Ok(80));
    assert_eq!(parse_percentage("+80"), Ok(80));
    assert_eq!(
        coerce("+10", &ValueType::Number, None).unwrap(),
        TypedValue::Number(10)
    );
}

#[test]
fn email_length_counts_bytes_not_characters() {
    // five characters, six bytes: accepted
    assert_eq!(validate_email("\u{e4}@b.c"), Ok("\u{e4}@b.c".to_string()));
    // five characters, five bytes: rejected
    assert_eq!(
        validate_email("a@b.c"),
        Err("`a@b.c` is not a valid email address".to_string())
    );
    let ok = coerce("\u{e4}@b.c", &ValueType::Text, Some(Validator::EmailFormat)).unwrap();
    assert_eq!(ok, TypedValue::Text("\u{e4}@b.c".to_string()));
}

#[test]
fn digits_render_and_parse() {
    assert_eq!(render_u64(0), "0");
    assert_eq!(render_u64(65535), "65535");
    assert_eq!(render_i64(-8080), "-8080");
    assert_eq!(parse_u64("18446744073709551615"), Some(u64::MAX));
    assert_eq!(parse_u64("18446744073709551616"), None);
    assert_eq!(parse_u64(""), None);
    assert_eq!(parse_u64("12a"), None);
    assert_eq!(parse_i64("-9223372036854775808"), Some(i64::MIN));
    assert_eq!(parse_i64("-9223372036854775809"), None);
    assert_eq!(parse_i64("9223372036854775807"), Some(i64::MAX));
    assert_eq!(parse_i64("-"), None);
}

#[test]
fn coerce_boolean_literal_set_is_fixed() {
    for (raw, want) in [("true", true), ("1", true), ("false", false), ("0", false)] {
        assert_eq!(coerce(raw, &ValueType::Truth, None).unwrap(), TypedValue::Truth(want));
    }
    let e = coerce("True", &ValueType::Truth, None).unwrap_err();
    assert_eq!(e.kind, ErrorKind::TypeMismatch);
    assert_eq!(e.message, "is not one of true, false, 1, 0");
}

#[test]
fn coerce_number_mismatch() {
    let e = coerce("12x", &ValueType::Number, None).unwrap_err();
    assert_eq!(e.kind, ErrorKind::TypeMismatch);
    assert_eq!(e.raw.as_deref(), Some("12x"));
    assert_eq!(e.message, "is not a base-ten integer");
}

#[test]
fn coerce_email_validator() {
    let ok = coerce("a@b.com", &ValueType::Text, Some(Validator::EmailFormat)).unwrap();
    assert_eq!(ok, TypedValue::Text("a@b.com".to_string()));
    let e = coerce("nope", &ValueType::Text, Some(Validator::EmailFormat)).unwrap_err();
    assert_eq!(e.kind, ErrorKind::CustomRejected);
    assert_eq!(e.message, "is not a valid email address");
}

#[test]
fn coerce_selection_is_case_sensitive() {
    let choices = vec!["Json".to_string()];
    let e = coerce("json", &ValueType::Selection(choices), None).unwrap_err();
    assert_eq!(e.kind, ErrorKind::TypeMismatch);
}

#[test]
fn port_in_range_matches_its_messages() {
    assert_eq!(port_in_range("8080"), Ok(8080));
    assert_eq!(port_in_range("1"), Ok(1));
    assert_eq!(port_in_range("65535"), Ok(65535));
    assert_eq!(
        port_in_range("0"),
        Err("port not in range 1-65535".to_string())
    );
    assert_eq!(
        port_in_range("65536"),
        Err("port not in range 1-65535".to_string())
    );
    assert_eq!(
        port_in_range("abc"),
        Err("`abc` isn't a valid port number".to_string())
    );
}

#[test]
fn validate_email_accepts_and_rejects() {
    assert_eq!(validate_email("user@example.com"), Ok("user@example.com".to_string()));
    assert_eq!(
        validate_email("a@b."),
        Err("`a@b.` is not a valid email address".to_string())
    );
    assert_eq!(
        validate_email("no-at-sign.com"),
        Err("`no-at-sign.com` is not a valid email address".to_string())
    );
}

#[test]
fn parse_percentage_distinguishes_its_errors() {
    assert_eq!(parse_percentage("80"), Ok(80));
    assert_eq!(parse_percentage("100"), Ok(100));
    assert_eq!(
        parse_percentage("101"),
        Err("percentage must be between 0 and 100".to_string())
    );
    assert_eq!(
        parse_percentage("300"),
        Err("`300` isn't a valid number".to_string())
    );
    assert_eq!(
        parse_percentage("x"),
        Err("`x` isn't a valid number".to_string())
    );
}

#[test]
fn validate_directory_decides_from_probed_facts() {
    assert_eq!(validate_directory("/tmp", true, true), Ok("/tmp".to_string()));
    assert_eq!(
        validate_directory("/missing", false, false),
        Err("directory does not exist: /missing".to_string())
    );
    assert_eq!(
        validate_directory("/a-file", true, false),
        Err("directory does not exist: /a-file".to_string())
    );
}

fn named(id: &str, short: Option<char>, long: Option<&str>) -> ArgumentSpec {
    ArgumentSpec {
        id: id.to_string(),
        kind: ArgKind::Valued,
        short,
        long: long.map(|s| s.to_string()),
        arity: Arity::ZeroOrOne,
        value_type: ValueType::Text,
        default: None,
        env_name: None,
        required: false,
        global: false,
        validator: None,
    }
}

#[test]
fn schema_rejects_duplicate_names() {
    let schema = Schema {
        args: vec![named("a", Some('x'), Some("alpha")), named("b", Some('x'), Some("beta"))],
        subcommands: vec![],
    };
    assert_eq!(validate_schema(&schema), Err(SchemaError::DuplicateShortName));
    let schema = Schema {
        args: vec![named("a", None, Some("alpha")), named("b", None, Some("alpha"))],
        subcommands: vec![],
    };
    assert_eq!(validate_schema(&schema), Err(SchemaError::DuplicateLongName));
    let schema = Schema {
        args: vec![named("a", None, Some("alpha")), named("a", None, Some("beta"))],
        subcommands: vec![],
    };
    assert_eq!(validate_schema(&schema), Err(SchemaError::DuplicateId));
}

#[test]
fn schema_rejects_unbounded_positional_before_another() {
    let mut first = named("first", None, None);
    first.kind = ArgKind::Positional;
    first.arity = Arity::ZeroOrMore;
    let mut second = named("second", None, None);
    second.kind = ArgKind::Positional;
    let schema = Schema { args: vec![first, second], subcommands: vec![] };
    assert_eq!(validate_schema(&schema), Err(SchemaError::UnboundedPositionalNotLast));
}

#[test]
fn schema_rejects_subcommands_beside_unbounded_positional() {
    let mut files = named("files", None, None);
    files.kind = ArgKind::Positional;
    files.arity = Arity::OneOrMore;
    let schema = Schema {
        args: vec![files],
        subcommands: vec![Subcommand {
            name: "build".to_string(),
            schema: Schema { args: vec![], subcommands: vec![] },
        }],
    };
    assert_eq!(
        validate_schema(&schema),
        Err(SchemaError::UnboundedPositionalWithSubcommands)
    );
}

#[test]
fn schema_rejects_duplicate_subcommand_names() {
    let empty = || Schema { args: vec![], subcommands: vec![] };
    let schema = Schema {
        args: vec![],
        subcommands: vec![
            Subcommand { name: "build".to_string(), schema: empty() },
            Subcommand { name: "build".to_string(), schema: empty() },
        ],
    };
    assert_eq!(validate_schema(&schema), Err(SchemaError::DuplicateSubcommandName));
}

#[test]
fn schema_accepts_a_well_formed_tree() {
    let mut verbose = named("verbose", Some('v'), Some("verbose"));
    verbose.kind = ArgKind::Flag;
    verbose.value_type = ValueType::Truth;
    verbose.global = true;
    let schema = Schema {
        args: vec![verbose, named("output", Some('o'), Some("output"))],
        subcommands: vec![Subcommand {
            name: "init".to_string(),
            schema: Schema { args: vec![named("template", Some('t'), Some("template"))], subcommands: vec![] },
        }],
    };
    assert_eq!(validate_schema(&schema), Ok(()));
}

#[test]
fn describe_renders_one_deterministic_line() {
    let e = ValidationError {
        kind: ErrorKind::OutOfRange,
        arg_id: Some("jobs".to_string()),
        raw: Some("33".to_string()),
        message: "must be between 1 and 32".to_string(),
    };
    assert_eq!(
        describe(&e),
        "value out of range for `jobs`, given `33`: must be between 1 and 32"
    );
    let e = ValidationError {
        kind: ErrorKind::UnknownArgument,
        arg_id: None,
        raw: Some("nope".to_string()),
        message: String::new(),
    };
    assert_eq!(describe(&e), "unknown argument, given `nope`");
}

#[test]
fn color_mode_decision() {
    let _stdout = Stream::Stdout;
    assert!(use_colors(&ColorMode::Always, false));
    assert!(!use_colors(&ColorMode::Never, true));
    assert!(use_colors(&ColorMode::Auto, true));
    assert!(!use_colors(&ColorMode::Auto, false));
}

#[test]
fn provenance_is_metadata_only() {
    let pair = EnvPair { name: "PORT".to_string(), value: "7000".to_string() };
    assert_eq!(pair.name, "PORT");
    assert_ne!(Provenance::CommandLine, Provenance::Environment);
}
