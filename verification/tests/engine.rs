//! End-to-end scenarios: schemas parsed against argument vectors and
//! environment snapshots.

use argbind::bind::{route, BoundSet, BoundValue, EnvPair, Provenance};
use argbind::diag::ErrorKind;
use argbind::schema::{ArgKind, ArgumentSpec, Arity, Schema, Subcommand, Validator, ValueType};
use argbind::validate_schema;
use argbind::value::TypedValue;

fn base_arg(id: &str) -> ArgumentSpec {
    ArgumentSpec {
        id: id.to_string(),
        kind: ArgKind::Valued,
        short: None,
        long: None,
        arity: Arity::ZeroOrOne,
        value_type: ValueType::Text,
        default: None,
        env_name: None,
        required: false,
        global: false,
        validator: None,
    }
}

fn flag(id: &str, short: char, long: &str) -> ArgumentSpec {
    let mut a = base_arg(id);
    a.kind = ArgKind::Flag;
    a.short = Some(short);
    a.long = Some(long.to_string());
    a.value_type = ValueType::Truth;
    a
}

fn argv(xs: &[&str]) -> Vec<String> {
    xs.iter().map(|s| s.to_string()).collect()
}

fn env(xs: &[(&str, &str)]) -> Vec<EnvPair> {
    xs.iter()
        .map(|(n, v)| EnvPair { name: n.to_string(), value: v.to_string() })
        .collect()
}

fn single_of(set: &BoundSet, id: &str) -> (TypedValue, Provenance) {
    match set.get(id) {
        Some(BoundValue::Single { value, provenance }) => {
            let v = match value {
                TypedValue::Text(s) => TypedValue::Text(s.clone()),
                TypedValue::Number(n) => TypedValue::Number(*n),
                TypedValue::Truth(b) => TypedValue::Truth(*b),
                TypedValue::PathText(s) => TypedValue::PathText(s.clone()),
                TypedValue::Selection(s) => TypedValue::Selection(s.clone()),
            };
            (v, *provenance)
        }
        other => panic!("expected a single bound value for {}: {:?}", id, other),
    }
}

fn port_schema() -> Schema {
    let mut port = base_arg("port");
    port.long = Some("port".to_string());
    port.value_type = ValueType::Number;
    port.env_name = Some("PORT".to_string());
    port.default = Some("8080".to_string());
    Schema { args: vec![port], subcommands: vec![] }
}

#[test]
fn precedence_command_line_wins() {
    let schema = port_schema();
    assert!(validate_schema(&schema).is_ok());
    let set = route(&schema, &argv(&["--port", "9090"]), &env(&[("PORT", "7000")])).unwrap();
    let (v, p) = single_of(&set, "port");
    assert_eq!(v, TypedValue::Number(9090));
    assert_eq!(p, Provenance::CommandLine);
}

#[test]
fn precedence_environment_over_default() {
    let schema = port_schema();
    let set = route(&schema, &argv(&[]), &env(&[("PORT", "7000")])).unwrap();
    let (v, p) = single_of(&set, "port");
    assert_eq!(v, TypedValue::Number(7000));
    assert_eq!(p, Provenance::Environment);
}

#[test]
fn precedence_default_when_all_else_silent() {
    let schema = port_schema();
    let set = route(&schema, &argv(&[]), &env(&[])).unwrap();
    let (v, p) = single_of(&set, "port");
    assert_eq!(v, TypedValue::Number(8080));
    assert_eq!(p, Provenance::DefaultValue);
}

#[test]
fn repetition_preserves_order() {
    let mut tag = base_arg("tag");
    tag.long = Some("tag".to_string());
    tag.arity = Arity::ZeroOrMore;
    let schema = Schema { args: vec![tag], subcommands: vec![] };
    assert!(validate_schema(&schema).is_ok());
    let set = route(
        &schema,
        &argv(&["--tag", "alpha", "--tag", "beta", "--tag", "alpha"]),
        &env(&[]),
    )
    .unwrap();
    match set.get("tag") {
        Some(BoundValue::Many { values, provenance }) => {
            assert_eq!(*provenance, Provenance::CommandLine);
            assert_eq!(
                values,
                &vec![
                    TypedValue::Text("alpha".to_string()),
                    TypedValue::Text("beta".to_string()),
                    TypedValue::Text("alpha".to_string()),
                ]
            );
        }
        other => panic!("expected repeated values: {:?}", other),
    }
}

#[test]
fn short_cluster_value_greedy() {
    let mut count = base_arg("count");
    count.short = Some('c');
    count.long = Some("count".to_string());
    count.value_type = ValueType::Number;
    let schema = Schema { args: vec![count], subcommands: vec![] };
    let set = route(&schema, &argv(&["-c10"]), &env(&[])).unwrap();
    let (v, _) = single_of(&set, "count");
    assert_eq!(v, TypedValue::Number(10));
}

#[test]
fn short_cluster_booleans_combine() {
    let schema = Schema {
        args: vec![flag("verbose", 'v', "verbose"), flag("dry_run", 'n', "dry-run")],
        subcommands: vec![],
    };
    let set = route(&schema, &argv(&["-vn"]), &env(&[])).unwrap();
    assert_eq!(single_of(&set, "verbose").0, TypedValue::Truth(true));
    assert_eq!(single_of(&set, "dry_run").0, TypedValue::Truth(true));
}

fn jobs_schema() -> Schema {
    let mut jobs = base_arg("jobs");
    jobs.long = Some("jobs".to_string());
    jobs.value_type = ValueType::Number;
    jobs.validator = Some(Validator::IntRange(1, 32));
    Schema { args: vec![jobs], subcommands: vec![] }
}

#[test]
fn range_rejects_below_and_above() {
    for raw in ["0", "33"] {
        let e = route(&jobs_schema(), &argv(&["--jobs", raw]), &env(&[])).unwrap_err();
        assert_eq!(e.kind, ErrorKind::OutOfRange);
        assert_eq!(e.arg_id.as_deref(), Some("jobs"));
        assert_eq!(e.raw.as_deref(), Some(raw));
        assert_eq!(e.message, "must be between 1 and 32");
    }
}

#[test]
fn range_accepts_bounds() {
    for (raw, want) in [("1", 1), ("32", 32)] {
        let set = route(&jobs_schema(), &argv(&["--jobs", raw]), &env(&[])).unwrap();
        assert_eq!(single_of(&set, "jobs").0, TypedValue::Number(want));
    }
}

#[test]
fn subcommand_global_propagation() {
    let mut verbose = flag("verbose", 'v', "verbose");
    verbose.global = true;
    let clean = flag("clean", 'x', "clean");
    let build = Schema { args: vec![clean], subcommands: vec![] };
    let schema = Schema {
        args: vec![verbose],
        subcommands: vec![Subcommand { name: "build".to_string(), schema: build }],
    };
    assert!(validate_schema(&schema).is_ok());
    let set = route(&schema, &argv(&["-v", "build", "--clean"]), &env(&[])).unwrap();
    assert_eq!(set.path, vec!["build".to_string()]);
    assert_eq!(single_of(&set, "verbose").0, TypedValue::Truth(true));
    assert_eq!(single_of(&set, "clean").0, TypedValue::Truth(true));
}

#[test]
fn global_after_subcommand_still_binds() {
    let mut verbose = flag("verbose", 'v', "verbose");
    verbose.global = true;
    let build = Schema { args: vec![], subcommands: vec![] };
    let schema = Schema {
        args: vec![verbose],
        subcommands: vec![Subcommand { name: "build".to_string(), schema: build }],
    };
    let set = route(&schema, &argv(&["build", "-v"]), &env(&[])).unwrap();
    assert_eq!(set.path, vec!["build".to_string()]);
    assert_eq!(single_of(&set, "verbose").0, TypedValue::Truth(true));
}

#[test]
fn end_of_options_literal_dash_v() {
    let verbose = flag("verbose", 'v', "verbose");
    let mut rest = base_arg("rest");
    rest.kind = ArgKind::Positional;
    rest.arity = Arity::ZeroOrMore;
    let schema = Schema { args: vec![verbose, rest], subcommands: vec![] };
    let set = route(&schema, &argv(&["--", "-v"]), &env(&[])).unwrap();
    assert!(matches!(set.get("verbose"), Some(BoundValue::Absent)));
    match set.get("rest") {
        Some(BoundValue::Many { values, .. }) => {
            assert_eq!(values, &vec![TypedValue::Text("-v".to_string())]);
        }
        other => panic!("expected the literal positional: {:?}", other),
    }
}

#[test]
fn required_field_gap() {
    let mut key = base_arg("api_key");
    key.long = Some("api-key".to_string());
    key.env_name = Some("API_KEY".to_string());
    key.required = true;
    let schema = Schema { args: vec![key], subcommands: vec![] };
    let e = route(&schema, &argv(&[]), &env(&[])).unwrap_err();
    assert_eq!(e.kind, ErrorKind::MissingRequired);
    assert_eq!(e.arg_id.as_deref(), Some("api_key"));
}

#[test]
fn required_satisfied_by_environment() {
    let mut key = base_arg("api_key");
    key.long = Some("api-key".to_string());
    key.env_name = Some("API_KEY".to_string());
    key.required = true;
    let schema = Schema { args: vec![key], subcommands: vec![] };
    let set = route(&schema, &argv(&[]), &env(&[("API_KEY", "sk-42")])).unwrap();
    let (v, p) = single_of(&set, "api_key");
    assert_eq!(v, TypedValue::Text("sk-42".to_string()));
    assert_eq!(p, Provenance::Environment);
}

#[test]
fn unknown_long_argument() {
    let schema = Schema { args: vec![], subcommands: vec![] };
    let e = route(&schema, &argv(&["--nope"]), &env(&[])).unwrap_err();
    assert_eq!(e.kind, ErrorKind::UnknownArgument);
    assert_eq!(e.raw.as_deref(), Some("nope"));
}

#[test]
fn unknown_short_in_cluster() {
    let schema = Schema { args: vec![flag("verbose", 'v', "verbose")], subcommands: vec![] };
    let e = route(&schema, &argv(&["-vz"]), &env(&[])).unwrap_err();
    assert_eq!(e.kind, ErrorKind::UnknownArgument);
    assert_eq!(e.raw.as_deref(), Some("z"));
}

#[test]
fn duplicate_exclusive_rejected() {
    let mut port = base_arg("port");
    port.long = Some("port".to_string());
    port.value_type = ValueType::Number;
    let schema = Schema { args: vec![port], subcommands: vec![] };
    let e = route(&schema, &argv(&["--port", "1", "--port", "2"]), &env(&[])).unwrap_err();
    assert_eq!(e.kind, ErrorKind::DuplicateExclusive);
    assert_eq!(e.arg_id.as_deref(), Some("port"));
}

#[test]
fn ambiguous_subcommand_rejected() {
    let schema = Schema {
        args: vec![],
        subcommands: vec![Subcommand {
            name: "build".to_string(),
            schema: Schema { args: vec![], subcommands: vec![] },
        }],
    };
    let e = route(&schema, &argv(&["deploy"]), &env(&[])).unwrap_err();
    assert_eq!(e.kind, ErrorKind::AmbiguousSubcommand);
    assert_eq!(e.raw.as_deref(), Some("deploy"));
}

#[test]
fn missing_value_at_end() {
    let mut port = base_arg("port");
    port.long = Some("port".to_string());
    port.value_type = ValueType::Number;
    let schema = Schema { args: vec![port], subcommands: vec![] };
    let e = route(&schema, &argv(&["--port"]), &env(&[])).unwrap_err();
    assert_eq!(e.kind, ErrorKind::TypeMismatch);
    assert_eq!(e.arg_id.as_deref(), Some("port"));
    assert_eq!(e.message, "is missing a value");
}

#[test]
fn inline_long_value() {
    let schema = port_schema();
    let set = route(&schema, &argv(&["--port=6061"]), &env(&[])).unwrap();
    assert_eq!(single_of(&set, "port").0, TypedValue::Number(6061));
}

#[test]
fn positionals_fill_in_declaration_order() {
    let mut src = base_arg("source");
    src.kind = ArgKind::Positional;
    src.arity = Arity::ExactlyOne;
    src.required = true;
    let mut rest = base_arg("extras");
    rest.kind = ArgKind::Positional;
    rest.arity = Arity::ZeroOrMore;
    let schema = Schema { args: vec![src, rest], subcommands: vec![] };
    assert!(validate_schema(&schema).is_ok());
    let set = route(&schema, &argv(&["in.txt", "a", "b"]), &env(&[])).unwrap();
    assert_eq!(single_of(&set, "source").0, TypedValue::Text("in.txt".to_string()));
    match set.get("extras") {
        Some(BoundValue::Many { values, .. }) => {
            assert_eq!(
                values,
                &vec![TypedValue::Text("a".to_string()), TypedValue::Text("b".to_string())]
            );
        }
        other => panic!("expected the remaining positionals: {:?}", other),
    }
}

#[test]
fn extra_positional_is_an_error() {
    let schema = Schema { args: vec![], subcommands: vec![] };
    let e = route(&schema, &argv(&["stray"]), &env(&[])).unwrap_err();
    assert_eq!(e.kind, ErrorKind::UnknownArgument);
    assert_eq!(e.raw.as_deref(), Some("stray"));
}

#[test]
fn selection_binds_choice() {
    let mut format = base_arg("format");
    format.long = Some("format".to_string());
    format.value_type = ValueType::Selection(vec![
        "json".to_string(),
        "yaml".to_string(),
        "toml".to_string(),
    ]);
    format.default = Some("json".to_string());
    let schema = Schema { args: vec![format], subcommands: vec![] };
    let set = route(&schema, &argv(&["--format", "yaml"]), &env(&[])).unwrap();
    assert_eq!(single_of(&set, "format").0, TypedValue::Selection("yaml".to_string()));
    let set = route(&schema, &argv(&[]), &env(&[])).unwrap();
    assert_eq!(single_of(&set, "format").0, TypedValue::Selection("json".to_string()));
    let e = route(&schema, &argv(&["--format", "xml"]), &env(&[])).unwrap_err();
    assert_eq!(e.kind, ErrorKind::TypeMismatch);
    assert_eq!(e.message, "is not one of: json, yaml, toml");
}

#[test]
fn flag_env_fallback_coerces_boolean() {
    let mut debug = flag("debug", 'd', "debug");
    debug.env_name = Some("DEBUG".to_string());
    let schema = Schema { args: vec![debug], subcommands: vec![] };
    let set = route(&schema, &argv(&[]), &env(&[("DEBUG", "1")])).unwrap();
    let (v, p) = single_of(&set, "debug");
    assert_eq!(v, TypedValue::Truth(true));
    assert_eq!(p, Provenance::Environment);
    let e = route(&schema, &argv(&[]), &env(&[("DEBUG", "yes")])).unwrap_err();
    assert_eq!(e.kind, ErrorKind::TypeMismatch);
}

#[test]
fn absent_optional_argument() {
    let mut out = base_arg("output");
    out.long = Some("output".to_string());
    let schema = Schema { args: vec![out], subcommands: vec![] };
    let set = route(&schema, &argv(&[]), &env(&[])).unwrap();
    assert!(matches!(set.get("output"), Some(BoundValue::Absent)));
    assert!(set.get("missing_id").is_none());
}

#[test]
fn nested_subcommands_resolve_path() {
    let mut url = base_arg("url");
    url.long = Some("url".to_string());
    url.required = true;
    let database = Schema { args: vec![url], subcommands: vec![] };
    let deploy = Schema {
        args: vec![],
        subcommands: vec![Subcommand { name: "database".to_string(), schema: database }],
    };
    let schema = Schema {
        args: vec![],
        subcommands: vec![Subcommand { name: "deploy".to_string(), schema: deploy }],
    };
    let set = route(
        &schema,
        &argv(&["deploy", "database", "--url", "postgres://localhost/mydb"]),
        &env(&[]),
    )
    .unwrap();
    assert_eq!(set.path, vec!["deploy".to_string(), "database".to_string()]);
    assert_eq!(
        single_of(&set, "url").0,
        TypedValue::Text("postgres://localhost/mydb".to_string())
    );
}

#[test]
fn short_flag_takes_next_token_value() {
    let mut count = base_arg("count");
    count.short = Some('c');
    count.value_type = ValueType::Number;
    let schema = Schema { args: vec![count], subcommands: vec![] };
    let set = route(&schema, &argv(&["-c", "10"]), &env(&[])).unwrap();
    assert_eq!(single_of(&set, "count").0, TypedValue::Number(10));
}

#[test]
fn short_flag_equals_value() {
    let mut count = base_arg("count");
    count.short = Some('c');
    count.value_type = ValueType::Number;
    let schema = Schema { args: vec![count], subcommands: vec![] };
    let set = route(&schema, &argv(&["-c=10"]), &env(&[])).unwrap();
    assert_eq!(single_of(&set, "count").0, TypedValue::Number(10));
}

#[test]
fn empty_argv_on_empty_schema() {
    let schema = Schema { args: vec![], subcommands: vec![] };
    let set = route(&schema, &argv(&[]), &env(&[])).unwrap();
    assert!(set.entries.is_empty());
    assert!(set.path.is_empty());
}

#[test]
fn repeatable_short_keeps_order_with_values() {
    let mut tag = base_arg("tag");
    tag.short = Some('t');
    tag.long = Some("tag".to_string());
    tag.arity = Arity::OneOrMore;
    let schema = Schema { args: vec![tag], subcommands: vec![] };
    let set = route(&schema, &argv(&["-t", "alpha", "--tag=beta", "-tgamma"]), &env(&[])).unwrap();
    match set.get("tag") {
        Some(BoundValue::Many { values, .. }) => {
            assert_eq!(
                values,
                &vec![
                    TypedValue::Text("alpha".to_string()),
                    TypedValue::Text("beta".to_string()),
                    TypedValue::Text("gamma".to_string()),
                ]
            );
        }
        other => panic!("expected three tags: {:?}", other),
    }
}
