use axes::arg_parser::ParsedArgs;
use axes::models::ParameterKind;
use axes::parameters::{
    parse_parameter_modifiers_from_str, parse_parameter_token, ArgResolver, CliInputState,
};

fn to_cli_params(params: &[&str]) -> Vec<String> {
    params.iter().map(|s| s.to_string()).collect()
}

#[test]
fn test_parse_modifiers() {
    let modifiers =
        parse_parameter_modifiers_from_str("required, default='latest', literal").unwrap();
    assert!(modifiers.required);
    assert!(modifiers.literal);
    assert_eq!(modifiers.default_value.as_deref(), Some("latest"));
    assert!(modifiers.alias.is_none());
}

#[test]
fn test_parse_modifiers_with_alias_and_map() {
    let modifiers = parse_parameter_modifiers_from_str("alias = '-t', map='--tag='").unwrap();
    assert!(!modifiers.required);
    assert_eq!(modifiers.alias.as_deref(), Some("-t"));
    assert_eq!(modifiers.map.as_deref(), Some("--tag="));
}

#[test]
fn cli_input_state_flag_takes_the_next_word() {
    let params = to_cli_params(&["pos0", "--named1", "val1", "-s", "--bool-flag", "pos1"]);
    let state = CliInputState::new(&params);

    assert_eq!(state.positional_len(), 1);
    assert_eq!(state.positional_value(0).as_deref(), Some("pos0"));

    assert_eq!(state.named_len(), 3);
    assert_eq!(
        state.named_value("named1").unwrap().as_deref(),
        Some("val1")
    );
    assert_eq!(state.named_value("-s").unwrap(), None);
    // `--bool-flag pos1` has the shape of `--env staging`: the word after a flag
    // is its value (which is why `pos1` is no positional argument above).
    assert_eq!(state.named_value("bool-flag").unwrap().as_deref(), Some("pos1"));
}

#[test]
fn parsed_args_list_the_rest_with_flags_by_name() {
    let args = to_cli_params(&["b", "--z", "1", "a", "--y"]);
    let mut p = ParsedArgs::new(&args);
    assert!(!p.all_consumed());
    assert_eq!(p.consume_remaining(), "b a --y --z 1");
    assert!(p.all_consumed());
    assert_eq!(p.consume_remaining(), "");
    let empty: Vec<String> = vec![];
    assert!(ParsedArgs::new(&empty).all_consumed());
}

#[test]
fn parsed_args_consume_single_arguments() {
    let args = to_cli_params(&["x", "--env", "prod", "-v"]);
    let mut p = ParsedArgs::new(&args);
    assert_eq!(p.get_positional(0), "x");
    assert_eq!(p.get_positional(3), "");
    assert_eq!(p.consume_named_passthrough("env"), "--env prod");
    assert_eq!(p.get_mapped_flag("v", "--verbose"), "--verbose");
    assert!(p.all_consumed());
    assert_eq!(p.consume_remaining(), "");
}

#[test]
fn test_resolver_positional_basic() {
    let defs = [parse_parameter_token("<p::0>", "0").unwrap()];
    let params = to_cli_params(&["hello"]);
    let resolver = ArgResolver::new(&defs, &params, false).unwrap();
    assert_eq!(resolver.get_specific_value("<p::0>").as_deref(), Some("hello"));
}

#[test]
fn test_resolver_positional_required_fail() {
    let defs = [parse_parameter_token("<p::0(required)>", "0(required)").unwrap()];
    let params = to_cli_params(&[]);
    let result = ArgResolver::new(&defs, &params, false);
    assert!(result.is_err());
    assert!(result.unwrap_err().message().contains("is required"));
}

#[test]
fn test_resolver_positional_default() {
    let defs =
        [parse_parameter_token("<p::0(default='world')>", "0(default='world')").unwrap()];
    let params = to_cli_params(&[]);
    let resolver = ArgResolver::new(&defs, &params, false).unwrap();
    assert_eq!(
        resolver.get_specific_value("<p::0(default='world')>").as_deref(),
        Some("world")
    );
}

#[test]
fn test_resolver_named_simple_pass_through() {
    let defs = [parse_parameter_token("<p::verbose>", "verbose").unwrap()];
    let params = to_cli_params(&["--verbose"]);
    let resolver = ArgResolver::new(&defs, &params, false).unwrap();
    assert_eq!(
        resolver.get_specific_value("<p::verbose>").as_deref(),
        Some("--verbose")
    );
}

#[test]
fn test_resolver_named_with_value_pass_through() {
    let defs = [parse_parameter_token("<p::env>", "env").unwrap()];
    let params = to_cli_params(&["--env", "staging"]);
    let resolver = ArgResolver::new(&defs, &params, false).unwrap();
    assert_eq!(
        resolver.get_specific_value("<p::env>").as_deref(),
        Some("--env staging")
    );
}

#[test]
fn test_resolver_named_required_success() {
    let defs = [parse_parameter_token("<p::env(required)>", "env(required)").unwrap()];
    let params = to_cli_params(&["--env", "staging"]);
    let resolver = ArgResolver::new(&defs, &params, false).unwrap();
    assert_eq!(
        resolver.get_specific_value("<p::env(required)>").as_deref(),
        Some("--env staging")
    );
}

#[test]
fn test_resolver_named_required_fail() {
    let defs = [parse_parameter_token("<p::env(required)>", "env(required)").unwrap()];
    let params = to_cli_params(&[]);
    let result = ArgResolver::new(&defs, &params, false);
    assert!(result.is_err());
    assert!(result.unwrap_err().message().contains("Flag '--env' is required"));
}

#[test]
fn test_resolver_named_flag_absent_uses_default() {
    let defs = [
        parse_parameter_token("<p::tag(default='latest')>", "tag(default='latest')").unwrap(),
    ];
    let params = to_cli_params(&[]);
    let resolver = ArgResolver::new(&defs, &params, false).unwrap();
    assert_eq!(
        resolver.get_specific_value("<p::tag(default='latest')>").as_deref(),
        Some("")
    );
}

#[test]
fn test_resolver_named_flag_present_no_value_uses_default() {
    let defs = [
        parse_parameter_token("<p::tag(default='latest')>", "tag(default='latest')").unwrap(),
    ];
    let params = to_cli_params(&["--tag"]);
    let resolver = ArgResolver::new(&defs, &params, false).unwrap();
    assert_eq!(
        resolver.get_specific_value("<p::tag(default='latest')>").as_deref(),
        Some("--tag latest")
    );
}

#[test]
fn test_resolver_named_required_and_default() {
    let defs = [parse_parameter_token(
        "<p::region(required, default='us-east-1')>",
        "region(required, default='us-east-1')",
    )
    .unwrap()];

    let params_fail = to_cli_params(&[]);
    let result_fail = ArgResolver::new(&defs, &params_fail, false);
    assert!(result_fail.is_err());

    let params_succeed = to_cli_params(&["--region"]);
    let resolver = ArgResolver::new(&defs, &params_succeed, false).unwrap();
    assert_eq!(
        resolver
            .get_specific_value("<p::region(required, default='us-east-1')>")
            .as_deref(),
        Some("--region us-east-1")
    );
}

#[test]
fn test_resolver_map_empty_extracts_value() {
    let defs = [parse_parameter_token(
        "<p::tag(map='', default='latest')>",
        "tag(map='', default='latest')",
    )
    .unwrap()];

    let params1 = to_cli_params(&[]);
    let resolver1 = ArgResolver::new(&defs, &params1, false).unwrap();
    assert_eq!(
        resolver1.get_specific_value("<p::tag(map='', default='latest')>").as_deref(),
        Some("latest")
    );

    let params2 = to_cli_params(&["--tag", "v1.2.0"]);
    let resolver2 = ArgResolver::new(&defs, &params2, false).unwrap();
    assert_eq!(
        resolver2.get_specific_value("<p::tag(map='', default='latest')>").as_deref(),
        Some("v1.2.0")
    );
}

#[test]
fn test_resolver_unclaimed_args() {
    let defs = [parse_parameter_token("<p::0>", "0").unwrap()];
    let params = to_cli_params(&["pos0", "pos1", "--flag", "val"]);
    let resolver = ArgResolver::new(&defs, &params, true).unwrap();

    assert_eq!(resolver.get_specific_value("<p::0>").as_deref(), Some("pos0"));
    assert_eq!(resolver.get_generic_values(), &vec!["pos1", "--flag", "val"]);
}

#[test]
fn test_resolver_unclaimed_args_error_when_no_generic_token() {
    let defs = [parse_parameter_token("<p::0>", "0").unwrap()];
    let params = to_cli_params(&["pos0", "pos1"]);
    let result = ArgResolver::new(&defs, &params, false);
    assert!(result.is_err());
    assert!(result.unwrap_err().message().contains("Unexpected arguments"));
}

// --- Additional cases ---

#[test]
fn parameter_token_forms() {
    let d = parse_parameter_token("<params::+7>", "+7").unwrap();
    assert!(matches!(d.kind, ParameterKind::Positional { index: 7 }));
    let d = parse_parameter_token("<x>", "  name  ( literal ) ").unwrap();
    assert!(matches!(&d.kind, ParameterKind::Named { name } if name == "name"));
    assert!(d.modifiers.literal);
    let d = parse_parameter_token("<x>", "(required)").unwrap();
    assert!(matches!(d.kind, ParameterKind::Positional { index } if index == usize::MAX));
    assert!(d.modifiers.required);
    let d = parse_parameter_token("<x>", "99999999999999999999999").unwrap();
    assert!(matches!(&d.kind, ParameterKind::Named { .. }));
}

#[test]
fn parameter_token_invalid_format() {
    let err = parse_parameter_token("<tok>", "a b").unwrap_err();
    assert!(err.message().contains("Invalid parameter format in token: <tok>"));
    let err = parse_parameter_token("<tok>", "a(x)\ny").unwrap_err();
    assert!(err.message().contains("Invalid parameter format"));
}

#[test]
fn modifier_errors() {
    let err = parse_parameter_modifiers_from_str("colour='red'").unwrap_err();
    assert!(err.message().contains("Unknown modifier key: 'colour'"));
    let err = parse_parameter_modifiers_from_str("optional").unwrap_err();
    assert!(err.message().contains("Unknown boolean modifier: 'optional'"));
}

#[test]
fn modifier_values_quoted_and_bare() {
    let m = parse_parameter_modifiers_from_str("default=\"a, b\", map = x y ,alias='-q'").unwrap();
    assert_eq!(m.default_value.as_deref(), Some("a, b"));
    assert_eq!(m.map.as_deref(), Some("x y "));
    assert_eq!(m.alias.as_deref(), Some("-q"));
}

#[test]
fn resolver_conflict_between_flag_and_alias() {
    let defs = [parse_parameter_token("<p::tag(alias='-t')>", "tag(alias='-t')").unwrap()];
    let params = to_cli_params(&["--tag", "a", "-t", "b"]);
    let err = ArgResolver::new(&defs, &params, false).unwrap_err();
    assert!(err.message().contains("Conflict"));
}

#[test]
fn resolver_alias_and_literal_map() {
    let defs = [parse_parameter_token(
        "<p::tag(alias='-t', map='--tag=', literal)>",
        "tag(alias='-t', map='--tag=', literal)",
    )
    .unwrap()];
    let params = to_cli_params(&["-t", "a\"b"]);
    let resolver = ArgResolver::new(&defs, &params, false).unwrap();
    assert_eq!(
        resolver
            .get_specific_value("<p::tag(alias='-t', map='--tag=', literal)>")
            .as_deref(),
        Some("--tag=\"a\\\"b\"")
    );
}

#[test]
fn unconsumed_flags_come_in_key_order() {
    let state = CliInputState::new(&to_cli_params(&["--zeta", "--alpha", "1", "p"]));
    let (parts, had) = state.get_unconsumed_values();
    assert!(had);
    assert_eq!(parts, vec!["p", "--alpha", "1", "--zeta"]);
}
