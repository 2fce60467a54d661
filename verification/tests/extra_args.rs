use osm_world::extra_args::{
    validate_density_multiplier, validate_extra_args, validate_finite_f32, validate_hour_of_day,
    validate_landmark_detail, validate_nonnegative_f32, validate_normalized_f32,
    validate_positive_f32, validate_positive_f64, validate_positive_usize,
    validate_screenshot_path, validate_visual_preset,
};

fn strings(args: &[&str]) -> Vec<String> {
    args.iter().map(|a| a.to_string()).collect()
}

#[test]
fn validate_extra_args_accepts_known_flag_with_valid_value() {
    let args = vec![
        "--visual-preset".to_string(),
        "showcase".to_string(),
        "--max-uploaded-tiles".to_string(),
        "64".to_string(),
    ];
    validate_extra_args(&args).expect("known flags with valid values should pass");
}

#[test]
fn validate_extra_args_accepts_boolean_switches_without_values() {
    let args = vec![
        "--hide-minimap".to_string(),
        "--debug-shadow-cascades".to_string(),
        "--no-streaming".to_string(),
    ];
    validate_extra_args(&args).expect("boolean switches should pass");
}

#[test]
fn validate_extra_args_rejects_unknown_flag_name() {
    let args = vec!["--dangerous-flag".to_string()];
    let err = validate_extra_args(&args).unwrap_err();
    assert!(
        err.message().contains("unsupported renderer flag"),
        "expected unsupported-flag error, got: {}",
        err.message()
    );
}

#[test]
fn validate_extra_args_rejects_out_of_range_numeric_value() {
    let args = vec!["--max-uploaded-tiles".to_string(), "0".to_string()];
    validate_extra_args(&args).unwrap_err();

    let args = vec!["--time-of-day".to_string(), "25.0".to_string()];
    validate_extra_args(&args).unwrap_err();

    let args = vec!["--vegetation-density".to_string(), "5.0".to_string()];
    validate_extra_args(&args).unwrap_err();
}

#[test]
fn validate_extra_args_rejects_non_numeric_value_for_numeric_flag() {
    let args = vec!["--max-uploaded-mb".to_string(), "not-a-number".to_string()];
    validate_extra_args(&args).unwrap_err();
}

#[test]
fn validate_extra_args_rejects_screenshot_path_with_traversal() {
    let args = vec!["--screenshot".to_string(), "../escape.png".to_string()];
    validate_extra_args(&args).unwrap_err();
}

#[test]
fn validate_extra_args_rejects_unknown_visual_preset_value() {
    let args = vec!["--visual-preset".to_string(), "ultra".to_string()];
    validate_extra_args(&args).unwrap_err();
}

#[test]
fn validate_extra_args_rejects_value_flag_without_value() {
    let args = vec!["--width".to_string()];
    validate_extra_args(&args).unwrap_err();
}

#[test]
fn validate_extra_args_accepts_equals_form() {
    let args = vec!["--width=1280".to_string(), "--height=720".to_string()];
    validate_extra_args(&args).expect("equals-form flags should pass");
}

#[test]
fn validate_extra_args_rejects_negative_width_via_equals_form() {
    let args = vec!["--width=-100".to_string()];
    validate_extra_args(&args).unwrap_err();
}

#[test]
fn extra_args_error_lists_every_rejection_in_order() {
    let err = validate_extra_args(&strings(&[
        "--bogus",
        "--width",
        "0",
        "--hide-minimap=yes",
        "--time-of-day",
    ]))
    .unwrap_err();
    assert_eq!(err.rejected, vec!["--bogus".to_string()]);
    let message = err.message();
    assert!(message.starts_with(
        "unsupported renderer flag(s): --bogus. Allowed flags: --screenshot, --screenshot-delay, "
    ));
    assert!(message.ends_with(
        "; --width: must be a finite positive number; --hide-minimap does not take a value; --time-of-day requires a value"
    ));
}

#[test]
fn extra_args_without_dashes_are_not_flags() {
    // A bare word is neither an allowed flag nor a rejected one.
    validate_extra_args(&strings(&["positional"])).expect("bare words are ignored");
    validate_extra_args(&strings(&[])).expect("no arguments pass");
}

#[test]
fn extra_args_value_messages_match_the_renderer_parsers() {
    let err = validate_extra_args(&strings(&["--max-uploaded-tiles", "x"])).unwrap_err();
    assert_eq!(
        err.message(),
        "--max-uploaded-tiles: invalid integer: invalid digit found in string"
    );
    let err = validate_extra_args(&strings(&["--tile-size", ""])).unwrap_err();
    assert_eq!(
        err.message(),
        "--tile-size: invalid float: cannot parse float from empty string"
    );
    let err = validate_extra_args(&strings(&["--time-of-day=noon"])).unwrap_err();
    assert_eq!(err.message(), "--time-of-day: invalid hour: invalid float literal");
    let err = validate_extra_args(&strings(&["--landmark-detail", "max"])).unwrap_err();
    assert_eq!(
        err.message(),
        "--landmark-detail: must be one of: off, simple, showcase"
    );
    let err = validate_extra_args(&strings(&["--screenshot", ""])).unwrap_err();
    assert_eq!(err.message(), "--screenshot: screenshot path must not be empty");
}

#[test]
fn value_validators_follow_float_rounding() {
    assert!(validate_finite_f32("3.4e38").is_ok());
    assert_eq!(
        validate_finite_f32("3.5e38"),
        Err("must be a finite number".to_string())
    );
    assert_eq!(
        validate_finite_f32("inf"),
        Err("must be a finite number".to_string())
    );
    assert!(validate_nonnegative_f32("-0.0").is_ok());
    assert!(validate_nonnegative_f32("-1e-50").is_ok());
    assert!(validate_nonnegative_f32("-1e-40").is_err());
    assert!(validate_positive_f32("1e-45").is_ok());
    assert!(validate_positive_f32("1e-46").is_err());
    assert!(validate_positive_f64("1e-320").is_ok());
    assert!(validate_positive_f64("0").is_err());
    assert!(validate_normalized_f32("1.00000005").is_ok());
    assert!(validate_normalized_f32("1.0000001").is_err());
    assert!(validate_density_multiplier("3.0000001").is_ok());
    assert!(validate_density_multiplier("3.000001").is_err());
    assert!(validate_hour_of_day("24").is_ok());
    assert!(validate_hour_of_day("24.00001").is_err());
    assert!(validate_hour_of_day("NaN").is_err());
    assert!(validate_positive_usize("12").is_ok());
    assert!(validate_positive_usize("0").is_err());
}

#[test]
fn value_validators_check_names_and_paths() {
    assert!(validate_visual_preset("balanced").is_ok());
    assert!(validate_visual_preset("Balanced").is_err());
    assert!(validate_landmark_detail("simple").is_ok());
    assert!(validate_screenshot_path("shots/frame.png").is_ok());
    assert!(validate_screenshot_path("shots/..frame.png").is_ok());
    assert_eq!(
        validate_screenshot_path("shots/../frame.png"),
        Err("screenshot path must not contain '..'".to_string())
    );
    assert_eq!(
        validate_screenshot_path("a\0b"),
        Err("screenshot path must not contain NUL bytes".to_string())
    );
}

#[test]
fn extra_args_value_flag_consumes_the_next_token() {
    // The token after a value-taking flag is its value, even when it looks
    // like a flag; the value is then checked by that flag's rule.
    validate_extra_args(&strings(&["--visual-preset", "--hide-minimap"])).unwrap_err();
    validate_extra_args(&strings(&["--screenshot", "--bogus", "--hide-minimap"]))
        .expect("the screenshot path is taken as a value");
    // A switch written with a value is refused.
    assert!(validate_extra_args(&strings(&["--no-streaming=true"])).is_err());
}
