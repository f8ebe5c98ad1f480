use lilgrep::{get_case_sensitivities_from_arg, Config};

#[test]
fn get_positive_case_sensitivities_cs() {
    assert!(get_case_sensitivities_from_arg("-cs"))
}

#[test]
fn get_positive_case_sensitivities_c_s() {
    assert!(get_case_sensitivities_from_arg("-c_s"))
}

#[test]
fn get_positive_case_sensitivities() {
    assert!(get_case_sensitivities_from_arg("case_sensitive"))
}

#[test]
fn get_negative_case_sensitivities() {
    assert!(!get_case_sensitivities_from_arg("random_value"))
}

#[test]
fn build_with_two_args_fails() {
    let args = vec!["prog".to_string(), "q".to_string()];
    let result = Config::build(&args);
    assert!(matches!(result, Err("not enough arguments")));
}

#[test]
fn build_with_cs_flag_is_case_sensitive() {
    let args = vec![
        "prog".to_string(),
        "q".to_string(),
        "path".to_string(),
        "-cs".to_string(),
    ];
    let config = Config::build(&args).unwrap();
    assert_eq!(config.query, "q");
    assert_eq!(config.file_path, "path");
    assert!(config.case_sensitive);
}

#[test]
fn build_with_unrecognized_flag_is_case_insensitive() {
    let args = vec![
        "prog".to_string(),
        "q".to_string(),
        "path".to_string(),
        "random".to_string(),
    ];
    let config = Config::build(&args).unwrap();
    assert!(!config.case_sensitive);
}

#[test]
fn build_without_flag_is_case_insensitive() {
    let args = vec!["prog".to_string(), "q".to_string(), "path".to_string()];
    let config = Config::build(&args).unwrap();
    assert_eq!(config.query, "q");
    assert_eq!(config.file_path, "path");
    assert!(!config.case_sensitive);
}

#[test]
fn build_ignores_arguments_beyond_the_fourth() {
    let args = vec![
        "prog".to_string(),
        "q".to_string(),
        "path".to_string(),
        "-c_s".to_string(),
        "extra".to_string(),
    ];
    let config = Config::build(&args).unwrap();
    assert!(config.case_sensitive);
}
