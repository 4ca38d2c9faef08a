use minigrep::{Config, MatchMode, USAGE_ERROR};

fn args(items: &[&str]) -> Vec<String> {
    items.iter().map(|s| s.to_string()).collect()
}

#[test]
fn two_arguments_make_a_config() {
    let config = Config::new(&args(&["minigrep", "needle", "poem.txt"]), false).unwrap();
    assert_eq!(config.query, "needle");
    assert_eq!(config.filename, "poem.txt");
    assert!(config.case_insensitive);
    assert_eq!(config.mode(), MatchMode::CaseInsensitive);
}

#[test]
fn toggle_forces_exact_case() {
    let config = Config::new(&args(&["minigrep", "needle", "poem.txt"]), true).unwrap();
    assert!(!config.case_insensitive);
    assert_eq!(config.mode(), MatchMode::CaseSensitive);
}

#[test]
fn too_few_arguments_are_refused() {
    let result = Config::new(&args(&["minigrep", "needle"]), false);
    assert_eq!(result.err(), Some(USAGE_ERROR));
    assert_eq!(USAGE_ERROR, "more or fewer than two arguments");
}

#[test]
fn too_many_arguments_are_refused() {
    let result = Config::new(&args(&["minigrep", "a", "b", "c"]), false);
    assert!(result.is_err());
    assert!(Config::new(&[], false).is_err());
}
