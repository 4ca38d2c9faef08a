use minigrep::{search, search_case_sensitive, search_with_mode, MatchMode};

#[test]
fn case_sensitive() {
    let query = "duct";
    let contents = "\
Rust:
safe, fast, productive.
Pick three.
Duct tape.";

    assert_eq!(vec!["safe, fast, productive."], search(query, contents),);
}

#[test]
fn search_case_insensitive() {
    let query = "caps";
    let contents = "\
Hello,
line has no caps
line has CAPS
mixed CaPs
And this should not match.";

    assert_eq!(
        vec!["line has no caps", "line has CAPS", "mixed CaPs",],
        search_case_sensitive(query, contents),
    );
}

#[test]
fn exact_mode_skips_other_case() {
    let contents = "Rust:\nsafe, fast, productive.\nPick three.\nDuct tape.";
    assert_eq!(
        vec!["safe, fast, productive."],
        search_with_mode("duct", contents, MatchMode::CaseSensitive)
    );
}

#[test]
fn folded_mode_finds_every_case() {
    let contents = "Hello,\nline has no caps\nline has CAPS\nmixed CaPs\nAnd this should not match.";
    assert_eq!(
        vec!["line has no caps", "line has CAPS", "mixed CaPs"],
        search_with_mode("caps", contents, MatchMode::CaseInsensitive)
    );
}

#[test]
fn folded_query_is_lowercased_too() {
    assert_eq!(vec!["some caps here"], search_case_sensitive("CAPS", "some caps here\nnone"));
    assert_eq!(Vec::<&str>::new(), search("CAPS", "some caps here\nnone"));
}

#[test]
fn empty_query_returns_every_line() {
    let contents = "a\nb\nc";
    assert_eq!(vec!["a", "b", "c"], search("", contents));
    assert_eq!(vec!["a", "b", "c"], search_case_sensitive("", contents));
}

#[test]
fn empty_query_keeps_empty_lines() {
    let contents = "one\n\nthree\n";
    assert_eq!(vec!["one", "", "three"], search("", contents));
    assert_eq!(vec!["one", "", "three"], search_case_sensitive("", contents));
}

#[test]
fn absent_query_returns_nothing() {
    let contents = "alpha\nbeta";
    assert!(search("zzz", contents).is_empty());
    assert!(search_case_sensitive("zzz", contents).is_empty());
}

#[test]
fn empty_content_returns_nothing() {
    assert!(search("", "").is_empty());
    assert!(search_case_sensitive("", "").is_empty());
    assert!(search("a", "").is_empty());
    assert!(search_case_sensitive("a", "").is_empty());
}

#[test]
fn searching_twice_gives_the_same_lines() {
    let contents = "Hello,\nline has no caps\nline has CAPS\nmixed CaPs";
    assert_eq!(search("caps", contents), search("caps", contents));
    assert_eq!(
        search_case_sensitive("caps", contents),
        search_case_sensitive("caps", contents)
    );
}

#[test]
fn exact_matches_are_among_folded_matches() {
    let contents = "Rust:\nsafe, fast, productive.\nPick three.\nDuct tape.\nproduct";
    let exact = search("duct", contents);
    let folded = search_case_sensitive("duct", contents);
    assert_eq!(vec!["safe, fast, productive.", "product"], exact);
    assert_eq!(vec!["safe, fast, productive.", "Duct tape.", "product"], folded);
    for line in &exact {
        assert!(folded.contains(line));
    }
}

#[test]
fn final_sigma_breaks_the_superset() {
    // Lowercasing a capital sigma depends on the letters around it, so a
    // line that holds the query exactly need not hold it once lowercased.
    assert_eq!(vec!["ΑΣ"], search("Σ", "ΑΣ"));
    assert!(search_case_sensitive("Σ", "ΑΣ").is_empty());
}

#[test]
fn matched_lines_borrow_from_content() {
    let contents = String::from("first\nsecond line\nthird");
    let found = search("line", &contents);
    assert_eq!(found, vec!["second line"]);
    let start: usize = contents.as_ptr() as usize;
    let at: usize = found[0].as_ptr() as usize;
    assert_eq!(at - start, 6);
}

#[test]
fn carriage_return_stays_in_line() {
    assert_eq!(vec!["a\r"], search("a", "a\r\nb"));
}

#[test]
fn repeated_lines_are_all_kept() {
    assert_eq!(vec!["x", "x"], search("x", "x\ny\nx"));
}

#[test]
fn multibyte_lines_are_matched() {
    assert_eq!(vec!["grüße"], search("ü", "grüße\nhallo\n"));
    assert_eq!(vec!["ÜBER"], search_case_sensitive("über", "ÜBER\nunter"));
}
