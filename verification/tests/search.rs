use arch_package_tui::search::{fuzzy_score, parse_packages};

#[test]
fn app_parse_packages_handles_commas_spaces_and_filters_invalid_chars() {
    let parsed = parse_packages(" fastfetch,btop   nvtop@1   !!bad!! ");
    assert_eq!(parsed, vec!["fastfetch", "btop", "nvtop@1", "bad"]);
}

#[test]
fn search_parse_packages_handles_commas_spaces_and_filters_invalid_chars() {
    let parsed = parse_packages(" fastfetch,btop   nvtop@1   !!bad!! ");
    assert_eq!(parsed, vec!["fastfetch", "btop", "nvtop@1", "bad"]);
}

#[test]
fn parse_packages_of_blank_input_is_empty() {
    assert!(parse_packages("  , ,\t ").is_empty());
    assert!(parse_packages("").is_empty());
}

#[test]
fn parse_packages_drops_fields_left_empty() {
    assert_eq!(parse_packages("!!!, ok"), vec!["ok"]);
}

#[test]
fn fuzzy_score_rewards_consecutive_hits() {
    // b at 0: 10 + 6 - 0 = 16; t at 1: 10 + 12 - 1 = 21; bonus 100
    assert_eq!(fuzzy_score("btop", "bt"), Some(137));
    // b at 0: 16; p at 3 after a gap: 10 + 6 - 3 = 13; bonus 100
    assert_eq!(fuzzy_score("btop", "bp"), Some(129));
}

#[test]
fn fuzzy_score_of_empty_query_is_zero() {
    assert_eq!(fuzzy_score("anything", ""), Some(0));
}

#[test]
fn fuzzy_score_without_subsequence_is_none() {
    assert_eq!(fuzzy_score("btop", "x"), None);
    assert_eq!(fuzzy_score("btop", "pb"), None);
    assert_eq!(fuzzy_score("", "a"), None);
}

#[test]
fn parsed_names_joined_by_commas_parse_back() {
    for input in [" fastfetch,btop   nvtop@1   !!bad!! ", "a,,b", "", "x y,x"] {
        let first = parse_packages(input);
        assert_eq!(parse_packages(&first.join(",")), first);
    }
}
