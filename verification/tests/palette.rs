use cce_designer::command::{fuzzy_rank, pattern};

/// Fuzzy ranking is the plugin's fuzzyfinder, deliberately: shortest
/// contiguous span, then earliest start, then alphabetical.
#[test]
fn test_fuzzy_ranking_matches_the_plugins_order() {
    let items = ["Show Grid", "Show Spreadsheet Pane", "Save As", "Set As Default"];

    // Subsequence, not substring.
    let r = fuzzy_rank("sg", &items);
    assert_eq!(items[r[0]], "Show Grid", "sg did not rank Show Grid first: {r:?}");

    // The tightest span wins over the earliest start: "sa" spans 2 in
    // "Save As" (Sa) and more in the others.
    let r = fuzzy_rank("sa", &items);
    assert_eq!(items[r[0]], "Save As");

    // No match at all drops out rather than ranking last.
    assert!(fuzzy_rank("zzz", &items).is_empty());

    // An empty query is every item in registry order, which is what makes
    // the palette usable as a plain list.
    assert_eq!(fuzzy_rank("", &items), vec![0, 1, 2, 3]);

    // Case and spaces in the query are ignored.
    assert_eq!(fuzzy_rank("S G", &items), fuzzy_rank("sg", &items));
}

#[test]
fn ties_break_by_start_then_alphabetically_then_position() {
    // "ab" spans 2 in each; starts 0, 1, 0, 0.
    let items = ["xab", "abz", "aby", "abz"];
    assert_eq!(fuzzy_rank("ab", &items), vec![2, 1, 3, 0]);
    assert_eq!(fuzzy_rank("AB", &items), vec![2, 1, 3, 0]);
    // The span is the tightest window, not the first one: "a..b" then "ab".
    let items = ["a__b", "xxab"];
    assert_eq!(fuzzy_rank("ab", &items), vec![1, 0]);
    let items = ["a__bab"];
    assert_eq!(fuzzy_rank("ab", &items), vec![0]);
}

#[test]
fn the_pattern_drops_space_and_folds_case() {
    assert_eq!(pattern(" S\tG "), vec!['s', 'g']);
    assert_eq!(pattern("ÄB"), vec!['Ä', 'b']);
    assert!(pattern("   ").is_empty());
    assert_eq!(fuzzy_rank("  ", &["a", "b"]), vec![0, 1]);
}
