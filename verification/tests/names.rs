use aco_sync_nas_dirs::name::{
    collapse_runs, collapse_unmarked, mark_word_chars, normalize, replace_dashes, word_char,
};

#[test]
fn normalize_replaces_dash_and_space() {
    assert_eq!(normalize("2023-01", "Site A"), "2023_01_Site_A");
}

#[test]
fn normalize_collapses_runs_to_one_underscore() {
    assert_eq!(normalize("2023-01", "Site--A  B"), "2023_01_Site_A_B");
}

#[test]
fn normalize_gives_the_same_name_every_time() {
    let first = normalize("2024-02", "North / South (east)");
    let second = normalize("2024-02", "North / South (east)");
    assert_eq!(first, second);
    assert_eq!(first, "2024_02_North_South_east_");
}

#[test]
fn normalize_of_empty_project_name_is_degenerate() {
    assert_eq!(normalize("2023-01", ""), "2023_01_");
    assert_eq!(normalize("", ""), "_");
}

#[test]
fn normalize_of_project_name_without_word_characters() {
    assert_eq!(normalize("2023-01", " - / "), "2023_01__");
}

#[test]
fn normalize_does_not_trim_or_change_case() {
    assert_eq!(normalize("2023-01", "  Mixed CASE  "), "2023_01__Mixed_CASE_");
}

#[test]
fn normalize_replaces_every_dash_of_the_phase_number() {
    assert_eq!(normalize("20-23--01-", "x"), "20_23__01__x");
}

#[test]
fn normalize_leaves_other_characters_of_the_phase_number() {
    assert_eq!(normalize("2023 01.a", "x"), "2023 01.a_x");
}

#[test]
fn normalize_keeps_underscores_of_the_project_name() {
    assert_eq!(normalize("1", "a_b__c"), "1_a_b__c");
    assert_eq!(normalize("1", "a _ b"), "1_a___b");
}

#[test]
fn normalize_keeps_letters_and_digits_beyond_ascii() {
    assert_eq!(normalize("2023-01", "Caf\u{e9} \u{4e2d}\u{6587} \u{663}"), "2023_01_Caf\u{e9}_\u{4e2d}\u{6587}_\u{663}");
}

#[test]
fn normalize_replaces_punctuation_beyond_ascii() {
    assert_eq!(normalize("2023-01", "a\u{2014}\u{2014}b\u{a0}c"), "2023_01_a_b_c");
}

#[test]
fn normalized_name_has_no_path_separator() {
    let name = normalize("2023-01", "a/b\\c/../d");
    assert_eq!(name, "2023_01_a_b_c_d");
    assert!(!name.contains('/'));
    assert!(!name.contains('\\'));
}

#[test]
fn replace_dashes_touches_dashes_only() {
    assert_eq!(replace_dashes("a-b c-"), "a_b c_");
    assert_eq!(replace_dashes(""), "");
    assert_eq!(replace_dashes("\u{2014}"), "\u{2014}");
}

#[test]
fn collapse_runs_examples() {
    assert_eq!(collapse_runs("Site A"), "Site_A");
    assert_eq!(collapse_runs("Site--A  B"), "Site_A_B");
    assert_eq!(collapse_runs(""), "");
    assert_eq!(collapse_runs("!!!"), "_");
    assert_eq!(collapse_runs("abc"), "abc");
    assert_eq!(collapse_runs(" a "), "_a_");
}

#[test]
fn collapse_runs_twice_is_collapse_runs_once() {
    let once = collapse_runs("x -- y (z)  _ 9");
    let twice = collapse_runs(&once);
    assert_eq!(once, "x_y_z___9");
    assert_eq!(once, twice);
}

#[test]
fn word_characters() {
    for c in ['a', 'z', 'A', 'Z', '0', '9', '_', '\u{e9}', '\u{4e2d}', '\u{663}'] {
        assert!(word_char(c));
    }
    for c in [' ', '-', '/', '\\', '.', '&', '@', '[', '`', '{', ':', '\u{0}', '\u{7f}', '\u{a0}', '\u{2014}'] {
        assert!(!word_char(c));
    }
}

#[test]
fn marks_tell_word_characters() {
    let chars: Vec<char> = "a-B 9_\u{e9}\u{2014}".chars().collect();
    assert_eq!(
        mark_word_chars(&chars),
        vec![true, false, true, false, true, true, true, false]
    );
    assert_eq!(mark_word_chars(&Vec::new()), Vec::<bool>::new());
}

#[test]
fn collapse_unmarked_goes_by_the_marks() {
    let chars: Vec<char> = "ab\u{3b1}\u{3b2}cd".chars().collect();
    let all = vec![true, true, true, true, true, true];
    assert_eq!(collapse_unmarked(&chars, &all), "ab\u{3b1}\u{3b2}cd");
    let greek_unmarked = vec![true, true, false, false, true, true];
    assert_eq!(collapse_unmarked(&chars, &greek_unmarked), "ab_cd");
    let alternating = vec![false, true, false, true, false, true];
    assert_eq!(collapse_unmarked(&chars, &alternating), "_b_\u{3b2}_d");
    let none = vec![false, false, false, false, false, false];
    assert_eq!(collapse_unmarked(&chars, &none), "_");
}

#[test]
fn collapse_unmarked_counts_a_missing_mark_as_unmarked() {
    let chars: Vec<char> = "abcd".chars().collect();
    assert_eq!(collapse_unmarked(&chars, &vec![true, true]), "ab_");
    assert_eq!(collapse_unmarked(&chars, &Vec::new()), "_");
    assert_eq!(collapse_unmarked(&Vec::new(), &vec![true]), "");
}
