use chuhshell::fuzzy::score;

#[test]
fn matches_subsequences_and_rejects_missing_characters() {
    assert!(score("Visual Studio Code", "vsc").is_some());
    assert!(score("Firefox", "xyz").is_none());
    assert!(score("Firefox", "").is_some());
}

#[test]
fn prefers_contiguous_and_word_boundary_matches() {
    let contiguous = score("Code", "code").expect("contiguous match");
    let scattered = score("Creative Outline Document Editor", "code").expect("scattered match");
    assert!(contiguous > scattered);
}

#[test]
fn is_case_insensitive_and_trims_query() {
    assert_eq!(score("Firefox", "FIREFOX"), score("firefox", "firefox"));
    assert_eq!(score("Firefox", "  fi  "), score("Firefox", "fi"));
}

#[test]
fn score_adds_match_contiguity_and_boundary_bonuses() {
    // "f" at 0: 10 + 7 (start); "i" at 1: 10 + 9 (next to the previous match).
    assert_eq!(score("Firefox", "fi"), Some(36));
    // "b" at 2 follows a space: 10 + 7 and no position penalty.
    assert_eq!(score("a b", "b"), Some(17));
    // "b" at 2 follows a letter: 10 only.
    assert_eq!(score("aab", "b"), Some(10));
    // Position penalty: 6 characters in costs one point.
    assert_eq!(score("abcdefg", "g"), Some(9));
}

#[test]
fn empty_query_after_trimming_matches_everything() {
    assert_eq!(score("anything", "   "), Some(0));
    assert_eq!(score("", ""), Some(0));
    assert_eq!(score("", "a"), None);
}
