use typeahead::glob::compile;
use typeahead::glob::contains_glob_chars;
use typeahead::walk::GlobSearch;

#[test]
fn single_segment_star_does_not_cross_separators() {
    let m = compile("src/*.rs").unwrap();
    assert!(m.is_match("src/main.rs"));
    assert!(!m.is_match("src/sub/main.rs"));
}

#[test]
fn double_star_crosses_separators() {
    let m = compile("src/**/*.rs").unwrap();
    assert!(m.is_match("src/main.rs"));
    assert!(m.is_match("src/sub/main.rs"));
    assert!(m.is_match("src/a/b/c.rs"));
    assert!(!m.is_match("other/main.rs"));
}

#[test]
fn unterminated_class_does_not_compile() {
    assert!(compile("[").is_none());
    assert!(compile("src/[ab").is_none());
}

#[test]
fn searching_with_no_matcher_yields_nothing() {
    // An uncompilable pattern means the empty match set: no walk opens,
    // and the caller reports no matches without an error.
    assert!(typeahead::walk::begin_glob_search("[", 8).is_none());
    let gs = typeahead::walk::begin_glob_search("src/*.rs", 8).unwrap();
    assert_eq!(gs.into_results().len(), 0);
}

#[test]
fn question_mark_matches_one_non_separator() {
    let m = compile("a?c").unwrap();
    assert!(m.is_match("abc"));
    assert!(!m.is_match("ac"));
    assert!(!m.is_match("a/c"));
    assert!(!m.is_match("abbc"));
}

#[test]
fn character_classes_match_ranges_and_negation() {
    let m = compile("[a-c]x").unwrap();
    assert!(m.is_match("ax"));
    assert!(m.is_match("cx"));
    assert!(!m.is_match("dx"));
    let n = compile("[^a-c]x").unwrap();
    assert!(!n.is_match("ax"));
    assert!(n.is_match("dx"));
    let lit = compile("[ab-]x").unwrap();
    assert!(lit.is_match("-x"));
    assert!(lit.is_match("ax"));
}

#[test]
fn reversed_class_range_does_not_compile() {
    assert!(compile("[z-a]").is_none());
}

#[test]
fn match_is_anchored_to_the_whole_path() {
    let m = compile("main").unwrap();
    assert!(m.is_match("main"));
    assert!(!m.is_match("main.rs"));
    assert!(!m.is_match("src/main"));
}

#[test]
fn trailing_star_gives_prefix_search() {
    let m = compile("ma*").unwrap();
    assert!(m.is_match("main.rs"));
    assert!(m.is_match("ma"));
    assert!(!m.is_match("map/x"));
}

#[test]
fn glob_chars_detected() {
    assert!(contains_glob_chars("*.rs"));
    assert!(contains_glob_chars("a?c"));
    assert!(contains_glob_chars("x[ab]"));
    assert!(!contains_glob_chars("plain/path.rs"));
}

#[test]
fn walk_collects_matches_up_to_limit() {
    let m = compile("*.rs").unwrap();
    let mut gs = GlobSearch::new(m, 2);
    gs.offer("a.rs");
    gs.offer("b.txt");
    gs.offer("c.rs");
    assert!(gs.should_stop());
    let results = gs.into_results();
    let paths: Vec<&str> = results.iter().map(|r| r.path.as_str()).collect();
    assert_eq!(paths, vec!["a.rs", "c.rs"]);
    assert!(results.iter().all(|r| r.score == 0 && r.indices.is_none()));
}

#[test]
fn walk_stops_at_limit() {
    let m = compile("*").unwrap();
    let mut gs = GlobSearch::new(m, 1);
    gs.offer("one");
    assert!(gs.should_stop());
    gs.offer("two");
    let results = gs.into_results();
    assert_eq!(results.len(), 1);
    assert_eq!(results[0].path, "one");
}

#[test]
fn cancellation_mid_walk_freezes_results() {
    let m = compile("*").unwrap();
    let mut gs = GlobSearch::new(m, 10);
    gs.note_checkpoint(false);
    gs.offer("before");
    gs.note_checkpoint(true);
    gs.offer("after");
    gs.note_checkpoint(false);
    gs.offer("later");
    assert!(gs.should_stop());
    let results = gs.into_results();
    assert_eq!(results.len(), 1);
    assert_eq!(results[0].path, "before");
}
