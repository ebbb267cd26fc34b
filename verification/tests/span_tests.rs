use typeahead::spans::MarkedRun;
use typeahead::spans::StyledRun;
use typeahead::spans::mark_bullet_term;
use typeahead::spans::mark_ordered_term;

fn run(text: &str, style: u8) -> StyledRun<u8> {
    StyledRun { text: text.chars().collect(), style }
}

fn flat(out: &[MarkedRun<u8>]) -> String {
    out.iter().map(|m| m.text.iter().collect::<String>()).collect()
}

#[test]
fn bullet_term_is_cut_across_runs() {
    let runs = vec![run("• Te", 1), run("rm: rest", 2)];
    let out = mark_bullet_term(runs);
    assert_eq!(flat(&out), "• Term: rest");
    let pieces: Vec<(String, u8, bool)> = out
        .iter()
        .map(|m| (m.text.iter().collect(), m.style, m.term))
        .collect();
    assert_eq!(
        pieces,
        vec![
            ("• ".to_string(), 1, false),
            ("Te".to_string(), 1, true),
            ("rm".to_string(), 2, true),
            (": rest".to_string(), 2, false),
        ]
    );
}

#[test]
fn indented_bullet_term_is_found() {
    let out = mark_bullet_term(vec![run("  • Key: value", 7)]);
    let pieces: Vec<(String, bool)> = out.iter().map(|m| (m.text.iter().collect(), m.term)).collect();
    assert_eq!(
        pieces,
        vec![
            ("  • ".to_string(), false),
            ("Key".to_string(), true),
            (": value".to_string(), false),
        ]
    );
}

#[test]
fn line_without_colon_is_left_alone() {
    let out = mark_bullet_term(vec![run("• no colon here", 1)]);
    assert_eq!(out.len(), 1);
    assert!(!out[0].term);
    assert_eq!(flat(&out), "• no colon here");
}

#[test]
fn blank_term_is_not_marked() {
    let out = mark_bullet_term(vec![run("•   : x", 1)]);
    assert!(out.iter().all(|m| !m.term));
}

#[test]
fn non_bullet_line_is_left_alone() {
    let out = mark_bullet_term(vec![run("plain: text", 1)]);
    assert!(out.iter().all(|m| !m.term));
    assert_eq!(flat(&out), "plain: text");
}

#[test]
fn ordered_term_with_escaped_dot_is_found() {
    let out = mark_ordered_term(vec![run("1\\. Term: rest", 3)]);
    let pieces: Vec<(String, bool)> = out.iter().map(|m| (m.text.iter().collect(), m.term)).collect();
    assert_eq!(
        pieces,
        vec![
            ("1\\. ".to_string(), false),
            ("Term".to_string(), true),
            (": rest".to_string(), false),
        ]
    );
}

#[test]
fn ordered_term_with_plain_dot_is_found() {
    let out = mark_ordered_term(vec![run("12. Name: y", 3)]);
    let pieces: Vec<(String, bool)> = out.iter().map(|m| (m.text.iter().collect(), m.term)).collect();
    assert_eq!(
        pieces,
        vec![
            ("12. ".to_string(), false),
            ("Name".to_string(), true),
            (": y".to_string(), false),
        ]
    );
}

#[test]
fn ordered_marker_needs_space_after_the_dot() {
    let out = mark_ordered_term(vec![run("1.Term: rest", 3)]);
    assert!(out.iter().all(|m| !m.term));
}

#[test]
fn styles_are_preserved_through_the_cut() {
    let runs = vec![run("• a", 1), run("b", 2), run("c: d", 3)];
    let out = mark_bullet_term(runs);
    assert_eq!(flat(&out), "• abc: d");
    // Each character keeps the style of the run it came from.
    let mut by_char: Vec<(char, u8)> = Vec::new();
    for m in &out {
        for c in &m.text {
            by_char.push((*c, m.style));
        }
    }
    assert_eq!(
        by_char,
        vec![('•', 1), (' ', 1), ('a', 1), ('b', 2), ('c', 3), (':', 3), (' ', 3), ('d', 3)]
    );
}
