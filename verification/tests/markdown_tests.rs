use typeahead::markdown::compute_heading_levels_outside_code_fences;
use typeahead::markdown::escape_ordered_markers_outside_code_fences;
use typeahead::markdown::replace_unordered_markers_outside_code_fences;
use typeahead::markdown::safe_slice;

#[test]
fn bullets_replace_unordered_markers_outside_fences() {
    let src = "- one\n  - two\n    - three";
    let out = replace_unordered_markers_outside_code_fences(src);
    assert_eq!(out, "• one\n  • two\n    • three");
}

#[test]
fn bullets_not_replaced_inside_fences() {
    let src = "```\n- not a list\n```\n- real list";
    let out = replace_unordered_markers_outside_code_fences(src);
    assert_eq!(out, "```\n- not a list\n```\n• real list");
}

#[test]
fn bullets_are_replaced_even_with_indentation_outside_fences() {
    let src = "    - nested item\n- real item";
    let out = replace_unordered_markers_outside_code_fences(src);
    assert_eq!(out, "    • nested item\n• real item");
}

#[test]
fn escape_ordered_markers_outside_fences_basic() {
    let src = "1. first\n2. second";
    let out = escape_ordered_markers_outside_code_fences(src);
    assert_eq!(out, "1\\. first\n2\\. second");
}

#[test]
fn escape_ordered_markers_preserves_indentation() {
    let src = "  10. ten\n    3. three";
    let out = escape_ordered_markers_outside_code_fences(src);
    assert_eq!(out, "  10\\. ten\n    3\\. three");
}

#[test]
fn do_not_escape_inside_code_fences() {
    let src = "```\n1. not list\n```\n1. real list";
    let out = escape_ordered_markers_outside_code_fences(src);
    assert_eq!(out, "```\n1. not list\n```\n1\\. real list");
}

#[test]
fn star_marker_becomes_bullet() {
    let out = replace_unordered_markers_outside_code_fences("* item\n+ item");
    assert_eq!(out, "• item\n• item");
}

#[test]
fn text_without_markers_is_unchanged() {
    let src = "plain text\nno markers here";
    assert_eq!(replace_unordered_markers_outside_code_fences(src), src);
    assert_eq!(escape_ordered_markers_outside_code_fences(src), src);
}

#[test]
fn ordered_marker_needs_space_after_dot() {
    let src = "1.first\n2 . second\n3.";
    assert_eq!(escape_ordered_markers_outside_code_fences(src), src);
}

#[test]
fn heading_levels_found_outside_fences() {
    let src = "# one\nplain\n## two\n```\n# fenced\n```\n###### six\n####### seven";
    let levels = compute_heading_levels_outside_code_fences(src);
    assert_eq!(
        levels,
        vec![Some(1), None, Some(2), None, None, None, Some(6), None]
    );
}

#[test]
fn heading_needs_space_after_hashes() {
    let levels = compute_heading_levels_outside_code_fences("#nospace\n# yes");
    assert_eq!(levels, vec![None, Some(1)]);
}

#[test]
fn untouched_text_keeps_trailing_newline() {
    assert_eq!(replace_unordered_markers_outside_code_fences("plain\n"), "plain\n");
    assert_eq!(escape_ordered_markers_outside_code_fences("plain\n"), "plain\n");
}

#[test]
fn rewritten_text_is_rebuilt_from_lines() {
    // Once a marker is rewritten the text is rebuilt line by line, so a
    // trailing newline does not survive.
    assert_eq!(replace_unordered_markers_outside_code_fences("- a\nplain\n"), "• a\nplain");
    assert_eq!(escape_ordered_markers_outside_code_fences("1. a\nplain\n"), "1\\. a\nplain");
}

#[test]
fn safe_slice_plain_ascii() {
    assert_eq!(safe_slice("hello", 1, 4), "ell");
    assert_eq!(safe_slice("hello", 0, 5), "hello");
}

#[test]
fn safe_slice_clamps_out_of_range() {
    assert_eq!(safe_slice("hello", 3, 99), "lo");
    assert_eq!(safe_slice("hello", 99, 100), "");
    assert_eq!(safe_slice("hello", 4, 2), "");
    assert_eq!(safe_slice("", 0, 3), "");
}

#[test]
fn safe_slice_realigns_to_char_boundaries() {
    // '•' is three bytes long, at bytes 0..3.
    let s = "•ab";
    assert_eq!(safe_slice(s, 0, 3), "•");
    // Start inside the bullet: realigned forward past it.
    assert_eq!(safe_slice(s, 1, 4), "a");
    // End inside the bullet: realigned backward to the start.
    assert_eq!(safe_slice(s, 0, 2), "");
    assert_eq!(safe_slice(s, 0, 4), "•a");
}

#[test]
fn bullet_replacement_keeps_fence_state_across_lines() {
    let src = "```\n- a\n- b\n```\n- c\n```\n- d";
    let out = replace_unordered_markers_outside_code_fences(src);
    assert_eq!(out, "```\n- a\n- b\n```\n• c\n```\n- d");
}
