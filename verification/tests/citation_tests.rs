use typeahead::citations::FileOpener;
use typeahead::citations::rewrite_file_citations;

#[test]
fn citation_is_rewritten_with_absolute_path() {
    let markdown = "See 【F:/src/main.rs†L42-L50】 for details.";
    let result = rewrite_file_citations(markdown, FileOpener::VsCode, "/workspace");

    assert_eq!(
        "See [/src/main.rs:42](vscode://file/src/main.rs:42)  for details.",
        result
    );
}

#[test]
fn citation_is_rewritten_with_relative_path() {
    let markdown = "Refer to 【F:lib/mod.rs†L5】 here.";
    let result = rewrite_file_citations(markdown, FileOpener::Windsurf, "/home/user/project");

    assert_eq!(
        "Refer to [lib/mod.rs:5](windsurf://file/home/user/project/lib/mod.rs:5)  here.",
        result
    );
}

#[test]
fn citation_followed_by_space_so_they_do_not_run_together() {
    let markdown = "References on lines 【F:src/foo.rs†L24】【F:src/foo.rs†L42】";
    let result = rewrite_file_citations(markdown, FileOpener::VsCode, "/home/user/project");

    assert_eq!(
        "References on lines [src/foo.rs:24](vscode://file/home/user/project/src/foo.rs:24) [src/foo.rs:42](vscode://file/home/user/project/src/foo.rs:42) ",
        result
    );
}

#[test]
fn citation_unchanged_without_file_opener() {
    let markdown = "Look at 【F:file.rs†L1】.";
    let unchanged = rewrite_file_citations(markdown, FileOpener::NoOpener, "/");
    assert_eq!(markdown, unchanged);
    // With an opener configured, the same text is rewritten.
    let rewritten = rewrite_file_citations(markdown, FileOpener::VsCode, "/");
    assert_ne!(markdown, rewritten);
}

#[test]
fn relative_path_with_dots_is_cleaned() {
    let markdown = "【F:../sibling/x.rs†L7】";
    let result = rewrite_file_citations(markdown, FileOpener::Cursor, "/home/user/project");
    assert_eq!(
        "[../sibling/x.rs:7](cursor://file/home/user/sibling/x.rs:7) ",
        result
    );
}

#[test]
fn malformed_citations_pass_through() {
    let cases = [
        "【F:file.rs†L】",     // no digits
        "【F:file.rs L1】",    // no dagger
        "【F:†L1】",           // empty path
        "【F:file.rs†L1-L】",  // second line number missing
        "【X:file.rs†L1】",    // wrong tag
    ];
    for case in cases {
        assert_eq!(
            rewrite_file_citations(case, FileOpener::VsCode, "/w"),
            case,
            "case: {case}"
        );
    }
}

#[test]
fn second_line_number_is_dropped_from_link() {
    let result = rewrite_file_citations("【F:a.rs†L3-L9】", FileOpener::VsCode, "/w");
    assert_eq!("[a.rs:3](vscode://file/w/a.rs:3) ", result);
}
