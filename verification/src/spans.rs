//! Finding and cutting out the "term" of a rendered list line.
//!
//! A rendered line is a row of styled runs of text. When the line
//! starts with a bullet or an ordered marker followed by a term and a
//! colon, the term is cut out into runs of its own, marked so the
//! renderer can color it; every other character keeps its run's style.
//! The runs' styles are opaque to this module: it decides only where
//! the cuts fall.

use vstd::prelude::*;

use crate::markdown::is_digit;
use crate::markdown::is_line_ws;
use crate::text::copy_range;

verus! {

/// One run of characters sharing a style.
pub struct StyledRun<S> {
    pub text: Vec<char>,
    pub style: S,
}

/// One run of the cut line: its characters, its style, and whether it
/// belongs to the term.
pub struct MarkedRun<S> {
    pub text: Vec<char>,
    pub style: S,
    pub term: bool,
}

/// The characters of a row of runs, in order.
pub open spec fn runs_text<S>(rs: Seq<StyledRun<S>>) -> Seq<char>
    decreases rs.len(),
{
    if rs.len() == 0 {
        Seq::empty()
    } else {
        runs_text(rs.drop_last()) + rs.last().text@
    }
}

/// The style of each character of a row of runs.
pub open spec fn runs_styles<S>(rs: Seq<StyledRun<S>>) -> Seq<S>
    decreases rs.len(),
{
    if rs.len() == 0 {
        Seq::empty()
    } else {
        runs_styles(rs.drop_last()) + Seq::new(rs.last().text@.len(), |i: int| rs.last().style)
    }
}

/// The characters of a cut line, in order.
pub open spec fn marked_text<S>(rs: Seq<MarkedRun<S>>) -> Seq<char>
    decreases rs.len(),
{
    if rs.len() == 0 {
        Seq::empty()
    } else {
        marked_text(rs.drop_last()) + rs.last().text@
    }
}

/// The style of each character of a cut line.
pub open spec fn marked_styles<S>(rs: Seq<MarkedRun<S>>) -> Seq<S>
    decreases rs.len(),
{
    if rs.len() == 0 {
        Seq::empty()
    } else {
        marked_styles(rs.drop_last()) + Seq::new(rs.last().text@.len(), |i: int| rs.last().style)
    }
}

/// The mark of each character of a cut line.
pub open spec fn marked_flags<S>(rs: Seq<MarkedRun<S>>) -> Seq<bool>
    decreases rs.len(),
{
    if rs.len() == 0 {
        Seq::empty()
    } else {
        marked_flags(rs.drop_last()) + Seq::new(rs.last().text@.len(), |i: int| rs.last().term)
    }
}

/// Whether `c` is ASCII whitespace, the set the marker scans skip.
pub open spec fn is_ascii_ws(c: char) -> bool {
    c as u32 == 0x20 || (c as u32 >= 0x09 && c as u32 <= 0x0D)
}

/// Executable test for `is_ascii_ws`.
fn ascii_ws(c: char) -> (r: bool)
    ensures
        r == is_ascii_ws(c),
{
    let u = c as u32;
    u == 0x20 || (u >= 0x09 && u <= 0x0D)
}

/// The length of the run of ASCII whitespace starting at `i`.
pub open spec fn ascii_ws_run(s: Seq<char>, i: int) -> int
    decreases s.len() - i,
{
    if 0 <= i < s.len() && is_ascii_ws(s[i]) {
        1 + ascii_ws_run(s, i + 1)
    } else {
        0
    }
}

/// A scan that stops at the first non-whitespace finds `ascii_ws_run`.
proof fn lemma_ascii_ws_run_is(s: Seq<char>, i: int, k: int)
    requires
        0 <= i <= k <= s.len(),
        forall|j: int| i <= j < k ==> #[trigger] is_ascii_ws(s[j]),
        k < s.len() ==> !is_ascii_ws(s[k]),
    ensures
        ascii_ws_run(s, i) == k - i,
    decreases k - i,
{
    if k > i {
        assert(is_ascii_ws(s[i]));
        lemma_ascii_ws_run_is(s, i + 1, k);
    }
}

/// Find the end of the whitespace run starting at `i`.
fn ws_run_scan(s: &Vec<char>, i: usize) -> (k: usize)
    requires
        i <= s@.len(),
    ensures
        k - i == ascii_ws_run(s@, i as int),
        i <= k <= s@.len(),
{
    let mut k: usize = i;
    while k < s.len() && ascii_ws(s[k])
        invariant
            i <= k <= s@.len(),
            forall|j: int| i <= j < k ==> #[trigger] is_ascii_ws(s@[j]),
        decreases s@.len() - k,
    {
        k = k + 1;
    }
    proof {
        lemma_ascii_ws_run_is(s@, i as int, k as int);
    }
    k
}

/// The length of the run of ASCII digits starting at `i`.
pub open spec fn digit_run(s: Seq<char>, i: int) -> int
    decreases s.len() - i,
{
    if 0 <= i < s.len() && is_digit(s[i]) {
        1 + digit_run(s, i + 1)
    } else {
        0
    }
}

/// A scan that stops at the first non-digit finds `digit_run`.
proof fn lemma_digit_run_is(s: Seq<char>, i: int, k: int)
    requires
        0 <= i <= k <= s.len(),
        forall|j: int| i <= j < k ==> #[trigger] is_digit(s[j]),
        k < s.len() ==> !is_digit(s[k]),
    ensures
        digit_run(s, i) == k - i,
    decreases k - i,
{
    if k > i {
        assert(is_digit(s[i]));
        lemma_digit_run_is(s, i + 1, k);
    }
}

/// Executable test for `is_digit`.
fn digit_ch(c: char) -> (r: bool)
    ensures
        r == is_digit(c),
{
    let u = c as u32;
    u >= 0x30 && u <= 0x39
}

/// Find the end of the digit run starting at `i`.
fn digit_run_scan(s: &Vec<char>, i: usize) -> (k: usize)
    requires
        i <= s@.len(),
    ensures
        k - i == digit_run(s@, i as int),
        i <= k <= s@.len(),
{
    let mut k: usize = i;
    while k < s.len() && digit_ch(s[k])
        invariant
            i <= k <= s@.len(),
            forall|j: int| i <= j < k ==> #[trigger] is_digit(s@[j]),
        decreases s@.len() - k,
    {
        k = k + 1;
    }
    proof {
        lemma_digit_run_is(s@, i as int, k as int);
    }
    k
}

/// The position of the first `:` at or after `i`, unless a line break
/// comes first or the text runs out.
pub open spec fn colon_scan(s: Seq<char>, i: int) -> Option<int>
    decreases s.len() - i,
{
    if i < 0 || i >= s.len() {
        None
    } else if s[i] == ':' {
        Some(i)
    } else if s[i] == '\n' {
        None
    } else {
        colon_scan(s, i + 1)
    }
}

/// A scan that stops at the first `:` or line break finds
/// `colon_scan`.
proof fn lemma_colon_scan_is(s: Seq<char>, i: int, k: int)
    requires
        0 <= i <= k <= s.len(),
        forall|j: int| i <= j < k ==> #[trigger] s[j] != ':' && s[j] != '\n',
    ensures
        k == s.len() ==> colon_scan(s, i) is None,
        k < s.len() && s[k] == ':' ==> colon_scan(s, i) == Some(k),
        k < s.len() && s[k] == '\n' ==> colon_scan(s, i) is None,
    decreases k - i,
{
    if k > i {
        assert(s[i] != ':' && s[i] != '\n');
        lemma_colon_scan_is(s, i + 1, k);
    }
}

/// Find the first `:` at or after `i`, stopping at a line break.
fn colon_scan_exec(s: &Vec<char>, i: usize) -> (r: Option<usize>)
    requires
        i <= s@.len(),
    ensures
        r is None ==> colon_scan(s@, i as int) is None,
        r matches Some(e) ==> colon_scan(s@, i as int) == Some(e as int) && i <= e < s@.len(),
{
    let mut k: usize = i;
    while k < s.len() && s[k] != ':' && s[k] != '\n'
        invariant
            i <= k <= s@.len(),
            forall|j: int| i <= j < k ==> #[trigger] s@[j] != ':' && s@[j] != '\n',
        decreases s@.len() - k,
    {
        k = k + 1;
    }
    proof {
        lemma_colon_scan_is(s@, i as int, k as int);
    }
    if k < s.len() && s[k] == ':' {
        Some(k)
    } else {
        None
    }
}

/// Whether some character in `[a, b)` is not whitespace: a term must
/// have substance to be colored.
pub open spec fn has_non_ws(s: Seq<char>, a: int, b: int) -> bool {
    exists|m: int| a <= m < b && !is_line_ws(#[trigger] s[m])
}

/// Whether some character of `s` between `a` and `b` is not
/// whitespace.
fn non_ws_exec(s: &Vec<char>, a: usize, b: usize) -> (r: bool)
    requires
        a <= b <= s@.len(),
    ensures
        r == has_non_ws(s@, a as int, b as int),
{
    let mut k: usize = a;
    while k < b
        invariant
            a <= k <= b <= s@.len(),
            forall|m: int| a <= m < k ==> is_line_ws(#[trigger] s@[m]),
        decreases b - k,
    {
        let u = s[k] as u32;
        let ws = u == 0x20 || (u >= 0x09 && u <= 0x0D) || u == 0x85 || u == 0xA0 || u == 0x1680
            || (u >= 0x2000 && u <= 0x200A) || u == 0x2028 || u == 0x2029 || u == 0x202F || u
            == 0x205F || u == 0x3000;
        if !ws {
            proof {
                assert(!is_line_ws(s@[k as int]));
            }
            return true;
        }
        k = k + 1;
    }
    false
}

/// The term of a bullet line: after optional whitespace, a bullet,
/// whitespace, then everything up to the first colon — provided a
/// colon comes before any line break and the term is not blank.
pub open spec fn bullet_term_range(full: Seq<char>) -> Option<(int, int)> {
    let i = ascii_ws_run(full, 0);
    if i < full.len() && full[i] == '•' {
        let j = i + 1 + ascii_ws_run(full, i + 1);
        match colon_scan(full, j) {
            Some(e) => {
                if e > j && has_non_ws(full, j, e) {
                    Some((j, e))
                } else {
                    None
                }
            },
            None => None,
        }
    } else {
        None
    }
}

/// The term of an ordered-marker line: after optional whitespace, one
/// or more digits, a dot (escaped or not), at least one space, then
/// everything up to the first colon — provided a colon comes before
/// any line break and the term is not blank.
pub open spec fn ordered_term_range(full: Seq<char>) -> Option<(int, int)> {
    let i = ascii_ws_run(full, 0);
    let j = i + digit_run(full, i);
    if j == i {
        None
    } else {
        let after = if j + 1 < full.len() && full[j] == '\\' && full[j + 1] == '.' {
            Some(j + 2)
        } else if j < full.len() && full[j] == '.' {
            Some(j + 1)
        } else {
            None
        };
        match after {
            Some(am) => {
                let k = am + ascii_ws_run(full, am);
                if k == am {
                    None
                } else {
                    match colon_scan(full, k) {
                        Some(e) => {
                            if e > k && has_non_ws(full, k, e) {
                                Some((k, e))
                            } else {
                                None
                            }
                        },
                        None => None,
                    }
                }
            },
            None => None,
        }
    }
}

/// Appending a run appends its characters, styles and marks.
proof fn lemma_marked_push<S>(rs: Seq<MarkedRun<S>>, r: MarkedRun<S>)
    ensures
        marked_text(rs.push(r)) == marked_text(rs) + r.text@,
        marked_styles(rs.push(r)) == marked_styles(rs) + Seq::new(r.text@.len(), |i: int| r.style),
        marked_flags(rs.push(r)) == marked_flags(rs) + Seq::new(r.text@.len(), |i: int| r.term),
{
    assert(rs.push(r).drop_last() =~= rs);
}

/// The flattened views of the runs at `rs.take(i)`, for loop
/// reasoning.
proof fn lemma_runs_take_step<S>(rs: Seq<StyledRun<S>>, i: int)
    requires
        0 <= i < rs.len(),
    ensures
        runs_text(rs.take(i + 1)) == runs_text(rs.take(i)) + rs[i].text@,
        runs_styles(rs.take(i + 1)) == runs_styles(rs.take(i)) + Seq::new(
            rs[i].text@.len(),
            |m: int| rs[i].style,
        ),
{
    assert(rs.take(i + 1).drop_last() =~= rs.take(i));
    assert(rs.take(i + 1).last() == rs[i]);
}

/// Append one run to a cut line, split at `[c1, c2)`: its characters
/// and style carry over one for one, and exactly the characters inside
/// the split window are marked. Empty pieces are dropped.
fn push_split_run<S: Copy>(out: &mut Vec<MarkedRun<S>>, run: &StyledRun<S>, c1: usize, c2: usize)
    requires
        c1 <= c2 <= run.text@.len(),
    ensures
        marked_text(final(out)@) == marked_text(old(out)@) + run.text@,
        marked_styles(final(out)@) == marked_styles(old(out)@) + Seq::new(
            run.text@.len(),
            |m: int| run.style,
        ),
        marked_flags(final(out)@) == marked_flags(old(out)@) + Seq::new(
            run.text@.len(),
            |m: int| c1 <= m < c2,
        ),
{
    let len = run.text.len();
    if c1 > 0 {
        let piece = MarkedRun { text: copy_range(&run.text, 0, c1), style: run.style, term: false };
        proof {
            lemma_marked_push(out@, piece);
        }
        out.push(piece);
    }
    if c2 > c1 {
        let piece = MarkedRun { text: copy_range(&run.text, c1, c2), style: run.style, term: true };
        proof {
            lemma_marked_push(out@, piece);
        }
        out.push(piece);
    }
    if len > c2 {
        let piece = MarkedRun {
            text: copy_range(&run.text, c2, len),
            style: run.style,
            term: false,
        };
        proof {
            lemma_marked_push(out@, piece);
        }
        out.push(piece);
    }
    proof {
        assert(marked_text(out@) =~= marked_text(old(out)@) + run.text@);
        assert(marked_styles(out@) =~= marked_styles(old(out)@) + Seq::new(
            run.text@.len(),
            |m: int| run.style,
        ));
        assert(marked_flags(out@) =~= marked_flags(old(out)@) + Seq::new(
            run.text@.len(),
            |m: int| c1 <= m < c2,
        ));
    }
}

/// Cut a row of runs at the character range `[a, b)`: every character
/// keeps its position and its style, and is marked exactly when it
/// lies in the range. Runs are split where the range's edges fall
/// inside them; empty pieces are dropped.
fn cut_runs<S: Copy>(runs: Vec<StyledRun<S>>, a: usize, b: usize) -> (out: Vec<MarkedRun<S>>)
    requires
        a <= b,
    ensures
        marked_text(out@) == runs_text(runs@),
        marked_styles(out@) == runs_styles(runs@),
        marked_flags(out@) == Seq::new(runs_text(runs@).len(), |m: int| a <= m < b),
{
    let mut out: Vec<MarkedRun<S>> = Vec::new();
    // How far ahead the range's edges still lie, measured from the
    // current position in the flattened text.
    let mut ra: usize = a;
    let mut rb: usize = b;
    let mut i: usize = 0;
    proof {
        assert(runs@.take(0) =~= Seq::<StyledRun<S>>::empty());
        assert(marked_text(out@) =~= runs_text(runs@.take(0)));
        assert(marked_styles(out@) =~= runs_styles(runs@.take(0)));
        assert(marked_flags(out@) =~= Seq::new(
            runs_text(runs@.take(0)).len(),
            |m: int| a <= m < b,
        ));
    }
    while i < runs.len()
        invariant
            i <= runs@.len(),
            a <= b,
            ra == vstd::math::max(a - runs_text(runs@.take(i as int)).len(), 0),
            rb == vstd::math::max(b - runs_text(runs@.take(i as int)).len(), 0),
            marked_text(out@) == runs_text(runs@.take(i as int)),
            marked_styles(out@) == runs_styles(runs@.take(i as int)),
            marked_flags(out@) == Seq::new(
                runs_text(runs@.take(i as int)).len(),
                |m: int| a <= m < b,
            ),
        decreases runs@.len() - i,
    {
        proof {
            lemma_runs_take_step(runs@, i as int);
        }
        let ghost gpos = runs_text(runs@.take(i as int)).len() as int;
        let run = &runs[i];
        let len = run.text.len();
        // Where the range's edges fall inside this run.
        let c1: usize = if ra < len {
            ra
        } else {
            len
        };
        let c2: usize = if rb < len {
            rb
        } else {
            len
        };
        let ghost flags0 = marked_flags(out@);
        push_split_run(&mut out, run, c1, c2);
        proof {
            assert(marked_text(out@) =~= runs_text(runs@.take(i + 1 as int)));
            assert(marked_styles(out@) =~= runs_styles(runs@.take(i + 1 as int)));
            let target = Seq::new(
                runs_text(runs@.take(i + 1 as int)).len(),
                |m: int| a <= m < b,
            );
            assert forall|m: int| 0 <= m < gpos + len implies marked_flags(out@)[m] == target[m] by {
                if m >= gpos {
                    assert(marked_flags(out@)[m] == (c1 <= m - gpos < c2));
                }
            }
            assert(marked_flags(out@) =~= target);
        }
        ra = if ra > len {
            ra - len
        } else {
            0
        };
        rb = if rb > len {
            rb - len
        } else {
            0
        };
        i = i + 1;
    }
    proof {
        assert(runs@.take(runs@.len() as int) =~= runs@);
    }
    out
}

/// Concatenate the runs' characters.
fn flatten_runs<S: Copy>(runs: &Vec<StyledRun<S>>) -> (full: Vec<char>)
    ensures
        full@ == runs_text(runs@),
{
    let mut full: Vec<char> = Vec::new();
    let mut i: usize = 0;
    proof {
        assert(runs@.take(0) =~= Seq::<StyledRun<S>>::empty());
        assert(full@ =~= runs_text(runs@.take(0)));
    }
    while i < runs.len()
        invariant
            i <= runs@.len(),
            full@ == runs_text(runs@.take(i as int)),
        decreases runs@.len() - i,
    {
        proof {
            lemma_runs_take_step(runs@, i as int);
        }
        full.extend_from_slice(runs[i].text.as_slice());
        i = i + 1;
    }
    proof {
        assert(runs@.take(runs@.len() as int) =~= runs@);
    }
    full
}

/// Wrap the runs unchanged and unmarked.
fn keep_runs<S: Copy>(runs: Vec<StyledRun<S>>) -> (out: Vec<MarkedRun<S>>)
    ensures
        marked_text(out@) == runs_text(runs@),
        marked_styles(out@) == runs_styles(runs@),
        marked_flags(out@) == Seq::new(runs_text(runs@).len(), |m: int| false),
{
    let out = cut_runs(runs, 0, 0);
    proof {
        assert(marked_flags(out@) =~= Seq::new(marked_text(out@).len(), |m: int| false));
    }
    out
}

/// Cut out the term of a bullet line, if the line has one: the
/// characters and their styles are kept as they were, and a character
/// is marked exactly when it belongs to the term.
pub fn mark_bullet_term<S: Copy>(runs: Vec<StyledRun<S>>) -> (out: Vec<MarkedRun<S>>)
    ensures
        marked_text(out@) == runs_text(runs@),
        marked_styles(out@) == runs_styles(runs@),
        ({
            let flags = marked_flags(out@);
            match bullet_term_range(runs_text(runs@)) {
                Some(r) => flags == Seq::new(runs_text(runs@).len(), |m: int| r.0 <= m < r.1),
                None => flags == Seq::new(runs_text(runs@).len(), |m: int| false),
            }
        }),
{
    let full = flatten_runs(&runs);
    let i = ws_run_scan(&full, 0);
    if i < full.len() && full[i] == '•' {
        let j = ws_run_scan(&full, i + 1);
        match colon_scan_exec(&full, j) {
            Some(e) => {
                if e > j && non_ws_exec(&full, j, e) {
                    cut_runs(runs, j, e)
                } else {
                    keep_runs(runs)
                }
            },
            None => keep_runs(runs),
        }
    } else {
        keep_runs(runs)
    }
}

/// Cut out the term of an ordered-marker line, if the line has one:
/// the characters and their styles are kept as they were, and a
/// character is marked exactly when it belongs to the term.
pub fn mark_ordered_term<S: Copy>(runs: Vec<StyledRun<S>>) -> (out: Vec<MarkedRun<S>>)
    ensures
        marked_text(out@) == runs_text(runs@),
        marked_styles(out@) == runs_styles(runs@),
        ({
            let flags = marked_flags(out@);
            match ordered_term_range(runs_text(runs@)) {
                Some(r) => flags == Seq::new(runs_text(runs@).len(), |m: int| r.0 <= m < r.1),
                None => flags == Seq::new(runs_text(runs@).len(), |m: int| false),
            }
        }),
{
    let full = flatten_runs(&runs);
    let i = ws_run_scan(&full, 0);
    let j = digit_run_scan(&full, i);
    if j == i {
        return keep_runs(runs);
    }
    let n = full.len();
    let after: Option<usize> = if n - j > 1 && full[j] == '\\' && full[j + 1] == '.' {
        Some(j + 2)
    } else if j < n && full[j] == '.' {
        Some(j + 1)
    } else {
        None
    };
    match after {
        Some(am) => {
            let k = ws_run_scan(&full, am);
            if k == am {
                return keep_runs(runs);
            }
            match colon_scan_exec(&full, k) {
                Some(e) => {
                    if e > k && non_ws_exec(&full, k, e) {
                        cut_runs(runs, k, e)
                    } else {
                        keep_runs(runs)
                    }
                },
                None => keep_runs(runs),
            }
        },
        None => keep_runs(runs),
    }
}

} // verus!
