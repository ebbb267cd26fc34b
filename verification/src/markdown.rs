//! Line-oriented preparation of markdown text for a terminal renderer.
//!
//! Three rewrites run over the text line by line, each leaving fenced
//! code blocks (``` ... ```) alone: unordered list markers become
//! bullets, ordered list markers get their dot escaped so the renderer
//! keeps them inline, and heading levels are computed per line so the
//! rendered lines can be styled afterwards.

use vstd::prelude::*;
use vstd::string::StringSliceAdditionalSpecFns;

use crate::text::chars_clone;
use crate::text::chars_to_string;
use crate::text::join_lines;
use crate::text::lines_view;
use crate::text::spec_lines;
use crate::text::split_lines;
use crate::text::str_to_chars;

verus! {

/// Whether `c` is whitespace for the purpose of finding a line's
/// indentation (the set `str::trim_start` removes).
pub open spec fn is_line_ws(c: char) -> bool {
    ||| c as u32 == 0x20
    ||| (c as u32 >= 0x09 && c as u32 <= 0x0D)
    ||| c as u32 == 0x85
    ||| c as u32 == 0xA0
    ||| c as u32 == 0x1680
    ||| (c as u32 >= 0x2000 && c as u32 <= 0x200A)
    ||| c as u32 == 0x2028
    ||| c as u32 == 0x2029
    ||| c as u32 == 0x202F
    ||| c as u32 == 0x205F
    ||| c as u32 == 0x3000
}

/// Executable test for `is_line_ws`.
fn line_ws(c: char) -> (r: bool)
    ensures
        r == is_line_ws(c),
{
    let u = c as u32;
    u == 0x20 || (u >= 0x09 && u <= 0x0D) || u == 0x85 || u == 0xA0 || u == 0x1680 || (u >= 0x2000
        && u <= 0x200A) || u == 0x2028 || u == 0x2029 || u == 0x202F || u == 0x205F || u == 0x3000
}

/// Whether `c` is an ASCII digit.
pub open spec fn is_digit(c: char) -> bool {
    c as u32 >= 0x30 && c as u32 <= 0x39
}

/// Executable test for `is_digit`.
fn digit(c: char) -> (r: bool)
    ensures
        r == is_digit(c),
{
    let u = c as u32;
    u >= 0x30 && u <= 0x39
}

/// How many bytes the UTF-8 encoding of `c` takes.
pub open spec fn char_len_utf8(c: char) -> int {
    if (c as u32) < 0x80 {
        1
    } else if (c as u32) < 0x800 {
        2
    } else if (c as u32) < 0x10000 {
        3
    } else {
        4
    }
}

/// Executable form of `char_len_utf8`.
fn utf8_len(c: char) -> (n: usize)
    ensures
        n as int == char_len_utf8(c),
{
    let u = c as u32;
    if u < 0x80 {
        1
    } else if u < 0x800 {
        2
    } else if u < 0x10000 {
        3
    } else {
        4
    }
}

/// The number of leading whitespace characters of a line.
pub open spec fn ws_count(l: Seq<char>) -> int
    decreases l.len(),
{
    if l.len() > 0 && is_line_ws(l[0]) {
        1 + ws_count(l.drop_first())
    } else {
        0
    }
}

/// `ws_count` is within bounds, and is exactly the first run of
/// whitespace.
proof fn lemma_ws_count_props(l: Seq<char>)
    ensures
        0 <= ws_count(l) <= l.len(),
        forall|j: int| 0 <= j < ws_count(l) ==> #[trigger] is_line_ws(l[j]),
        ws_count(l) < l.len() ==> !is_line_ws(l[ws_count(l)]),
    decreases l.len(),
{
    if l.len() > 0 && is_line_ws(l[0]) {
        lemma_ws_count_props(l.drop_first());
        assert forall|j: int| 0 <= j < ws_count(l) implies #[trigger] is_line_ws(l[j]) by {
            if j > 0 {
                assert(l.drop_first()[j - 1] == l[j]);
                assert(is_line_ws(l.drop_first()[j - 1]));
            }
        }
    }
}

/// A scan that stops at the first non-whitespace character finds
/// `ws_count`.
proof fn lemma_ws_count_is(l: Seq<char>, k: int)
    requires
        0 <= k <= l.len(),
        forall|j: int| 0 <= j < k ==> #[trigger] is_line_ws(l[j]),
        k < l.len() ==> !is_line_ws(l[k]),
    ensures
        ws_count(l) == k,
    decreases l.len(),
{
    if k == 0 {
    } else {
        assert(is_line_ws(l[0]));
        assert forall|j: int| 0 <= j < k - 1 implies #[trigger] is_line_ws(l.drop_first()[j]) by {
            assert(l.drop_first()[j] == l[j + 1]);
        }
        assert(k - 1 < l.drop_first().len() ==> !is_line_ws(l.drop_first()[k - 1]));
        lemma_ws_count_is(l.drop_first(), k - 1);
    }
}

/// Find the indentation of a line.
fn ws_scan(l: &Vec<char>) -> (k: usize)
    ensures
        k as int == ws_count(l@),
{
    let mut k: usize = 0;
    while k < l.len() && line_ws(l[k])
        invariant
            k <= l@.len(),
            forall|j: int| 0 <= j < k ==> #[trigger] is_line_ws(l@[j]),
        decreases l@.len() - k,
    {
        k = k + 1;
    }
    proof {
        lemma_ws_count_is(l@, k as int);
    }
    k
}

/// The number of leading ASCII digits of a (trimmed) line.
pub open spec fn digit_count(l: Seq<char>) -> int
    decreases l.len(),
{
    if l.len() > 0 && is_digit(l[0]) {
        1 + digit_count(l.drop_first())
    } else {
        0
    }
}

/// A scan that stops at the first non-digit finds `digit_count`.
proof fn lemma_digit_count_is(l: Seq<char>, k: int)
    requires
        0 <= k <= l.len(),
        forall|j: int| 0 <= j < k ==> #[trigger] is_digit(l[j]),
        k < l.len() ==> !is_digit(l[k]),
    ensures
        digit_count(l) == k,
    decreases l.len(),
{
    if k == 0 {
    } else {
        assert(is_digit(l[0]));
        assert forall|j: int| 0 <= j < k - 1 implies #[trigger] is_digit(l.drop_first()[j]) by {
            assert(l.drop_first()[j] == l[j + 1]);
        }
        assert(k - 1 < l.drop_first().len() ==> !is_digit(l.drop_first()[k - 1]));
        lemma_digit_count_is(l.drop_first(), k - 1);
    }
}

/// Count the digits of `l` from position `from` on.
pub(crate) fn digit_scan(l: &Vec<char>, from: usize) -> (j: usize)
    requires
        from <= l@.len(),
    ensures
        j as int == digit_count(l@.skip(from as int)),
        from + j <= l@.len(),
    decreases l@.len() - from,
{
    let mut k: usize = from;
    while k < l.len() && digit(l[k])
        invariant
            from <= k <= l@.len(),
            forall|j: int| from <= j < k ==> #[trigger] is_digit(l@[j]),
        decreases l@.len() - k,
    {
        k = k + 1;
    }
    proof {
        let t = l@.skip(from as int);
        assert forall|j: int| 0 <= j < k - from implies #[trigger] is_digit(t[j]) by {
            assert(t[j] == l@[from + j]);
        }
        if k < l@.len() {
            assert(t[k - from] == l@[k as int]);
        }
        lemma_digit_count_is(t, k - from);
    }
    k - from
}

/// The number of leading `#` characters of a (trimmed) line.
pub open spec fn hash_count(l: Seq<char>) -> int
    decreases l.len(),
{
    if l.len() > 0 && l[0] == '#' {
        1 + hash_count(l.drop_first())
    } else {
        0
    }
}

/// A scan that stops at the first non-`#` finds `hash_count`.
proof fn lemma_hash_count_is(l: Seq<char>, k: int)
    requires
        0 <= k <= l.len(),
        forall|j: int| 0 <= j < k ==> #[trigger] l[j] == '#',
        k < l.len() ==> l[k] != '#',
    ensures
        hash_count(l) == k,
    decreases l.len(),
{
    if k == 0 {
    } else {
        assert(l[0] == '#');
        assert forall|j: int| 0 <= j < k - 1 implies #[trigger] l.drop_first()[j] == '#' by {
            assert(l.drop_first()[j] == l[j + 1]);
        }
        assert(k - 1 < l.drop_first().len() ==> l.drop_first()[k - 1] != '#');
        lemma_hash_count_is(l.drop_first(), k - 1);
    }
}

/// Count the `#` characters of `l` from position `from` on.
fn hash_scan(l: &Vec<char>, from: usize) -> (j: usize)
    requires
        from <= l@.len(),
    ensures
        j as int == hash_count(l@.skip(from as int)),
        from + j <= l@.len(),
{
    let mut k: usize = from;
    while k < l.len() && l[k] == '#'
        invariant
            from <= k <= l@.len(),
            forall|j: int| from <= j < k ==> #[trigger] l@[j] == '#',
        decreases l@.len() - k,
    {
        k = k + 1;
    }
    proof {
        let t = l@.skip(from as int);
        assert forall|j: int| 0 <= j < k - from implies #[trigger] t[j] == '#' by {
            assert(t[j] == l@[from + j]);
        }
        if k < l@.len() {
            assert(t[k - from] == l@[k as int]);
        }
        lemma_hash_count_is(t, k - from);
    }
    k - from
}

/// The total UTF-8 byte length of the first `k` characters of a line.
pub open spec fn bytes_upto(l: Seq<char>, k: int) -> int
    decreases k,
{
    if k <= 0 {
        0
    } else {
        bytes_upto(l, k - 1) + char_len_utf8(l[k - 1])
    }
}

/// Byte counts are never negative.
proof fn lemma_bytes_upto_nonneg(l: Seq<char>, k: int)
    ensures
        bytes_upto(l, k) >= 0,
    decreases k,
{
    if k > 0 {
        lemma_bytes_upto_nonneg(l, k - 1);
    }
}

/// `n` spaces.
pub open spec fn spaces(n: int) -> Seq<char> {
    Seq::new(
        if n >= 0 {
            n as nat
        } else {
            0
        },
        |i: int| ' ',
    )
}

/// Whether a line opens or closes a fenced code block: its trimmed text
/// starts with three backticks.
pub open spec fn is_fence_line(l: Seq<char>) -> bool {
    let t = l.skip(ws_count(l));
    t.len() >= 3 && t[0] == '`' && t[1] == '`' && t[2] == '`'
}

/// Executable test for `is_fence_line`, given the line's indentation.
fn fence_check(l: &Vec<char>, k: usize) -> (r: bool)
    requires
        k as int == ws_count(l@),
        k <= l@.len(),
    ensures
        r == is_fence_line(l@),
{
    proof {
        let t = l@.skip(k as int);
        if l@.len() - k >= 3 {
            assert(t[0] == l@[k as int]);
            assert(t[1] == l@[k + 1]);
            assert(t[2] == l@[k + 2]);
        }
    }
    l.len() - k >= 3 && l[k] == '`' && l[k + 1] == '`' && l[k + 2] == '`'
}

/// Whether the fence state is "inside" after these lines, starting from
/// `f0`: each fence line toggles it.
pub open spec fn fence_after(ls: Seq<Seq<char>>, f0: bool) -> bool
    decreases ls.len(),
{
    if ls.len() == 0 {
        f0
    } else {
        let f = fence_after(ls.drop_last(), f0);
        if is_fence_line(ls.last()) {
            !f
        } else {
            f
        }
    }
}

/// Whether a line carries an unordered list marker: its trimmed text
/// starts with `- `, `* ` or `+ `.
pub open spec fn is_bullet_line(l: Seq<char>) -> bool {
    let t = l.skip(ws_count(l));
    t.len() >= 2 && (t[0] == '-' || t[0] == '*' || t[0] == '+') && t[1] == ' '
}

/// A bullet line, rewritten: one space per indentation byte, a bullet,
/// a space, and the text after the marker.
pub open spec fn bullet_rewrite(l: Seq<char>) -> Seq<char> {
    spaces(bytes_upto(l, ws_count(l))) + seq!['•', ' '] + l.skip(ws_count(l) + 2)
}

/// What one line becomes under the bullet rewrite, given the fence
/// state in front of it.
pub open spec fn bullet_line_out(l: Seq<char>, fence: bool) -> Seq<char> {
    if is_fence_line(l) {
        l
    } else if !fence && is_bullet_line(l) {
        bullet_rewrite(l)
    } else {
        l
    }
}

/// All lines under the bullet rewrite, threading the fence state.
pub open spec fn bullets_lines(ls: Seq<Seq<char>>, f0: bool) -> Seq<Seq<char>>
    decreases ls.len(),
{
    if ls.len() == 0 {
        Seq::empty()
    } else {
        bullets_lines(ls.drop_last(), f0).push(
            bullet_line_out(ls.last(), fence_after(ls.drop_last(), f0)),
        )
    }
}

/// Whether any line takes the bullet rewrite, threading the fence
/// state; when none does, the text passes through untouched.
pub open spec fn bullets_changed(ls: Seq<Seq<char>>, f0: bool) -> bool
    decreases ls.len(),
{
    if ls.len() == 0 {
        false
    } else {
        bullets_changed(ls.drop_last(), f0) || (!is_fence_line(ls.last()) && !fence_after(
            ls.drop_last(),
            f0,
        ) && is_bullet_line(ls.last()))
    }
}

/// The whole bullet transform: split, rewrite outside fences, rejoin;
/// a text without any marker to rewrite stays exactly as it was.
pub open spec fn spec_bullets(s: Seq<char>) -> Seq<char> {
    if bullets_changed(spec_lines(s), false) {
        join_lines(bullets_lines(spec_lines(s), false))
    } else {
        s
    }
}

/// Append the indentation of `l` to `out`, one space per byte.
fn push_indent_spaces(out: &mut Vec<char>, l: &Vec<char>, k: usize)
    requires
        k <= l@.len(),
    ensures
        final(out)@ == old(out)@ + spaces(bytes_upto(l@, k as int)),
{
    let ghost base = out@;
    let mut j: usize = 0;
    proof {
        assert(out@ =~= base + spaces(bytes_upto(l@, 0)));
    }
    while j < k
        invariant
            j <= k,
            k <= l@.len(),
            out@ == base + spaces(bytes_upto(l@, j as int)),
        decreases k - j,
    {
        let n = utf8_len(l[j]);
        let mut m: usize = 0;
        while m < n
            invariant
                m <= n,
                j < k <= l@.len(),
                n as int == char_len_utf8(l@[j as int]),
                out@ == base + spaces(bytes_upto(l@, j as int) + m as int),
            decreases n - m,
        {
            proof {
                lemma_bytes_upto_nonneg(l@, j as int);
                assert(base + spaces(bytes_upto(l@, j as int) + m as int + 1) =~= (base + spaces(
                    bytes_upto(l@, j as int) + m as int,
                )).push(' '));
            }
            out.push(' ');
            m = m + 1;
        }
        j = j + 1;
    }
}

/// Build the rewritten form of a bullet line.
fn bullet_rewrite_exec(l: &Vec<char>, k: usize) -> (r: Vec<char>)
    requires
        k as int == ws_count(l@),
        k + 2 <= l@.len(),
    ensures
        r@ == bullet_rewrite(l@),
{
    let mut r: Vec<char> = Vec::new();
    proof {
        assert(r@ =~= Seq::<char>::empty() + Seq::<char>::empty());
        assert(Seq::<char>::empty() + spaces(bytes_upto(l@, k as int)) =~= spaces(
            bytes_upto(l@, k as int),
        ));
    }
    push_indent_spaces(&mut r, l, k);
    r.push('•');
    r.push(' ');
    let ghost head = spaces(bytes_upto(l@, k as int)) + seq!['•', ' '];
    proof {
        assert(r@ =~= head + l@.subrange(k + 2, k + 2));
    }
    let n = l.len();
    let mut j: usize = k + 2;
    while j < n
        invariant
            n == l@.len(),
            k + 2 <= j <= l@.len(),
            r@ == head + l@.subrange(k + 2, j as int),
        decreases l@.len() - j,
    {
        proof {
            assert(head + l@.subrange(k + 2, j + 1 as int) =~= (head + l@.subrange(
                k + 2,
                j as int,
            )).push(l@[j as int]));
        }
        r.push(l[j]);
        j = j + 1;
    }
    proof {
        assert(l@.subrange(k + 2, l@.len() as int) =~= l@.skip(ws_count(l@) + 2));
        assert(r@ =~= bullet_rewrite(l@));
    }
    r
}

/// Executable test for `is_bullet_line`, given the indentation.
fn bullet_check(l: &Vec<char>, k: usize) -> (r: bool)
    requires
        k as int == ws_count(l@),
        k <= l@.len(),
    ensures
        r == is_bullet_line(l@),
{
    proof {
        let t = l@.skip(k as int);
        if l@.len() - k >= 2 {
            assert(t[0] == l@[k as int]);
            assert(t[1] == l@[k + 1]);
        }
    }
    l.len() - k >= 2 && (l[k] == '-' || l[k] == '*' || l[k] == '+') && l[k + 1] == ' '
}

/// Convert leading unordered list markers (`-`, `*`, `+`) to a bullet,
/// outside fenced code blocks, keeping each line's indentation.
pub fn replace_unordered_markers_outside_code_fences(src: &str) -> (out: String)
    ensures
        out@ == spec_bullets(src@),
{
    let chars = str_to_chars(src);
    let lines = split_lines(&chars);
    let ghost lsv = lines_view(lines@);
    let mut outv: Vec<char> = Vec::new();
    let mut in_fence = false;
    let mut changed = false;
    let mut i: usize = 0;
    proof {
        assert(lsv.take(0) =~= Seq::<Seq<char>>::empty());
        assert(outv@ =~= join_lines(bullets_lines(lsv.take(0), false)));
    }
    while i < lines.len()
        invariant
            i <= lines@.len(),
            lsv == lines_view(lines@),
            lsv == spec_lines(src@),
            outv@ == join_lines(bullets_lines(lsv.take(i as int), false)),
            in_fence == fence_after(lsv.take(i as int), false),
            changed == bullets_changed(lsv.take(i as int), false),
        decreases lines@.len() - i,
    {
        proof {
            assert(lsv.take(i + 1 as int).drop_last() =~= lsv.take(i as int));
            assert(lsv.take(i + 1 as int).last() == lsv[i as int]);
            assert(lsv[i as int] == lines@[i as int]@);
        }
        let l = &lines[i];
        let k = ws_scan(l);
        proof {
            lemma_ws_count_props(l@);
        }
        let is_f = fence_check(l, k);
        let ghost fence_before = in_fence;
        let mut line_out: Vec<char>;
        if is_f {
            in_fence = !in_fence;
            line_out = chars_clone(l);
        } else if !in_fence && bullet_check(l, k) {
            proof {
                assert(l@.skip(k as int).len() == l@.len() - k);
            }
            line_out = bullet_rewrite_exec(l, k);
            changed = true;
        } else {
            line_out = chars_clone(l);
        }
        proof {
            assert(line_out@ == bullet_line_out(lsv[i as int], fence_before));
        }
        let ghost out_prev = bullets_lines(lsv.take(i as int), false);
        if i > 0 {
            outv.push('\n');
        }
        outv.append(&mut line_out);
        proof {
            let stepped = bullets_lines(lsv.take(i + 1 as int), false);
            assert(stepped == out_prev.push(bullet_line_out(lsv[i as int], fence_before)));
            assert(stepped.drop_last() =~= out_prev);
            assert(stepped.last() == bullet_line_out(lsv[i as int], fence_before));
            assert(outv@ =~= join_lines(stepped));
        }
        i = i + 1;
    }
    proof {
        assert(lsv.take(lines@.len() as int) =~= lsv);
    }
    if changed {
        chars_to_string(&outv)
    } else {
        src.to_owned()
    }
}

/// Whether a line carries an ordered list marker: optional indentation,
/// one or more digits, a dot, a space, in its trimmed text.
pub open spec fn is_ordered_line(l: Seq<char>) -> bool {
    let t = l.skip(ws_count(l));
    let j = digit_count(t);
    j > 0 && j + 1 < t.len() && t[j] == '.' && t[j + 1] == ' '
}

/// An ordered-marker line, rewritten: one space per indentation byte,
/// the digits, an escaped dot, and the rest of the line.
pub open spec fn ordered_rewrite(l: Seq<char>) -> Seq<char> {
    let k = ws_count(l);
    let j = digit_count(l.skip(k));
    spaces(bytes_upto(l, k)) + l.subrange(k, k + j) + seq!['\\', '.'] + l.skip(k + j + 1)
}

/// What one line becomes under the ordered-marker escape, given the
/// fence state in front of it.
pub open spec fn ordered_line_out(l: Seq<char>, fence: bool) -> Seq<char> {
    if is_fence_line(l) {
        l
    } else if !fence && is_ordered_line(l) {
        ordered_rewrite(l)
    } else {
        l
    }
}

/// All lines under the ordered-marker escape, threading the fence state.
pub open spec fn ordered_lines(ls: Seq<Seq<char>>, f0: bool) -> Seq<Seq<char>>
    decreases ls.len(),
{
    if ls.len() == 0 {
        Seq::empty()
    } else {
        ordered_lines(ls.drop_last(), f0).push(
            ordered_line_out(ls.last(), fence_after(ls.drop_last(), f0)),
        )
    }
}

/// Whether any line takes the ordered-marker escape, threading the
/// fence state; when none does, the text passes through untouched.
pub open spec fn ordered_changed(ls: Seq<Seq<char>>, f0: bool) -> bool
    decreases ls.len(),
{
    if ls.len() == 0 {
        false
    } else {
        ordered_changed(ls.drop_last(), f0) || (!is_fence_line(ls.last()) && !fence_after(
            ls.drop_last(),
            f0,
        ) && is_ordered_line(ls.last()))
    }
}

/// The whole ordered-marker escape: split, rewrite outside fences,
/// rejoin; a text without any marker to escape stays exactly as it
/// was.
pub open spec fn spec_escape_ordered(s: Seq<char>) -> Seq<char> {
    if ordered_changed(spec_lines(s), false) {
        join_lines(ordered_lines(spec_lines(s), false))
    } else {
        s
    }
}

/// Executable test for `is_ordered_line`, given the indentation and the
/// digit run.
fn ordered_check(l: &Vec<char>, k: usize, j: usize) -> (r: bool)
    requires
        k as int == ws_count(l@),
        k <= l@.len(),
        j as int == digit_count(l@.skip(k as int)),
        k + j <= l@.len(),
    ensures
        r == is_ordered_line(l@),
{
    proof {
        let t = l@.skip(k as int);
        if k + j + 1 < l@.len() {
            assert(t[j as int] == l@[k + j]);
            assert(t[j + 1] == l@[k + j + 1]);
        }
    }
    let n = l.len();
    j > 0 && n - k - j > 1 && l[k + j] == '.' && l[k + j + 1] == ' '
}

/// Build the rewritten form of an ordered-marker line.
fn ordered_rewrite_exec(l: &Vec<char>, k: usize, j: usize) -> (r: Vec<char>)
    requires
        k as int == ws_count(l@),
        j as int == digit_count(l@.skip(k as int)),
        k + j + 1 <= l@.len(),
    ensures
        r@ == ordered_rewrite(l@),
{
    let mut r: Vec<char> = Vec::new();
    proof {
        assert(r@ =~= Seq::<char>::empty() + Seq::<char>::empty());
        assert(Seq::<char>::empty() + spaces(bytes_upto(l@, k as int)) =~= spaces(
            bytes_upto(l@, k as int),
        ));
    }
    push_indent_spaces(&mut r, l, k);
    let ghost sp = spaces(bytes_upto(l@, k as int));
    let n = l.len();
    let mut m: usize = k;
    proof {
        assert(r@ =~= sp + l@.subrange(k as int, k as int));
    }
    while m < k + j
        invariant
            n == l@.len(),
            k <= m <= k + j,
            k + j + 1 <= l@.len(),
            r@ == sp + l@.subrange(k as int, m as int),
        decreases k + j - m,
    {
        proof {
            assert(sp + l@.subrange(k as int, m + 1 as int) =~= (sp + l@.subrange(
                k as int,
                m as int,
            )).push(l@[m as int]));
        }
        r.push(l[m]);
        m = m + 1;
    }
    r.push('\\');
    r.push('.');
    let ghost head = sp + l@.subrange(k as int, k + j) + seq!['\\', '.'];
    proof {
        assert(r@ =~= head + l@.subrange(k + j + 1, k + j + 1));
    }
    let mut q: usize = k + j + 1;
    while q < n
        invariant
            n == l@.len(),
            k + j + 1 <= q <= l@.len(),
            r@ == head + l@.subrange(k + j + 1, q as int),
        decreases l@.len() - q,
    {
        proof {
            assert(head + l@.subrange(k + j + 1, q + 1 as int) =~= (head + l@.subrange(
                k + j + 1,
                q as int,
            )).push(l@[q as int]));
        }
        r.push(l[q]);
        q = q + 1;
    }
    proof {
        assert(l@.subrange(k + j + 1, l@.len() as int) =~= l@.skip(k + j + 1));
        assert(r@ =~= ordered_rewrite(l@));
    }
    r
}

/// Escape ordered list markers (`1. `, `12. `) at the start of lines
/// outside fenced code blocks, so the renderer keeps marker and text on
/// one visual line.
pub fn escape_ordered_markers_outside_code_fences(src: &str) -> (out: String)
    ensures
        out@ == spec_escape_ordered(src@),
{
    let chars = str_to_chars(src);
    let lines = split_lines(&chars);
    let ghost lsv = lines_view(lines@);
    let mut outv: Vec<char> = Vec::new();
    let mut in_fence = false;
    let mut changed = false;
    let mut i: usize = 0;
    proof {
        assert(lsv.take(0) =~= Seq::<Seq<char>>::empty());
        assert(outv@ =~= join_lines(ordered_lines(lsv.take(0), false)));
    }
    while i < lines.len()
        invariant
            i <= lines@.len(),
            lsv == lines_view(lines@),
            lsv == spec_lines(src@),
            outv@ == join_lines(ordered_lines(lsv.take(i as int), false)),
            in_fence == fence_after(lsv.take(i as int), false),
            changed == ordered_changed(lsv.take(i as int), false),
        decreases lines@.len() - i,
    {
        proof {
            assert(lsv.take(i + 1 as int).drop_last() =~= lsv.take(i as int));
            assert(lsv.take(i + 1 as int).last() == lsv[i as int]);
            assert(lsv[i as int] == lines@[i as int]@);
        }
        let l = &lines[i];
        let k = ws_scan(l);
        proof {
            lemma_ws_count_props(l@);
        }
        let is_f = fence_check(l, k);
        let ghost fence_before = in_fence;
        let mut line_out: Vec<char>;
        if is_f {
            in_fence = !in_fence;
            line_out = chars_clone(l);
        } else {
            let j = digit_scan(l, k);
            if !in_fence && ordered_check(l, k, j) {
                proof {
                    assert(l@.skip(k as int).len() == l@.len() - k);
                }
                line_out = ordered_rewrite_exec(l, k, j);
                changed = true;
            } else {
                line_out = chars_clone(l);
            }
        }
        proof {
            assert(line_out@ == ordered_line_out(lsv[i as int], fence_before));
        }
        let ghost out_prev = ordered_lines(lsv.take(i as int), false);
        if i > 0 {
            outv.push('\n');
        }
        outv.append(&mut line_out);
        proof {
            let stepped = ordered_lines(lsv.take(i + 1 as int), false);
            assert(stepped == out_prev.push(ordered_line_out(lsv[i as int], fence_before)));
            assert(stepped.drop_last() =~= out_prev);
            assert(outv@ =~= join_lines(stepped));
        }
        i = i + 1;
    }
    proof {
        assert(lsv.take(lines@.len() as int) =~= lsv);
    }
    if changed {
        chars_to_string(&outv)
    } else {
        src.to_owned()
    }
}

/// The heading level a line announces: one to six `#` characters at the
/// start of its trimmed text, followed by a space.
pub open spec fn heading_of(l: Seq<char>) -> Option<u8> {
    let t = l.skip(ws_count(l));
    let c = hash_count(t);
    if 1 <= c <= 6 && c < t.len() && t[c] == ' ' {
        Some(c as u8)
    } else {
        None
    }
}

/// The heading level recorded for one line, given the fence state in
/// front of it: none for fence lines and inside fences.
pub open spec fn heading_line_out(l: Seq<char>, fence: bool) -> Option<u8> {
    if is_fence_line(l) {
        None
    } else if fence {
        None
    } else {
        heading_of(l)
    }
}

/// The heading levels of all lines, threading the fence state.
pub open spec fn heading_lines(ls: Seq<Seq<char>>, f0: bool) -> Seq<Option<u8>>
    decreases ls.len(),
{
    if ls.len() == 0 {
        Seq::empty()
    } else {
        heading_lines(ls.drop_last(), f0).push(
            heading_line_out(ls.last(), fence_after(ls.drop_last(), f0)),
        )
    }
}

/// Compute the heading level of each source line, ignoring fenced code
/// blocks: entry `i` is the level of line `i`, or nothing.
pub fn compute_heading_levels_outside_code_fences(src: &str) -> (out: Vec<Option<u8>>)
    ensures
        out@ == heading_lines(spec_lines(src@), false),
{
    let chars = str_to_chars(src);
    let lines = split_lines(&chars);
    let ghost lsv = lines_view(lines@);
    let mut out: Vec<Option<u8>> = Vec::new();
    let mut in_fence = false;
    let mut i: usize = 0;
    proof {
        assert(lsv.take(0) =~= Seq::<Seq<char>>::empty());
        assert(out@ =~= heading_lines(lsv.take(0), false));
    }
    while i < lines.len()
        invariant
            i <= lines@.len(),
            lsv == lines_view(lines@),
            lsv == spec_lines(src@),
            out@ == heading_lines(lsv.take(i as int), false),
            in_fence == fence_after(lsv.take(i as int), false),
        decreases lines@.len() - i,
    {
        proof {
            assert(lsv.take(i + 1 as int).drop_last() =~= lsv.take(i as int));
            assert(lsv.take(i + 1 as int).last() == lsv[i as int]);
            assert(lsv[i as int] == lines@[i as int]@);
        }
        let l = &lines[i];
        let k = ws_scan(l);
        proof {
            lemma_ws_count_props(l@);
        }
        let is_f = fence_check(l, k);
        let level: Option<u8>;
        let ghost fence_before = in_fence;
        if is_f {
            in_fence = !in_fence;
            level = None;
        } else if in_fence {
            level = None;
        } else {
            let c = hash_scan(l, k);
            proof {
                let t = l@.skip(k as int);
                if c >= 1 && c <= 6 && k + c < l@.len() {
                    assert(t[c as int] == l@[k + c]);
                }
                assert(t.len() == l@.len() - k);
            }
            if c >= 1 && c <= 6 && l.len() - k > c && l[k + c] == ' ' {
                level = Some(c as u8);
            } else {
                level = None;
            }
        }
        proof {
            assert(level == heading_line_out(lsv[i as int], fence_before));
        }
        out.push(level);
        i = i + 1;
    }
    proof {
        assert(lsv.take(lines@.len() as int) =~= lsv);
    }
    out
}

/// The first character boundary of `b` at or after `i`.
pub open spec fn align_up(b: Seq<u8>, i: int) -> int
    decreases b.len() - i,
{
    if i >= b.len() {
        b.len() as int
    } else if vstd::utf8::is_char_boundary(b, i) {
        i
    } else {
        align_up(b, i + 1)
    }
}

/// The last character boundary of `b` at or before `j`, not before `lo`.
pub open spec fn align_down(b: Seq<u8>, lo: int, j: int) -> int
    decreases j - lo,
{
    if j <= lo {
        j
    } else if vstd::utf8::is_char_boundary(b, j) {
        j
    } else {
        align_down(b, lo, j - 1)
    }
}

/// The bytes that `safe_slice` yields: the requested byte range,
/// clamped to the text and realigned inward to character boundaries,
/// or nothing when the range collapses.
pub open spec fn spec_safe_slice(b: Seq<u8>, start: int, end: int) -> Seq<u8> {
    if b.len() == 0 {
        Seq::empty()
    } else {
        let s0 = if start <= b.len() {
            start
        } else {
            b.len() as int
        };
        let e0 = if end <= b.len() {
            end
        } else {
            b.len() as int
        };
        if s0 >= e0 {
            Seq::empty()
        } else {
            let s1 = align_up(b, s0);
            let e1 = align_down(b, s1, e0);
            if s1 >= e1 {
                Seq::empty()
            } else {
                b.subrange(s1, e1)
            }
        }
    }
}

/// Safely slice a string by byte indices: the bounds are clamped to
/// the text and realigned to the nearest character boundaries inside
/// the range; an invalid range yields the empty slice.
pub fn safe_slice<'a>(s: &'a str, start: usize, end: usize) -> (r: &'a str)
    ensures
        r.spec_bytes() == spec_safe_slice(s.spec_bytes(), start as int, end as int),
{
    let ghost b = s.spec_bytes();
    proof {
        vstd::utf8::encode_utf8_valid_utf8(s@);
        vstd::utf8::is_char_boundary_start_end_of_seq(b);
    }
    let len = s.as_bytes().len();
    if len == 0 {
        proof {
            reveal_strlit("");
            assert(""@ =~= Seq::<char>::empty());
            assert(vstd::utf8::encode_utf8(Seq::<char>::empty()) =~= Seq::<u8>::empty());
            assert(spec_safe_slice(b, start as int, end as int) =~= Seq::<u8>::empty());
        }
        return "";
    }
    let mut s_idx: usize = if start < len {
        start
    } else {
        len
    };
    let mut e_idx: usize = if end < len {
        end
    } else {
        len
    };
    let ghost s0 = s_idx as int;
    let ghost e0 = e_idx as int;
    if s_idx >= e_idx {
        proof {
            reveal_strlit("");
            assert(""@ =~= Seq::<char>::empty());
            assert(vstd::utf8::encode_utf8(Seq::<char>::empty()) =~= Seq::<u8>::empty());
        }
        return "";
    }
    while s_idx < len && !s.is_char_boundary(s_idx)
        invariant
            s.spec_bytes() == b,
            len == b.len(),
            s0 <= s_idx <= len,
            align_up(b, s_idx as int) == align_up(b, s0),
        decreases len - s_idx,
    {
        s_idx = s_idx + 1;
    }
    proof {
        assert(s_idx as int == align_up(b, s0));
    }
    while e_idx > s_idx && !s.is_char_boundary(e_idx)
        invariant
            s.spec_bytes() == b,
            len == b.len(),
            e_idx <= len,
            s_idx <= len,
            s_idx as int == align_up(b, s0),
            e_idx <= e0,
            align_down(b, s_idx as int, e_idx as int) == align_down(b, s_idx as int, e0),
        decreases e_idx,
    {
        e_idx = e_idx - 1;
    }
    proof {
        assert(e_idx as int == align_down(b, s_idx as int, e0));
    }
    if s_idx >= e_idx {
        proof {
            reveal_strlit("");
            assert(""@ =~= Seq::<char>::empty());
            assert(vstd::utf8::encode_utf8(Seq::<char>::empty()) =~= Seq::<u8>::empty());
        }
        return "";
    }
    proof {
        vstd::utf8::is_char_boundary_start_end_of_seq(b);
        if s_idx < len {
            vstd::utf8::is_char_boundary_iff_not_is_continuation_byte(b, s_idx as int);
        }
        if e_idx < len {
            vstd::utf8::is_char_boundary_iff_not_is_continuation_byte(b, e_idx as int);
        }
        assert(vstd::utf8::is_char_boundary(b, e_idx as int));
        assert(vstd::utf8::is_char_boundary(b, s_idx as int));
    }
    let (head, _) = s.split_at(e_idx);
    proof {
        let hb = head.spec_bytes();
        assert(hb == b.subrange(0, e_idx as int));
        vstd::utf8::valid_utf8_split(b, e_idx as int);
        vstd::utf8::is_char_boundary_start_end_of_seq(hb);
        if (s_idx as int) < hb.len() {
            vstd::utf8::is_char_boundary_iff_not_is_continuation_byte(hb, s_idx as int);
            vstd::utf8::is_char_boundary_iff_not_is_continuation_byte(b, s_idx as int);
            assert(hb[s_idx as int] == b[s_idx as int]);
        }
        assert(vstd::utf8::is_char_boundary(hb, s_idx as int));
    }
    let (_, mid) = head.split_at(s_idx);
    proof {
        assert(mid.spec_bytes() =~= b.subrange(s_idx as int, e_idx as int));
    }
    mid
}

} // verus!
