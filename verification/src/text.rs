//! Conversions between `String`/`&str` and `Vec<char>`, plus the
//! line-splitting and joining primitives shared by the text transforms.
//!
//! The rest of the crate does its reasoning over sequences of characters,
//! so the few functions here are the only place where the two executable
//! representations meet.

use vstd::prelude::*;

verus! {

/// Relies on String::push: appends exactly one character at the end.
#[verifier::external_body]
fn push_char(s: &mut String, c: char)
    ensures
        final(s)@ == old(s)@.push(c),
{
    s.push(c);
}

/// Collect the characters of a string slice into a vector.
pub fn str_to_chars(s: &str) -> (v: Vec<char>)
    ensures
        v@ == s@,
{
    let n: usize = s.unicode_len();
    let mut v: Vec<char> = Vec::new();
    let mut i: usize = 0;
    while i < n
        invariant
            i <= n,
            n == s@.len(),
            v@ == s@.take(i as int),
        decreases n - i,
    {
        let c = s.get_char(i);
        v.push(c);
        proof {
            assert(s@.take(i as int).push(s@[i as int]) =~= s@.take(i + 1 as int));
        }
        i = i + 1;
    }
    proof {
        assert(s@.take(n as int) =~= s@);
    }
    v
}

/// Build an owned string out of a vector of characters.
pub fn chars_to_string(v: &Vec<char>) -> (s: String)
    ensures
        s@ == v@,
{
    let mut s = String::new();
    let mut i: usize = 0;
    while i < v.len()
        invariant
            i <= v.len(),
            s@ == v@.take(i as int),
        decreases v.len() - i,
    {
        push_char(&mut s, v[i]);
        proof {
            assert(v@.take(i as int).push(v@[i as int]) =~= v@.take(i + 1 as int));
        }
        i = i + 1;
    }
    proof {
        assert(v@.take(v@.len() as int) =~= v@);
    }
    s
}

/// A line under construction during splitting: the finished lines and
/// the characters of the current one.
pub struct LineAcc {
    pub done: Seq<Seq<char>>,
    pub cur: Seq<char>,
}

/// Drop one carriage return standing at the end of a line; the splitter
/// applies this to lines ended by a newline, so `\r\n` endings read as
/// plain line breaks.
pub open spec fn strip_cr(l: Seq<char>) -> Seq<char> {
    if l.len() > 0 && l.last() == '\r' {
        l.drop_last()
    } else {
        l
    }
}

/// Feed one character to the line splitter.
pub open spec fn line_step(acc: LineAcc, c: char) -> LineAcc {
    if c == '\n' {
        LineAcc { done: acc.done.push(strip_cr(acc.cur)), cur: Seq::empty() }
    } else {
        LineAcc { done: acc.done, cur: acc.cur.push(c) }
    }
}

/// Run the line splitter over a whole text.
pub open spec fn line_fold(s: Seq<char>) -> LineAcc
    decreases s.len(),
{
    if s.len() == 0 {
        LineAcc { done: Seq::empty(), cur: Seq::empty() }
    } else {
        line_step(line_fold(s.drop_last()), s.last())
    }
}

/// The lines of a text: split at `\n`, a `\r` directly before the `\n`
/// stripped, and no final empty line when the text ends with a newline.
pub open spec fn spec_lines(s: Seq<char>) -> Seq<Seq<char>> {
    let acc = line_fold(s);
    if acc.cur.len() > 0 {
        acc.done.push(acc.cur)
    } else {
        acc.done
    }
}

/// The texts of a vector of lines, in order.
pub open spec fn lines_view(ls: Seq<Vec<char>>) -> Seq<Seq<char>> {
    Seq::new(ls.len(), |i: int| ls[i]@)
}

/// Appending one line appends its text.
proof fn lemma_lines_view_push(ls: Seq<Vec<char>>, l: Vec<char>)
    ensures
        lines_view(ls.push(l)) == lines_view(ls).push(l@),
{
    assert forall|i: int| 0 <= i < lines_view(ls.push(l)).len() implies lines_view(ls.push(l))[i]
        == lines_view(ls).push(l@)[i] by {
        if i < ls.len() {
            assert(ls.push(l)[i] == ls[i]);
        } else {
            assert(ls.push(l)[i] == l);
        }
    }
    assert(lines_view(ls.push(l)) =~= lines_view(ls).push(l@));
}

/// Split a text into its lines, as `spec_lines` describes.
pub fn split_lines(s: &Vec<char>) -> (r: Vec<Vec<char>>)
    ensures
        lines_view(r@) == spec_lines(s@),
{
    let mut done: Vec<Vec<char>> = Vec::new();
    let mut cur: Vec<char> = Vec::new();
    let mut i: usize = 0;
    proof {
        assert(lines_view(done@) =~= Seq::<Seq<char>>::empty());
        assert(s@.take(0) =~= Seq::<char>::empty());
    }
    while i < s.len()
        invariant
            i <= s@.len(),
            lines_view(done@) == line_fold(s@.take(i as int)).done,
            cur@ == line_fold(s@.take(i as int)).cur,
        decreases s@.len() - i,
    {
        proof {
            assert(s@.take(i + 1 as int).drop_last() =~= s@.take(i as int));
            assert(s@.take(i + 1 as int).last() == s@[i as int]);
        }
        let ghost done0 = done@;
        let c = s[i];
        if c == '\n' {
            if cur.len() > 0 && cur[cur.len() - 1] == '\r' {
                cur.pop();
                proof {
                    assert(cur@ =~= strip_cr(line_fold(s@.take(i as int)).cur));
                }
            }
            let finished = cur;
            cur = Vec::new();
            proof {
                lemma_lines_view_push(done0, finished);
            }
            done.push(finished);
        } else {
            cur.push(c);
        }
        i = i + 1;
    }
    proof {
        assert(s@.take(s@.len() as int) =~= s@);
    }
    if cur.len() > 0 {
        let ghost done0 = done@;
        let ghost last = cur@;
        proof {
            lemma_lines_view_push(done0, cur);
        }
        done.push(cur);
    }
    done
}

/// Glue lines back together with single newlines between them.
pub open spec fn join_lines(ls: Seq<Seq<char>>) -> Seq<char>
    decreases ls.len(),
{
    if ls.len() == 0 {
        Seq::empty()
    } else if ls.len() == 1 {
        ls.last()
    } else {
        join_lines(ls.drop_last()) + seq!['\n'] + ls.last()
    }
}

/// Copy the characters of `t` between two positions.
pub(crate) fn copy_range(t: &Vec<char>, from: usize, to: usize) -> (r: Vec<char>)
    requires
        from <= to <= t@.len(),
    ensures
        r@ == t@.subrange(from as int, to as int),
{
    let mut r: Vec<char> = Vec::new();
    let mut j: usize = from;
    proof {
        assert(r@ =~= t@.subrange(from as int, from as int));
    }
    while j < to
        invariant
            from <= j <= to <= t@.len(),
            r@ == t@.subrange(from as int, j as int),
        decreases to - j,
    {
        proof {
            assert(t@.subrange(from as int, j + 1 as int) =~= t@.subrange(
                from as int,
                j as int,
            ).push(t@[j as int]));
        }
        r.push(t[j]);
        j = j + 1;
    }
    r
}

/// Whether two character vectors hold the same text.
pub fn chars_eq(a: &Vec<char>, b: &Vec<char>) -> (r: bool)
    ensures
        r == (a@ == b@),
{
    if a.len() != b.len() {
        return false;
    }
    let mut i: usize = 0;
    while i < a.len()
        invariant
            i <= a@.len(),
            a@.len() == b@.len(),
            forall|j: int| 0 <= j < i ==> a@[j] == b@[j],
        decreases a@.len() - i,
    {
        if a[i] != b[i] {
            return false;
        }
        i = i + 1;
    }
    proof {
        assert(a@ =~= b@);
    }
    true
}

/// Whether `p` is a textual prefix of `q`.
pub fn chars_prefix(p: &Vec<char>, q: &Vec<char>) -> (r: bool)
    ensures
        r == p@.is_prefix_of(q@),
{
    if p.len() > q.len() {
        return false;
    }
    let mut i: usize = 0;
    while i < p.len()
        invariant
            i <= p@.len(),
            p@.len() <= q@.len(),
            forall|j: int| 0 <= j < i ==> p@[j] == q@[j],
        decreases p@.len() - i,
    {
        if p[i] != q[i] {
            proof {
                assert(q@.subrange(0, p@.len() as int)[i as int] == q@[i as int]);
            }
            return false;
        }
        i = i + 1;
    }
    proof {
        assert(p@ =~= q@.subrange(0, p@.len() as int));
    }
    true
}

/// Copy a character vector.
pub fn chars_clone(v: &Vec<char>) -> (r: Vec<char>)
    ensures
        r@ == v@,
{
    let mut r: Vec<char> = Vec::new();
    let mut i: usize = 0;
    while i < v.len()
        invariant
            i <= v@.len(),
            r@ == v@.take(i as int),
        decreases v@.len() - i,
    {
        r.push(v[i]);
        proof {
            assert(v@.take(i as int).push(v@[i as int]) =~= v@.take(i + 1 as int));
        }
        i = i + 1;
    }
    proof {
        assert(v@.take(v@.len() as int) =~= v@);
    }
    r
}

} // verus!
