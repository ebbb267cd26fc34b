//! Rewriting of source-file citations into markdown hyperlinks.
//!
//! A citation has the shape `【F:<path>†L<line>】` or
//! `【F:<path>†L<line>-L<line>】`. When a URI-based file opener is
//! configured, each citation becomes a markdown link
//! `[<path>:<line>](<scheme>://file<absolute path>:<line>) `, with the
//! path resolved against the working directory when it is relative
//! (paths are treated in POSIX form: absolute means a leading `/`).
//! Without an opener the text passes through unchanged.

use vstd::prelude::*;

use crate::markdown::digit_count;
use crate::markdown::digit_scan;
use crate::text::chars_to_string;
use crate::text::copy_range;
use crate::text::str_to_chars;

verus! {

/// Which URI-based file opener links are generated for; `NoOpener`
/// disables the rewrite.
#[derive(Clone, Copy, PartialEq, Eq, Structural)]
pub enum FileOpener {
    VsCode,
    VsCodeInsiders,
    Windsurf,
    Cursor,
    NoOpener,
}

/// The URI scheme of each opener.
pub open spec fn scheme_of(o: FileOpener) -> Option<Seq<char>> {
    match o {
        FileOpener::VsCode => Some("vscode"@),
        FileOpener::VsCodeInsiders => Some("vscode-insiders"@),
        FileOpener::Windsurf => Some("windsurf"@),
        FileOpener::Cursor => Some("cursor"@),
        FileOpener::NoOpener => None,
    }
}

impl FileOpener {
    /// The URI scheme this opener uses, if any.
    pub fn get_scheme(&self) -> (r: Option<&'static str>)
        ensures
            r is Some <==> scheme_of(*self) is Some,
            r matches Some(sch) ==> Some(sch@) == scheme_of(*self),
    {
        match self {
            FileOpener::VsCode => Some("vscode"),
            FileOpener::VsCodeInsiders => Some("vscode-insiders"),
            FileOpener::Windsurf => Some("windsurf"),
            FileOpener::Cursor => Some("cursor"),
            FileOpener::NoOpener => None,
        }
    }
}

/// What `path_clean::clean` yields on this path text.
pub uninterp spec fn cleaned_path(s: Seq<char>) -> Seq<char>;

/// Relies on path_clean::clean: a purely lexical cleanup of a path —
/// it collapses repeated separators and resolves `.` and `..` segments
/// without touching the filesystem, so its result depends on the path
/// text alone.
#[verifier::external_body]
fn clean_path(s: &str) -> (r: String)
    ensures
        r@ == cleaned_path(s@),
{
    match path_clean::clean(s).into_os_string().into_string() {
        Ok(p) => p,
        Err(_) => String::new(),
    }
}

/// Whether `c` may stand inside a citation's path: everything up to the
/// dagger, excluding the citation brackets themselves.
pub open spec fn is_file_char(c: char) -> bool {
    c != '†' && c != '【' && c != '】'
}

/// Executable test for `is_file_char`.
fn file_char(c: char) -> (r: bool)
    ensures
        r == is_file_char(c),
{
    c != '†' && c != '【' && c != '】'
}

/// The number of leading path characters of a text.
pub open spec fn file_count(l: Seq<char>) -> int
    decreases l.len(),
{
    if l.len() > 0 && is_file_char(l[0]) {
        1 + file_count(l.drop_first())
    } else {
        0
    }
}

/// A scan that stops at the first non-path character finds
/// `file_count`.
proof fn lemma_file_count_is(l: Seq<char>, k: int)
    requires
        0 <= k <= l.len(),
        forall|j: int| 0 <= j < k ==> #[trigger] is_file_char(l[j]),
        k < l.len() ==> !is_file_char(l[k]),
    ensures
        file_count(l) == k,
    decreases l.len(),
{
    if k == 0 {
    } else {
        assert(is_file_char(l[0]));
        assert forall|j: int| 0 <= j < k - 1 implies #[trigger] is_file_char(l.drop_first()[j]) by {
            assert(l.drop_first()[j] == l[j + 1]);
        }
        assert(k - 1 < l.drop_first().len() ==> !is_file_char(l.drop_first()[k - 1]));
        lemma_file_count_is(l.drop_first(), k - 1);
    }
}

/// Count the path characters of `l` from position `from` on.
fn file_scan(l: &Vec<char>, from: usize) -> (j: usize)
    requires
        from <= l@.len(),
    ensures
        j as int == file_count(l@.skip(from as int)),
        from + j <= l@.len(),
{
    let mut k: usize = from;
    while k < l.len() && file_char(l[k])
        invariant
            from <= k <= l@.len(),
            forall|j: int| from <= j < k ==> #[trigger] is_file_char(l@[j]),
        decreases l@.len() - k,
    {
        k = k + 1;
    }
    proof {
        let t = l@.skip(from as int);
        assert forall|j: int| 0 <= j < k - from implies #[trigger] is_file_char(t[j]) by {
            assert(t[j] == l@[from + j]);
        }
        if k < l@.len() {
            assert(t[k - from] == l@[k as int]);
        }
        lemma_file_count_is(t, k - from);
    }
    k - from
}

/// A citation standing at the front of `t`: its path, its first line
/// number's digits, and how many characters of `t` it covers.
pub open spec fn parse_citation(t: Seq<char>) -> Option<(Seq<char>, Seq<char>, int)> {
    if t.len() < 3 || t[0] != '【' || t[1] != 'F' || t[2] != ':' {
        None
    } else {
        let fl = file_count(t.skip(3));
        let fe = 3 + fl;
        if fl == 0 || fe >= t.len() || t[fe] != '†' || fe + 1 >= t.len() || t[fe + 1] != 'L' {
            None
        } else {
            let d = digit_count(t.skip(fe + 2));
            if d == 0 {
                None
            } else {
                let p = fe + 2 + d;
                if p < t.len() && t[p] == '】' {
                    Some((t.subrange(3, fe), t.subrange(fe + 2, p), p + 1))
                } else if p + 1 < t.len() && t[p] == '-' && t[p + 1] == 'L' {
                    let d2 = digit_count(t.skip(p + 2));
                    if d2 > 0 && p + 2 + d2 < t.len() && t[p + 2 + d2] == '】' {
                        Some((t.subrange(3, fe), t.subrange(fe + 2, p), p + 2 + d2 + 1))
                    } else {
                        None
                    }
                } else {
                    None
                }
            }
        }
    }
}

/// The path a citation's link points at, before cleaning: the cited
/// path itself when absolute, else the working directory joined with
/// it.
pub open spec fn joined_path(cwd: Seq<char>, file: Seq<char>) -> Seq<char> {
    if file.len() > 0 && file[0] == '/' {
        file
    } else if cwd.len() == 0 {
        file
    } else if cwd.last() == '/' {
        cwd + file
    } else {
        cwd + seq!['/'] + file
    }
}

/// Forward slashes for backslashes, as URIs want.
pub open spec fn slashify(s: Seq<char>) -> Seq<char> {
    Seq::new(
        s.len(),
        |i: int|
            if s[i] == '\\' {
                '/'
            } else {
                s[i]
            },
    )
}

/// The link text a citation becomes.
pub open spec fn citation_replacement(
    file: Seq<char>,
    digits: Seq<char>,
    scheme: Seq<char>,
    cwd: Seq<char>,
) -> Seq<char> {
    seq!['['] + file + seq![':'] + digits + seq![']', '('] + scheme + seq![
        ':',
        '/',
        '/',
        'f',
        'i',
        'l',
        'e',
    ] + slashify(cleaned_path(joined_path(cwd, file))) + seq![':'] + digits + seq![')', ' ']
}

/// The whole text with every citation replaced, scanning left to
/// right.
pub open spec fn rewrite_citations(t: Seq<char>, scheme: Seq<char>, cwd: Seq<char>) -> Seq<char>
    decreases t.len(),
{
    if t.len() == 0 {
        Seq::empty()
    } else {
        let p = parse_citation(t);
        if p is Some && 1 <= (p->0).2 <= t.len() {
            citation_replacement((p->0).0, (p->0).1, scheme, cwd) + rewrite_citations(
                t.skip((p->0).2),
                scheme,
                cwd,
            )
        } else {
            seq![t[0]] + rewrite_citations(t.drop_first(), scheme, cwd)
        }
    }
}

/// What `rewrite_file_citations` yields: the rewritten text under the
/// opener's scheme, or the text itself when no opener is configured.
pub open spec fn spec_rewrite_file_citations(
    src: Seq<char>,
    opener: FileOpener,
    cwd: Seq<char>,
) -> Seq<char> {
    match scheme_of(opener) {
        Some(sch) => rewrite_citations(src, sch, cwd),
        None => src,
    }
}

/// Parse a citation standing at position `i` of `t`.
fn parse_citation_at(t: &Vec<char>, i: usize) -> (r: Option<(Vec<char>, Vec<char>, usize)>)
    requires
        i <= t@.len(),
    ensures
        r is None ==> parse_citation(t@.skip(i as int)) is None,
        r matches Some(c) ==> ({
            &&& parse_citation(t@.skip(i as int)) == Some((c.0@, c.1@, c.2 as int))
            &&& 1 <= c.2
            &&& i + c.2 <= t@.len()
        }),
{
    let ghost u = t@.skip(i as int);
    let n = t.len();
    proof {
        assert(u.len() == n - i);
        if i + 2 < n {
            assert(u[0] == t@[i as int]);
            assert(u[1] == t@[i + 1]);
            assert(u[2] == t@[i + 2]);
        }
    }
    if n - i < 3 || t[i] != '【' || t[i + 1] != 'F' || t[i + 2] != ':' {
        return None;
    }
    let fl = file_scan(t, i + 3);
    proof {
        assert(t@.skip(i + 3) =~= u.skip(3));
    }
    let fe = i + 3 + fl;
    proof {
        if fe < n {
            assert(u[3 + fl as int] == t@[fe as int]);
        }
        if fe + 1 < n {
            assert(u[3 + fl + 1 as int] == t@[fe + 1]);
        }
    }
    if fl == 0 || fe >= n || t[fe] != '†' || fe + 1 >= n || t[fe + 1] != 'L' {
        return None;
    }
    let d = digit_scan(t, fe + 2);
    proof {
        assert(t@.skip(fe + 2) =~= u.skip(3 + fl + 2));
    }
    if d == 0 {
        return None;
    }
    let p = fe + 2 + d;
    proof {
        if p < n {
            assert(u[p - i] == t@[p as int]);
        }
        if p + 1 < n {
            assert(u[p + 1 - i] == t@[p + 1]);
        }
    }
    let file = copy_range(t, i + 3, fe);
    let digits = copy_range(t, fe + 2, p);
    proof {
        assert(file@ =~= u.subrange(3, 3 + fl as int));
        assert(digits@ =~= u.subrange(3 + fl + 2, 3 + fl + 2 + d as int));
    }
    if p < n && t[p] == '】' {
        proof {
            assert(p + 1 - i == (3 + fl + 2 + d) + 1);
        }
        return Some((file, digits, p + 1 - i));
    }
    if n - p > 1 && t[p] == '-' && t[p + 1] == 'L' {
        let d2 = digit_scan(t, p + 2);
        proof {
            assert(t@.skip(p + 2) =~= u.skip(3 + fl + 2 + d + 2));
        }
        proof {
            if p + 2 + d2 < n {
                assert(u[p + 2 + d2 - i] == t@[p + 2 + d2]);
            }
        }
        if d2 > 0 && p + 2 + d2 < n && t[p + 2 + d2] == '】' {
            return Some((file, digits, p + 2 + d2 + 1 - i));
        }
        return None;
    }
    None
}

/// Replace `\` by `/` throughout.
fn slashify_exec(s: &Vec<char>) -> (r: Vec<char>)
    ensures
        r@ == slashify(s@),
{
    let mut r: Vec<char> = Vec::new();
    let mut j: usize = 0;
    while j < s.len()
        invariant
            j <= s@.len(),
            r@.len() == j,
            forall|m: int| 0 <= m < j ==> r@[m] == slashify(s@)[m],
        decreases s@.len() - j,
    {
        let c = s[j];
        if c == '\\' {
            r.push('/');
        } else {
            r.push(c);
        }
        j = j + 1;
    }
    proof {
        assert(r@ =~= slashify(s@));
    }
    r
}

/// Build the link text for one citation.
fn build_replacement(file: &Vec<char>, digits: &Vec<char>, scheme: &Vec<char>, cwd: &Vec<char>) -> (r:
    Vec<char>)
    ensures
        r@ == citation_replacement(file@, digits@, scheme@, cwd@),
{
    let mut joined: Vec<char>;
    if file.len() > 0 && file[0] == '/' {
        joined = crate::text::chars_clone(file);
    } else if cwd.len() == 0 {
        joined = crate::text::chars_clone(file);
    } else if cwd[cwd.len() - 1] == '/' {
        joined = crate::text::chars_clone(cwd);
        let mut f = crate::text::chars_clone(file);
        joined.append(&mut f);
    } else {
        joined = crate::text::chars_clone(cwd);
        joined.push('/');
        let mut f = crate::text::chars_clone(file);
        joined.append(&mut f);
        proof {
            assert(joined@ =~= cwd@ + seq!['/'] + file@);
        }
    }
    proof {
        assert(joined@ == joined_path(cwd@, file@));
    }
    let joined_str = chars_to_string(&joined);
    let cleaned = clean_path(joined_str.as_str());
    let cleaned_chars = str_to_chars(cleaned.as_str());
    let slashed = slashify_exec(&cleaned_chars);
    let mut r: Vec<char> = Vec::new();
    r.push('[');
    let mut part = crate::text::chars_clone(file);
    r.append(&mut part);
    r.push(':');
    let mut part = crate::text::chars_clone(digits);
    r.append(&mut part);
    r.push(']');
    r.push('(');
    let mut part = crate::text::chars_clone(scheme);
    r.append(&mut part);
    r.push(':');
    r.push('/');
    r.push('/');
    r.push('f');
    r.push('i');
    r.push('l');
    r.push('e');
    let mut part = slashed;
    r.append(&mut part);
    r.push(':');
    let mut part = crate::text::chars_clone(digits);
    r.append(&mut part);
    r.push(')');
    r.push(' ');
    proof {
        assert(r@ =~= citation_replacement(file@, digits@, scheme@, cwd@));
    }
    r
}

/// Rewrite the file citations of `src` into links for the given opener,
/// resolving relative paths against `cwd`.
pub fn rewrite_file_citations(src: &str, opener: FileOpener, cwd: &str) -> (out: String)
    ensures
        out@ == spec_rewrite_file_citations(src@, opener, cwd@),
{
    let scheme_str = match opener.get_scheme() {
        Some(sch) => sch,
        None => {
            return src.to_owned();
        },
    };
    let t = str_to_chars(src);
    let cwdc = str_to_chars(cwd);
    let schc = str_to_chars(scheme_str);
    let ghost sch = schc@;
    let mut out: Vec<char> = Vec::new();
    let mut i: usize = 0;
    proof {
        assert(t@.skip(0) =~= t@);
        assert(out@ + rewrite_citations(t@.skip(0), sch, cwd@) =~= rewrite_citations(
            t@,
            sch,
            cwd@,
        ));
    }
    while i < t.len()
        invariant
            i <= t@.len(),
            t@ == src@,
            cwdc@ == cwd@,
            schc@ == sch,
            rewrite_citations(src@, sch, cwd@) == out@ + rewrite_citations(
                t@.skip(i as int),
                sch,
                cwd@,
            ),
        decreases t@.len() - i,
    {
        let ghost u = t@.skip(i as int);
        match parse_citation_at(&t, i) {
            Some(c) => {
                let (file, digits, used) = c;
                let mut repl = build_replacement(&file, &digits, &schc, &cwdc);
                proof {
                    assert(u.skip(used as int) =~= t@.skip(i + used));
                }
                out.append(&mut repl);
                i = i + used;
            },
            None => {
                proof {
                    assert(u.drop_first() =~= t@.skip(i + 1));
                    assert(u[0] == t@[i as int]);
                    assert(out@.push(t@[i as int]) =~= out@ + seq![t@[i as int]]);
                }
                out.push(t[i]);
                i = i + 1;
            },
        }
    }
    proof {
        assert(t@.skip(t@.len() as int) =~= Seq::<char>::empty());
        assert(out@ + Seq::<char>::empty() =~= out@);
    }
    chars_to_string(&out)
}

} // verus!
