//! A small anchored glob engine for matching relative file paths.
//!
//! The pattern dialect is the restricted one the search manager offers:
//! `?` matches one character other than the path separator, `*` matches a
//! run of characters within one path segment, `**` matches a run of
//! characters across segments, and `[...]` is a character class with
//! optional negation (`[^...]`) and ranges (`[a-z]`). Every other
//! character matches itself literally. A pattern that cannot be compiled
//! (an unterminated class, a reversed range) yields no matcher, which
//! callers treat as the empty match set.

use vstd::prelude::*;

use crate::text::str_to_chars;

verus! {

/// One entry of a character class: a single character or a closed range.
#[derive(Clone, Copy)]
pub enum ClassItem {
    Ch(char),
    Range(char, char),
}

/// One compiled element of a glob pattern.
pub enum GlobToken {
    /// Matches exactly this character.
    Lit(char),
    /// `?`: matches one character that is not `/`.
    AnyChar,
    /// `*`: matches zero or more characters, none of them `/`.
    Star,
    /// `**`: matches zero or more characters, `/` included.
    StarStar,
    /// `**/`: matches nothing at all, or any run of characters that
    /// ends with `/` — so a pattern may cross zero directory levels
    /// where it names one.
    StarStarSlash,
    /// `[...]`: matches one character against the listed items.
    Class { negated: bool, items: Vec<ClassItem> },
}

/// The mathematical shape of one pattern element; `GlobToken` is its
/// executable carrier.
pub enum Tok {
    Lit(char),
    AnyChar,
    Star,
    StarStar,
    StarStarSlash,
    Class { negated: bool, items: Seq<ClassItem> },
}

impl View for GlobToken {
    type V = Tok;

    open spec fn view(&self) -> Tok {
        match self {
            GlobToken::Lit(c) => Tok::Lit(*c),
            GlobToken::AnyChar => Tok::AnyChar,
            GlobToken::Star => Tok::Star,
            GlobToken::StarStar => Tok::StarStar,
            GlobToken::StarStarSlash => Tok::StarStarSlash,
            GlobToken::Class { negated, items } => Tok::Class {
                negated: *negated,
                items: items@,
            },
        }
    }
}

/// The views of a vector of tokens, in order.
pub open spec fn toks_view(ts: Seq<GlobToken>) -> Seq<Tok> {
    Seq::new(ts.len(), |i: int| ts[i]@)
}

/// Appending one carrier token appends its view.
proof fn lemma_toks_view_push(s: Seq<GlobToken>, t: GlobToken)
    ensures
        toks_view(s.push(t)) == toks_view(s).push(t@),
{
    assert forall|i: int| 0 <= i < toks_view(s.push(t)).len() implies toks_view(s.push(t))[i]
        == toks_view(s).push(t@)[i] by {
        if i < s.len() {
            assert(s.push(t)[i] == s[i]);
        } else {
            assert(s.push(t)[i] == t);
        }
    }
    assert(toks_view(s.push(t)) =~= toks_view(s).push(t@));
}

/// Whether one class item covers the character `c`.
pub open spec fn item_matches(it: ClassItem, c: char) -> bool {
    match it {
        ClassItem::Ch(x) => c == x,
        ClassItem::Range(lo, hi) => lo as u32 <= c as u32 && c as u32 <= hi as u32,
    }
}

/// Whether a character class with the given polarity covers `c`.
pub open spec fn class_matches(negated: bool, items: Seq<ClassItem>, c: char) -> bool {
    (exists|j: int| 0 <= j < items.len() && item_matches(items[j], c)) != negated
}

/// Whether a single non-wildcard token matches one character.
pub open spec fn tok_matches_one(t: Tok, c: char) -> bool {
    match t {
        Tok::Lit(l) => c == l,
        Tok::AnyChar => c != '/',
        Tok::Class { negated, items } => class_matches(negated, items, c),
        Tok::Star => false,
        Tok::StarStar => false,
        Tok::StarStarSlash => false,
    }
}

/// The meaning of a compiled pattern: whether it matches the whole of `s`.
pub open spec fn glob_match(p: Seq<Tok>, s: Seq<char>) -> bool
    decreases p.len(), s.len(), 1int,
{
    if p.len() == 0 {
        s.len() == 0
    } else {
        match p[0] {
            Tok::Star => glob_match(p.drop_first(), s) || (s.len() > 0 && s[0] != '/'
                && glob_match(p, s.drop_first())),
            Tok::StarStar => glob_match(p.drop_first(), s) || (s.len() > 0 && glob_match(
                p,
                s.drop_first(),
            )),
            Tok::StarStarSlash => glob_match(p.drop_first(), s) || ss_slash_match(
                p.drop_first(),
                s,
            ),
            t => s.len() > 0 && tok_matches_one(t, s[0]) && glob_match(
                p.drop_first(),
                s.drop_first(),
            ),
        }
    }
}

/// Whether some prefix of `s` that ends with `/` can be dropped so
/// that the rest of the pattern matches the rest of `s`.
pub open spec fn ss_slash_match(p: Seq<Tok>, s: Seq<char>) -> bool
    decreases p.len(), s.len(), 0int,
{
    s.len() > 0 && ((s[0] == '/' && glob_match(p, s.drop_first())) || ss_slash_match(
        p,
        s.drop_first(),
    ))
}

/// The state of the pattern parser between two characters.
pub enum ParseState {
    /// Ordinary position; `toks` is what has been emitted so far.
    Run { toks: Seq<Tok> },
    /// One `*` has been read and not yet resolved against the next character.
    Star1 { toks: Seq<Tok> },
    /// Two `*` have been read; a following `/` folds into one token.
    Star2 { toks: Seq<Tok> },
    /// Inside a character class: polarity, a pending single character, a
    /// pending `-` after that character, and the finished items.
    InClass { toks: Seq<Tok>, negated: bool, prev: Option<char>, dash: bool, items: Seq<ClassItem> },
    /// The pattern can no longer compile (a reversed range).
    Failed,
}

/// Close a class: flush the pending character and the pending dash.
pub open spec fn close_class_items(
    prev: Option<char>,
    dash: bool,
    items: Seq<ClassItem>,
) -> Seq<ClassItem> {
    let with_prev = match prev {
        Some(p) => items.push(ClassItem::Ch(p)),
        None => items,
    };
    if dash {
        with_prev.push(ClassItem::Ch('-'))
    } else {
        with_prev
    }
}

/// Advance the pattern parser by one character.
pub open spec fn parse_step(st: ParseState, c: char) -> ParseState {
    match st {
        ParseState::Run { toks } => {
            if c == '[' {
                ParseState::InClass {
                    toks,
                    negated: false,
                    prev: None,
                    dash: false,
                    items: Seq::empty(),
                }
            } else if c == '?' {
                ParseState::Run { toks: toks.push(Tok::AnyChar) }
            } else if c == '*' {
                ParseState::Star1 { toks }
            } else {
                ParseState::Run { toks: toks.push(Tok::Lit(c)) }
            }
        },
        ParseState::Star1 { toks } => {
            if c == '*' {
                ParseState::Star2 { toks }
            } else {
                let flushed = toks.push(Tok::Star);
                if c == '[' {
                    ParseState::InClass {
                        toks: flushed,
                        negated: false,
                        prev: None,
                        dash: false,
                        items: Seq::empty(),
                    }
                } else if c == '?' {
                    ParseState::Run { toks: flushed.push(Tok::AnyChar) }
                } else {
                    ParseState::Run { toks: flushed.push(Tok::Lit(c)) }
                }
            }
        },
        ParseState::Star2 { toks } => {
            if c == '/' {
                ParseState::Run { toks: toks.push(Tok::StarStarSlash) }
            } else if c == '*' {
                ParseState::Star1 { toks: toks.push(Tok::StarStar) }
            } else {
                let flushed = toks.push(Tok::StarStar);
                if c == '[' {
                    ParseState::InClass {
                        toks: flushed,
                        negated: false,
                        prev: None,
                        dash: false,
                        items: Seq::empty(),
                    }
                } else if c == '?' {
                    ParseState::Run { toks: flushed.push(Tok::AnyChar) }
                } else {
                    ParseState::Run { toks: flushed.push(Tok::Lit(c)) }
                }
            }
        },
        ParseState::InClass { toks, negated, prev, dash, items } => {
            if c == '^' && !negated && prev is None && items.len() == 0 {
                ParseState::InClass { toks, negated: true, prev, dash, items }
            } else if c == ']' && (prev is Some || items.len() > 0) {
                ParseState::Run {
                    toks: toks.push(
                        Tok::Class { negated, items: close_class_items(prev, dash, items) },
                    ),
                }
            } else if dash {
                match prev {
                    Some(p) => {
                        if p as u32 <= c as u32 {
                            ParseState::InClass {
                                toks,
                                negated,
                                prev: None,
                                dash: false,
                                items: items.push(ClassItem::Range(p, c)),
                            }
                        } else {
                            ParseState::Failed
                        }
                    },
                    None => ParseState::Failed,
                }
            } else if prev is Some && c == '-' {
                ParseState::InClass { toks, negated, prev, dash: true, items }
            } else {
                match prev {
                    Some(p) => ParseState::InClass {
                        toks,
                        negated,
                        prev: Some(c),
                        dash,
                        items: items.push(ClassItem::Ch(p)),
                    },
                    None => ParseState::InClass { toks, negated, prev: Some(c), dash, items },
                }
            }
        },
        ParseState::Failed => ParseState::Failed,
    }
}

/// Run the parser over a whole pattern, starting from an empty state.
pub open spec fn parse_fold(p: Seq<char>) -> ParseState
    decreases p.len(),
{
    if p.len() == 0 {
        ParseState::Run { toks: Seq::empty() }
    } else {
        parse_step(parse_fold(p.drop_last()), p.last())
    }
}

/// Finish the parse: a dangling `*` becomes a token, an open class or a
/// failure yields nothing.
pub open spec fn parse_finish(st: ParseState) -> Option<Seq<Tok>> {
    match st {
        ParseState::Run { toks } => Some(toks),
        ParseState::Star1 { toks } => Some(toks.push(Tok::Star)),
        ParseState::Star2 { toks } => Some(toks.push(Tok::StarStar)),
        ParseState::InClass { .. } => None,
        ParseState::Failed => None,
    }
}

/// What `compile` yields on a pattern: the token sequence, or nothing.
pub open spec fn spec_compile(p: Seq<char>) -> Option<Seq<Tok>> {
    parse_finish(parse_fold(p))
}

/// Whether a pattern, once compiled, accepts a path; an uncompilable
/// pattern accepts nothing.
pub open spec fn glob_accepts(pattern: Seq<char>, path: Seq<char>) -> bool {
    match spec_compile(pattern) {
        Some(toks) => glob_match(toks, path),
        None => false,
    }
}

/// Whether `c` checks a character against a class, item by item.
fn class_match_exec(negated: bool, items: &Vec<ClassItem>, c: char) -> (r: bool)
    ensures
        r == class_matches(negated, items@, c),
{
    let mut found = false;
    let mut i: usize = 0;
    while i < items.len()
        invariant
            i <= items@.len(),
            found == exists|j: int| 0 <= j < i && item_matches(items@[j], c),
        decreases items@.len() - i,
    {
        let hit = match items[i] {
            ClassItem::Ch(x) => x == c,
            ClassItem::Range(lo, hi) => lo as u32 <= c as u32 && c as u32 <= hi as u32,
        };
        proof {
            if hit {
                assert(item_matches(items@[i as int], c));
            }
        }
        found = found || hit;
        i = i + 1;
    }
    found != negated
}

/// Whether the token suffix starting at `ti` matches the character suffix
/// starting at `si`; a direct recursion mirroring `glob_match`.
fn match_from(toks: &Vec<GlobToken>, s: &Vec<char>, ti: usize, si: usize) -> (r: bool)
    requires
        ti <= toks@.len(),
        si <= s@.len(),
    ensures
        r == glob_match(toks_view(toks@).skip(ti as int), s@.skip(si as int)),
    decreases toks@.len() - ti, s@.len() - si, 1int,
{
    let ghost p = toks_view(toks@).skip(ti as int);
    let ghost q = s@.skip(si as int);
    proof {
        if ti < toks@.len() {
            assert(p.drop_first() =~= toks_view(toks@).skip(ti as int + 1));
            assert(p[0] == toks@[ti as int]@);
        }
        if si < s@.len() {
            assert(q.drop_first() =~= s@.skip(si as int + 1));
            assert(q[0] == s@[si as int]);
        }
    }
    if ti == toks.len() {
        return si == s.len();
    }
    match &toks[ti] {
        GlobToken::Star => {
            if match_from(toks, s, ti + 1, si) {
                true
            } else if si < s.len() && s[si] != '/' {
                match_from(toks, s, ti, si + 1)
            } else {
                false
            }
        },
        GlobToken::StarStar => {
            if match_from(toks, s, ti + 1, si) {
                true
            } else if si < s.len() {
                match_from(toks, s, ti, si + 1)
            } else {
                false
            }
        },
        GlobToken::StarStarSlash => {
            if match_from(toks, s, ti + 1, si) {
                true
            } else {
                slash_skip_from(toks, s, ti + 1, si)
            }
        },
        GlobToken::Lit(l) => {
            if si < s.len() && s[si] == *l {
                match_from(toks, s, ti + 1, si + 1)
            } else {
                false
            }
        },
        GlobToken::AnyChar => {
            if si < s.len() && s[si] != '/' {
                match_from(toks, s, ti + 1, si + 1)
            } else {
                false
            }
        },
        GlobToken::Class { negated, items } => {
            if si < s.len() && class_match_exec(*negated, items, s[si]) {
                match_from(toks, s, ti + 1, si + 1)
            } else {
                false
            }
        },
    }
}

/// Whether some prefix of the character suffix at `si`, ending with
/// `/`, can be dropped so that the token suffix at `ti` matches the
/// rest; mirrors `ss_slash_match`.
fn slash_skip_from(toks: &Vec<GlobToken>, s: &Vec<char>, ti: usize, si: usize) -> (r: bool)
    requires
        ti <= toks@.len(),
        si <= s@.len(),
    ensures
        r == ss_slash_match(toks_view(toks@).skip(ti as int), s@.skip(si as int)),
    decreases toks@.len() - ti, s@.len() - si, 0int,
{
    let ghost q = s@.skip(si as int);
    proof {
        if si < s@.len() {
            assert(q.drop_first() =~= s@.skip(si as int + 1));
            assert(q[0] == s@[si as int]);
        }
    }
    if si == s.len() {
        return false;
    }
    if s[si] == '/' && match_from(toks, s, ti, si + 1) {
        return true;
    }
    slash_skip_from(toks, s, ti, si + 1)
}

/// A compiled, full-path-anchored glob pattern.
pub struct GlobMatcher {
    toks: Vec<GlobToken>,
}

impl View for GlobMatcher {
    type V = Seq<Tok>;

    closed spec fn view(&self) -> Seq<Tok> {
        toks_view(self.toks@)
    }
}

impl GlobMatcher {
    /// Whether the matcher accepts the whole of `path`.
    pub fn is_match(&self, path: &str) -> (r: bool)
        ensures
            r == glob_match(self@, path@),
    {
        let chars = str_to_chars(path);
        let r = match_from(&self.toks, &chars, 0, 0);
        proof {
            assert(self@.skip(0) =~= self@);
            assert(chars@.skip(0) =~= chars@);
        }
        r
    }
}

/// The parser's executable mode; the carried data lives in locals.
enum ParseMode {
    Run,
    Star1,
    Star2,
    InClass,
    Failed,
}

/// The ghost parser state described by the compiler's locals.
spec fn locals_view(
    mode: ParseMode,
    toks: Seq<Tok>,
    negated: bool,
    prev: Option<char>,
    dash: bool,
    items: Seq<ClassItem>,
) -> ParseState {
    match mode {
        ParseMode::Run => ParseState::Run { toks },
        ParseMode::Star1 => ParseState::Star1 { toks },
        ParseMode::Star2 => ParseState::Star2 { toks },
        ParseMode::InClass => ParseState::InClass { toks, negated, prev, dash, items },
        ParseMode::Failed => ParseState::Failed,
    }
}

/// Compile a pattern into a matcher, or report that it has no compiled
/// form (an unterminated class or a reversed range).
pub fn compile(pattern: &str) -> (r: Option<GlobMatcher>)
    ensures
        r is Some <==> spec_compile(pattern@) is Some,
        r matches Some(m) ==> Some(m@) == spec_compile(pattern@),
{
    let p = str_to_chars(pattern);
    let mut mode = ParseMode::Run;
    let mut toks: Vec<GlobToken> = Vec::new();
    let mut negated = false;
    let mut prev: Option<char> = None;
    let mut dash = false;
    let mut items: Vec<ClassItem> = Vec::new();
    let mut i: usize = 0;
    proof {
        assert(toks_view(toks@) =~= Seq::<Tok>::empty());
        assert(p@.take(0) =~= Seq::<char>::empty());
    }
    while i < p.len()
        invariant
            i <= p@.len(),
            p@ == pattern@,
            locals_view(mode, toks_view(toks@), negated, prev, dash, items@) == parse_fold(
                p@.take(i as int),
            ),
        decreases p@.len() - i,
    {
        let c = p[i];
        proof {
            assert(p@.take(i + 1 as int).drop_last() =~= p@.take(i as int));
            assert(p@.take(i + 1 as int).last() == p@[i as int]);
        }
        let ghost pre = locals_view(mode, toks_view(toks@), negated, prev, dash, items@);
        let ghost toks0 = toks@;
        match mode {
            ParseMode::Run => {
                if c == '[' {
                    mode = ParseMode::InClass;
                    negated = false;
                    prev = None;
                    dash = false;
                    items = Vec::new();
                    proof {
                        assert(locals_view(mode, toks_view(toks@), negated, prev, dash, items@)
                            == parse_step(pre, p@[i as int]));
                    }
                } else if c == '?' {
                    toks.push(GlobToken::AnyChar);
                    proof {
                        lemma_toks_view_push(toks0, GlobToken::AnyChar);
                        assert(locals_view(mode, toks_view(toks@), negated, prev, dash, items@)
                            == parse_step(pre, p@[i as int]));
                    }
                } else if c == '*' {
                    mode = ParseMode::Star1;
                    proof {
                        assert(locals_view(mode, toks_view(toks@), negated, prev, dash, items@)
                            == parse_step(pre, p@[i as int]));
                    }
                } else {
                    toks.push(GlobToken::Lit(c));
                    proof {
                        lemma_toks_view_push(toks0, GlobToken::Lit(c));
                        assert(locals_view(mode, toks_view(toks@), negated, prev, dash, items@)
                            == parse_step(pre, p@[i as int]));
                    }
                }
            },
            ParseMode::Star1 => {
                if c == '*' {
                    mode = ParseMode::Star2;
                    proof {
                        assert(locals_view(mode, toks_view(toks@), negated, prev, dash, items@)
                            == parse_step(pre, p@[i as int]));
                    }
                } else {
                    toks.push(GlobToken::Star);
                    proof {
                        lemma_toks_view_push(toks0, GlobToken::Star);
                    }
                    if c == '[' {
                        mode = ParseMode::InClass;
                        negated = false;
                        prev = None;
                        dash = false;
                        items = Vec::new();
                        proof {
                            assert(locals_view(mode, toks_view(toks@), negated, prev, dash, items@)
                                == parse_step(pre, p@[i as int]));
                        }
                    } else if c == '?' {
                        toks.push(GlobToken::AnyChar);
                        mode = ParseMode::Run;
                        proof {
                            lemma_toks_view_push(toks0.push(GlobToken::Star), GlobToken::AnyChar);
                            assert(locals_view(mode, toks_view(toks@), negated, prev, dash, items@)
                                == parse_step(pre, p@[i as int]));
                        }
                    } else {
                        toks.push(GlobToken::Lit(c));
                        mode = ParseMode::Run;
                        proof {
                            lemma_toks_view_push(toks0.push(GlobToken::Star), GlobToken::Lit(c));
                            assert(locals_view(mode, toks_view(toks@), negated, prev, dash, items@)
                                == parse_step(pre, p@[i as int]));
                        }
                    }
                }
            },
            ParseMode::Star2 => {
                if c == '/' {
                    toks.push(GlobToken::StarStarSlash);
                    mode = ParseMode::Run;
                    proof {
                        lemma_toks_view_push(toks0, GlobToken::StarStarSlash);
                        assert(locals_view(mode, toks_view(toks@), negated, prev, dash, items@)
                            == parse_step(pre, p@[i as int]));
                    }
                } else if c == '*' {
                    toks.push(GlobToken::StarStar);
                    mode = ParseMode::Star1;
                    proof {
                        lemma_toks_view_push(toks0, GlobToken::StarStar);
                        assert(locals_view(mode, toks_view(toks@), negated, prev, dash, items@)
                            == parse_step(pre, p@[i as int]));
                    }
                } else {
                    toks.push(GlobToken::StarStar);
                    proof {
                        lemma_toks_view_push(toks0, GlobToken::StarStar);
                    }
                    if c == '[' {
                        mode = ParseMode::InClass;
                        negated = false;
                        prev = None;
                        dash = false;
                        items = Vec::new();
                        proof {
                            assert(locals_view(mode, toks_view(toks@), negated, prev, dash, items@)
                                == parse_step(pre, p@[i as int]));
                        }
                    } else if c == '?' {
                        toks.push(GlobToken::AnyChar);
                        mode = ParseMode::Run;
                        proof {
                            lemma_toks_view_push(toks0.push(GlobToken::StarStar), GlobToken::AnyChar);
                            assert(locals_view(mode, toks_view(toks@), negated, prev, dash, items@)
                                == parse_step(pre, p@[i as int]));
                        }
                    } else {
                        toks.push(GlobToken::Lit(c));
                        mode = ParseMode::Run;
                        proof {
                            lemma_toks_view_push(toks0.push(GlobToken::StarStar), GlobToken::Lit(c));
                            assert(locals_view(mode, toks_view(toks@), negated, prev, dash, items@)
                                == parse_step(pre, p@[i as int]));
                        }
                    }
                }
            },
            ParseMode::InClass => {
                if c == '^' && !negated && prev.is_none() && items.len() == 0 {
                    negated = true;
                    proof {
                        assert(locals_view(mode, toks_view(toks@), negated, prev, dash, items@)
                            == parse_step(pre, p@[i as int]));
                    }
                } else if c == ']' && (prev.is_some() || items.len() > 0) {
                    if let Some(pc) = prev {
                        items.push(ClassItem::Ch(pc));
                    }
                    if dash {
                        items.push(ClassItem::Ch('-'));
                    }
                    let done_items = items;
                    items = Vec::new();
                    toks.push(GlobToken::Class { negated, items: done_items });
                    mode = ParseMode::Run;
                    negated = false;
                    prev = None;
                    dash = false;
                    proof {
                        lemma_toks_view_push(toks0, toks@.last());
                        assert(locals_view(mode, toks_view(toks@), negated, prev, dash, items@)
                            == parse_step(pre, p@[i as int]));
                    }
                } else if dash {
                    match prev {
                        Some(pc) => {
                            if pc as u32 <= c as u32 {
                                items.push(ClassItem::Range(pc, c));
                                prev = None;
                                dash = false;
                            } else {
                                mode = ParseMode::Failed;
                            }
                        },
                        None => {
                            mode = ParseMode::Failed;
                        },
                    }
                    proof {
                        assert(locals_view(mode, toks_view(toks@), negated, prev, dash, items@)
                            == parse_step(pre, p@[i as int]));
                    }
                } else if prev.is_some() && c == '-' {
                    dash = true;
                    proof {
                        assert(locals_view(mode, toks_view(toks@), negated, prev, dash, items@)
                            == parse_step(pre, p@[i as int]));
                    }
                } else {
                    match prev {
                        Some(pc) => {
                            items.push(ClassItem::Ch(pc));
                            prev = Some(c);
                        },
                        None => {
                            prev = Some(c);
                        },
                    }
                    proof {
                        assert(locals_view(mode, toks_view(toks@), negated, prev, dash, items@)
                            == parse_step(pre, p@[i as int]));
                    }
                }
            },
            ParseMode::Failed => {},
        }
        i = i + 1;
    }
    proof {
        assert(p@.take(p@.len() as int) =~= p@);
    }
    match mode {
        ParseMode::Run => Some(GlobMatcher { toks }),
        ParseMode::Star1 => {
            let ghost toks0 = toks@;
            toks.push(GlobToken::Star);
            proof {
                lemma_toks_view_push(toks0, GlobToken::Star);
            }
            Some(GlobMatcher { toks })
        },
        ParseMode::Star2 => {
            let ghost toks0 = toks@;
            toks.push(GlobToken::StarStar);
            proof {
                lemma_toks_view_push(toks0, GlobToken::StarStar);
            }
            Some(GlobMatcher { toks })
        },
        ParseMode::InClass => None,
        ParseMode::Failed => None,
    }
}

/// Whether `c` is one of the wildcard lead-ins `*`, `?` or `[`.
pub open spec fn is_glob_char(c: char) -> bool {
    c == '*' || c == '?' || c == '['
}

/// Whether the text holds any of the wildcard lead-ins `*`, `?` or `[`.
pub open spec fn has_glob_chars(s: Seq<char>) -> bool {
    exists|i: int| 0 <= i < s.len() && is_glob_char(s[i])
}

/// Return true if `s` contains shell-style glob characters.
pub fn contains_glob_chars(s: &str) -> (r: bool)
    ensures
        r == has_glob_chars(s@),
{
    let chars = str_to_chars(s);
    let mut i: usize = 0;
    while i < chars.len()
        invariant
            i <= chars@.len(),
            chars@ == s@,
            forall|j: int| 0 <= j < i ==> !is_glob_char(s@[j]),
        decreases chars@.len() - i,
    {
        let c = chars[i];
        if c == '*' || c == '?' || c == '[' {
            proof {
                assert(is_glob_char(s@[i as int]));
            }
            return true;
        }
        i = i + 1;
    }
    false
}

} // verus!
