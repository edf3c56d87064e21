//! URL rule compilation, matching and resolution.
//!
//! A rule string is a normal URL path with placeholders in the format
//! `<converter:name>`, the converter being optional.  The supported
//! converters are `string` (the default — one or more characters without
//! a slash), `int` (digits), `float` (digits, a dot, digits) and `path`
//! (anything that does not begin with a slash).
//!
//! A template is compiled into a [`Matcher`]: a sequence of literal and
//! placeholder segments.  Matching a path against a matcher follows the
//! usual leftmost-first rule of regular expressions: earlier placeholders
//! take the longest capture that lets the rest match (`path` placeholders
//! the shortest), and a rule whose template ends in a slash — a branch
//! rule — additionally accepts the path without its trailing slash by
//! demanding a redirect.

use vstd::prelude::*;

verus! {

use crate::datastructures::Dict;
use crate::errors::HTTPError;
use crate::method::{contains_method, method_set, Method};
use crate::types::ViewArgs;
use crate::utils::{matches_at, spec_is_digit, spec_matches_at};

/// The converter of a placeholder: the shape of path text it captures.
#[derive(Clone, Copy, PartialEq, Eq, Structural, Debug)]
pub enum Converter {
    /// One or more characters without a slash (`string`, the default).
    Str,
    /// One or more decimal digits (`int`).
    Int,
    /// Digits, a dot, digits (`float`).
    Float,
    /// Anything not beginning with a slash, matched as short as possible
    /// (`path`).
    Path,
}

/// A placeholder captures as little as possible when its converter is
/// `path`, and as much as possible otherwise.
pub open spec fn is_lazy(c: Converter) -> bool {
    c is Path
}

/// Whether `s` is a capture the converter accepts.
pub open spec fn cap_ok(c: Converter, s: Seq<char>) -> bool {
    match c {
        Converter::Str => s.len() >= 1 && (forall|i: int| 0 <= i < s.len() ==> s[i] != '/'),
        Converter::Int => s.len() >= 1 && (forall|i: int| 0 <= i < s.len() ==> spec_is_digit(s[i])),
        Converter::Float => exists|j: int|
            1 <= j <= s.len() - 2 && s[j] == '.' && (forall|i: int|
                0 <= i < j ==> spec_is_digit(s[i])) && (forall|i: int|
                j < i < s.len() ==> spec_is_digit(s[i])),
        Converter::Path => s.len() >= 1 && s[0] != '/',
    }
}

/// One segment of a compiled matcher.
pub enum Seg {
    /// Literal path text.
    Literal(String),
    /// A placeholder with its converter and capture name.
    Variable { converter: Converter, name: String },
}

/// The view of a segment.
pub enum SegV {
    Literal(Seq<char>),
    Variable { converter: Converter, name: Seq<char> },
}

impl View for Seg {
    type V = SegV;

    open spec fn view(&self) -> SegV {
        match self {
            Seg::Literal(l) => SegV::Literal(l@),
            Seg::Variable { converter, name } => SegV::Variable {
                converter: *converter,
                name: name@,
            },
        }
    }
}

/// The outcome of matching a path against a matcher: no match, a match
/// with the captured placeholder values in segment order, or a match
/// that requires a trailing-slash redirect first.
pub enum SpecMatch {
    NoMatch,
    Hit(Seq<Seq<char>>),
    Slash,
}

/// Prepend a capture to the captures of a successful match.
pub open spec fn with_cap(cap: Seq<char>, r: SpecMatch) -> SpecMatch {
    match r {
        SpecMatch::NoMatch => SpecMatch::NoMatch,
        SpecMatch::Slash => SpecMatch::Slash,
        SpecMatch::Hit(caps) => SpecMatch::Hit(seq![cap] + caps),
    }
}

/// Match segments `i..` of the matcher against `s[pos..]`.  At the end
/// of the segments a branch matcher accepts a final `/` — or accepts
/// its absence by asking for a redirect.
pub open spec fn m_at(segs: Seq<SegV>, branch: bool, s: Seq<char>, i: int, pos: int) -> SpecMatch
    decreases segs.len() - i, 1int, 0int,
{
    if i < 0 || i >= segs.len() {
        if branch {
            if pos == s.len() {
                SpecMatch::Slash
            } else if pos + 1 == s.len() && s[pos] == '/' {
                SpecMatch::Hit(Seq::empty())
            } else {
                SpecMatch::NoMatch
            }
        } else {
            if pos == s.len() {
                SpecMatch::Hit(Seq::empty())
            } else {
                SpecMatch::NoMatch
            }
        }
    } else {
        match segs[i] {
            SegV::Literal(l) => {
                if spec_matches_at(s, pos, l) {
                    m_at(segs, branch, s, i + 1, pos + l.len())
                } else {
                    SpecMatch::NoMatch
                }
            },
            SegV::Variable { converter, name } => {
                if is_lazy(converter) {
                    m_lazy(segs, branch, s, i, pos, 1)
                } else {
                    m_greedy(segs, branch, s, i, pos, s.len() - pos)
                }
            },
        }
    }
}

/// Greedy capture: try length `k`, then ever shorter ones down to 1.
pub open spec fn m_greedy(
    segs: Seq<SegV>,
    branch: bool,
    s: Seq<char>,
    i: int,
    pos: int,
    k: int,
) -> SpecMatch
    decreases segs.len() - i, 0int, k,
{
    if i < 0 || i >= segs.len() || !(segs[i] is Variable) || k < 1 || pos < 0 {
        SpecMatch::NoMatch
    } else {
        let converter = segs[i]->Variable_converter;
        let attempt = if pos + k <= s.len() && cap_ok(converter, s.subrange(pos, pos + k)) {
            m_at(segs, branch, s, i + 1, pos + k)
        } else {
            SpecMatch::NoMatch
        };
        if !(attempt is NoMatch) {
            with_cap(s.subrange(pos, pos + k), attempt)
        } else {
            m_greedy(segs, branch, s, i, pos, k - 1)
        }
    }
}

/// Lazy capture: try length `k`, then ever longer ones up to the rest
/// of the path.
pub open spec fn m_lazy(
    segs: Seq<SegV>,
    branch: bool,
    s: Seq<char>,
    i: int,
    pos: int,
    k: int,
) -> SpecMatch
    decreases segs.len() - i, 0int, s.len() - pos - k,
{
    if i < 0 || i >= segs.len() || !(segs[i] is Variable) || k < 1 || pos < 0 || pos + k > s.len() {
        SpecMatch::NoMatch
    } else {
        let converter = segs[i]->Variable_converter;
        let attempt = if cap_ok(converter, s.subrange(pos, pos + k)) {
            m_at(segs, branch, s, i + 1, pos + k)
        } else {
            SpecMatch::NoMatch
        };
        if !(attempt is NoMatch) {
            with_cap(s.subrange(pos, pos + k), attempt)
        } else if pos + k < s.len() {
            m_lazy(segs, branch, s, i, pos, k + 1)
        } else {
            SpecMatch::NoMatch
        }
    }
}

/// The capture names of the placeholder segments, in order.
pub open spec fn var_names(segs: Seq<SegV>) -> Seq<Seq<char>>
    decreases segs.len(),
{
    if segs.len() == 0 {
        Seq::empty()
    } else {
        var_names(segs.drop_last()) + (match segs.last() {
            SegV::Variable { converter, name } => seq![name],
            SegV::Literal(_) => Seq::empty(),
        })
    }
}

/// A successful match captures one value per placeholder from segment
/// `i` on.
pub proof fn lemma_caps_count(segs: Seq<SegV>, branch: bool, s: Seq<char>, i: int, pos: int)
    requires
        0 <= i <= segs.len(),
    ensures
        match m_at(segs, branch, s, i, pos) {
            SpecMatch::Hit(caps) => caps.len() == var_names(segs.skip(i)).len(),
            _ => true,
        },
    decreases segs.len() - i, 1int, 0int,
{
    if i < segs.len() {
        match segs[i] {
            SegV::Literal(l) => {
                if spec_matches_at(s, pos, l) {
                    lemma_caps_count(segs, branch, s, i + 1, pos + l.len());
                    lemma_var_names_skip(segs, i);
                }
            },
            SegV::Variable { converter, name } => {
                if is_lazy(converter) {
                    lemma_caps_count_lazy(segs, branch, s, i, pos, 1);
                } else {
                    lemma_caps_count_greedy(segs, branch, s, i, pos, s.len() - pos);
                }
            },
        }
    } else {
        assert(segs.skip(i) =~= Seq::<SegV>::empty());
    }
}

proof fn lemma_caps_count_greedy(
    segs: Seq<SegV>,
    branch: bool,
    s: Seq<char>,
    i: int,
    pos: int,
    k: int,
)
    requires
        0 <= i < segs.len(),
        segs[i] is Variable,
    ensures
        match m_greedy(segs, branch, s, i, pos, k) {
            SpecMatch::Hit(caps) => caps.len() == var_names(segs.skip(i)).len(),
            _ => true,
        },
    decreases segs.len() - i, 0int, k,
{
    if !(k < 1 || pos < 0) {
        let converter = segs[i]->Variable_converter;
        let attempt = if pos + k <= s.len() && cap_ok(converter, s.subrange(pos, pos + k)) {
            m_at(segs, branch, s, i + 1, pos + k)
        } else {
            SpecMatch::NoMatch
        };
        if !(attempt is NoMatch) {
            lemma_caps_count(segs, branch, s, i + 1, pos + k);
            lemma_var_names_skip(segs, i);
        } else {
            lemma_caps_count_greedy(segs, branch, s, i, pos, k - 1);
        }
    }
}

proof fn lemma_caps_count_lazy(
    segs: Seq<SegV>,
    branch: bool,
    s: Seq<char>,
    i: int,
    pos: int,
    k: int,
)
    requires
        0 <= i < segs.len(),
        segs[i] is Variable,
    ensures
        match m_lazy(segs, branch, s, i, pos, k) {
            SpecMatch::Hit(caps) => caps.len() == var_names(segs.skip(i)).len(),
            _ => true,
        },
    decreases segs.len() - i, 0int, s.len() - pos - k,
{
    if !(k < 1 || pos < 0 || pos + k > s.len()) {
        let converter = segs[i]->Variable_converter;
        let attempt = if cap_ok(converter, s.subrange(pos, pos + k)) {
            m_at(segs, branch, s, i + 1, pos + k)
        } else {
            SpecMatch::NoMatch
        };
        if !(attempt is NoMatch) {
            lemma_caps_count(segs, branch, s, i + 1, pos + k);
            lemma_var_names_skip(segs, i);
        } else if pos + k < s.len() {
            lemma_caps_count_lazy(segs, branch, s, i, pos, k + 1);
        }
    }
}

/// The capture names from segment `i` on are the segment `i` name (when
/// it is a placeholder) followed by the names from `i + 1` on.
pub proof fn lemma_var_names_skip(segs: Seq<SegV>, i: int)
    requires
        0 <= i < segs.len(),
    ensures
        var_names(segs.skip(i)) == (match segs[i] {
            SegV::Variable { converter, name } => seq![name],
            SegV::Literal(_) => Seq::<Seq<char>>::empty(),
        }) + var_names(segs.skip(i + 1)),
    decreases segs.len(),
{
    let t = segs.skip(i);
    if i + 1 == segs.len() {
        assert(t.drop_last() =~= Seq::<SegV>::empty());
        assert(segs.skip(i + 1) =~= Seq::<SegV>::empty());
        assert(t.last() == segs[i]);
        assert(var_names(t) =~= (match segs[i] {
            SegV::Variable { converter, name } => seq![name],
            SegV::Literal(_) => Seq::<Seq<char>>::empty(),
        }) + var_names(segs.skip(i + 1)));
    } else {
        lemma_var_names_skip(segs.drop_last(), i);
        assert(segs.drop_last().skip(i) =~= segs.skip(i).drop_last());
        assert(segs.drop_last().skip(i + 1) =~= segs.skip(i + 1).drop_last());
        assert(segs.drop_last()[i] == segs[i]);
        let head: Seq<Seq<char>> = match segs[i] {
            SegV::Variable { converter, name } => seq![name],
            SegV::Literal(_) => Seq::<Seq<char>>::empty(),
        };
        assert(var_names(segs.skip(i).drop_last()) == head + var_names(
            segs.skip(i + 1).drop_last(),
        ));
        let tail_last: Seq<Seq<char>> = match segs.last() {
            SegV::Variable { converter, name } => seq![name],
            SegV::Literal(_) => Seq::<Seq<char>>::empty(),
        };
        assert(segs.skip(i).last() == segs.last());
        assert(segs.skip(i + 1).last() == segs.last());
        assert(var_names(segs.skip(i)) == var_names(segs.skip(i).drop_last()) + tail_last);
        assert(var_names(segs.skip(i + 1)) == var_names(segs.skip(i + 1).drop_last()) + tail_last);
        assert(head + (var_names(segs.skip(i + 1).drop_last()) + tail_last) =~= (head + var_names(
            segs.skip(i + 1).drop_last(),
        )) + tail_last);
    }
}

/// The exec-side outcome of a match.
pub enum MatchResult {
    NoMatch,
    Hit(Vec<String>),
    Slash,
}

impl View for MatchResult {
    type V = SpecMatch;

    open spec fn view(&self) -> SpecMatch {
        match self {
            MatchResult::NoMatch => SpecMatch::NoMatch,
            MatchResult::Hit(caps) => SpecMatch::Hit(caps@.map_values(|c: String| c@)),
            MatchResult::Slash => SpecMatch::Slash,
        }
    }
}

/// Whether the converter accepts `s[pos..pos+k]`.
fn cap_check(c: Converter, s: &str, pos: usize, k: usize) -> (r: bool)
    requires
        pos + k <= s@.len(),
    ensures
        r == cap_ok(c, s@.subrange(pos as int, pos + k)),
{
    let sl = s.unicode_len();
    let ghost sub = s@.subrange(pos as int, pos + k);
    match c {
        Converter::Str => {
            if k == 0 {
                return false;
            }
            let mut j: usize = 0;
            while j < k
                invariant
                    c is Str,
                    j <= k,
                    0 < k,
                    pos + k <= sl,
                    sl == s@.len(),
                    sub == s@.subrange(pos as int, pos + k),
                    forall|x: int| 0 <= x < j ==> sub[x] != '/',
                decreases k - j,
            {
                if s.get_char(pos + j) == '/' {
                    proof {
                        assert(sub[j as int] == '/');
                        if cap_ok(Converter::Str, sub) {
                            assert(sub[j as int] != '/');
                        }
                    }
                    return false;
                }
                j += 1;
            }
            true
        },
        Converter::Int => {
            if k == 0 {
                return false;
            }
            let mut j: usize = 0;
            while j < k
                invariant
                    c is Int,
                    j <= k,
                    0 < k,
                    pos + k <= sl,
                    sl == s@.len(),
                    sub == s@.subrange(pos as int, pos + k),
                    forall|x: int| 0 <= x < j ==> spec_is_digit(sub[x]),
                decreases k - j,
            {
                let ch = s.get_char(pos + j);
                if !('0' <= ch && ch <= '9') {
                    proof {
                        assert(!spec_is_digit(sub[j as int]));
                        if cap_ok(Converter::Int, sub) {
                            assert(spec_is_digit(sub[j as int]));
                        }
                    }
                    return false;
                }
                j += 1;
            }
            true
        },
        Converter::Float => cap_check_float(s, pos, k),
        Converter::Path => {
            if k == 0 {
                return false;
            }
            let first = s.get_char(pos);
            proof {
                assert(sub[0] == s@[pos as int]);
            }
            first != '/'
        },
    }
}

/// Whether `s[pos..pos+k]` has the shape digits, one dot, digits.
fn cap_check_float(s: &str, pos: usize, k: usize) -> (r: bool)
    requires
        pos + k <= s@.len(),
    ensures
        r == cap_ok(Converter::Float, s@.subrange(pos as int, pos + k)),
{
    let sl = s.unicode_len();
    let ghost sub = s@.subrange(pos as int, pos + k);
    let mut dot: usize = k;
    let mut j: usize = 0;
    while j < k
        invariant
            j <= k,
            dot == k || 1 <= dot < j,
            pos + k <= sl,
            sl == s@.len(),
            sub == s@.subrange(pos as int, pos + k),
            dot == k ==> forall|x: int| 0 <= x < j ==> spec_is_digit(sub[x]),
            dot < k ==> sub[dot as int] == '.' && (forall|x: int|
                0 <= x < dot ==> spec_is_digit(sub[x])) && (forall|x: int|
                dot < x < j ==> spec_is_digit(sub[x])),
        decreases k - j,
    {
        let ch = s.get_char(pos + j);
        proof {
            assert(sub[j as int] == s@[pos + j]);
        }
        if ch == '.' {
            if dot < k {
                // a second dot: the float shape admits exactly one
                proof {
                    let d = dot as int;
                    if cap_ok(Converter::Float, sub) {
                        let w = choose|w: int|
                            1 <= w <= sub.len() - 2 && sub[w] == '.' && (forall|x: int|
                                0 <= x < w ==> spec_is_digit(sub[x])) && (forall|x: int|
                                w < x < sub.len() ==> spec_is_digit(sub[x]));
                        assert(!spec_is_digit('.'));
                        if w < d {
                            assert(spec_is_digit(sub[d]));
                        } else if w > d {
                            assert(spec_is_digit(sub[d]));
                        } else {
                            assert(spec_is_digit(sub[j as int]));
                        }
                        assert(false);
                    }
                }
                return false;
            }
            if j == 0 {
                proof {
                    if cap_ok(Converter::Float, sub) {
                        let w = choose|w: int|
                            1 <= w <= sub.len() - 2 && sub[w] == '.' && (forall|x: int|
                                0 <= x < w ==> spec_is_digit(sub[x])) && (forall|x: int|
                                w < x < sub.len() ==> spec_is_digit(sub[x]));
                        assert(spec_is_digit(sub[0]));
                        assert(!spec_is_digit('.'));
                        assert(false);
                    }
                }
                return false;
            }
            dot = j;
        } else if !('0' <= ch && ch <= '9') {
            proof {
                let b = j as int;
                if cap_ok(Converter::Float, sub) {
                    let w = choose|w: int|
                        1 <= w <= sub.len() - 2 && sub[w] == '.' && (forall|x: int|
                            0 <= x < w ==> spec_is_digit(sub[x])) && (forall|x: int|
                            w < x < sub.len() ==> spec_is_digit(sub[x]));
                    assert(sub[b] != '.' && !spec_is_digit(sub[b]));
                    if b < w {
                        assert(spec_is_digit(sub[b]));
                    } else if b > w {
                        assert(spec_is_digit(sub[b]));
                    }
                    assert(false);
                }
            }
            return false;
        }
        j += 1;
    }
    if dot == k {
        // no dot at all
        proof {
            if cap_ok(Converter::Float, sub) {
                let w = choose|w: int|
                    1 <= w <= sub.len() - 2 && sub[w] == '.' && (forall|x: int|
                        0 <= x < w ==> spec_is_digit(sub[x])) && (forall|x: int|
                        w < x < sub.len() ==> spec_is_digit(sub[x]));
                assert(spec_is_digit(sub[w]));
                assert(!spec_is_digit('.'));
                assert(false);
            }
        }
        return false;
    }
    if dot == k - 1 {
        // the dot is the last character: no digits after it
        proof {
            let d = dot as int;
            if cap_ok(Converter::Float, sub) {
                let w = choose|w: int|
                    1 <= w <= sub.len() - 2 && sub[w] == '.' && (forall|x: int|
                        0 <= x < w ==> spec_is_digit(sub[x])) && (forall|x: int|
                        w < x < sub.len() ==> spec_is_digit(sub[x]));
                assert(!spec_is_digit('.'));
                if w < d {
                    assert(spec_is_digit(sub[d]));
                }
                assert(false);
            }
        }
        return false;
    }
    proof {
        let d = dot as int;
        assert(1 <= d <= sub.len() - 2);
        assert(sub[d] == '.');
        assert(forall|x: int| 0 <= x < d ==> spec_is_digit(sub[x]));
        assert(forall|x: int| d < x < sub.len() ==> spec_is_digit(sub[x]));
        assert(cap_ok(Converter::Float, sub));
    }
    true
}

/// Match segments `i..` against `s[pos..]`, mirroring [`m_at`].
fn match_at(segs: &Vec<Seg>, branch: bool, s: &str, i: usize, pos: usize) -> (r: MatchResult)
    requires
        i <= segs@.len(),
        pos <= s@.len(),
    ensures
        r@ == m_at(segs@.map_values(|g: Seg| g@), branch, s@, i as int, pos as int),
    decreases segs@.len() - i, 1int, 0int,
{
    let ghost sv = segs@.map_values(|g: Seg| g@);
    let slen = s.unicode_len();
    if i >= segs.len() {
        if branch {
            if pos == slen {
                MatchResult::Slash
            } else if slen - pos == 1 && s.get_char(pos) == '/' {
                proof {
                    assert(Seq::<String>::empty().map_values(|c: String| c@) =~= Seq::<
                        Seq<char>,
                    >::empty());
                }
                MatchResult::Hit(Vec::new())
            } else {
                MatchResult::NoMatch
            }
        } else {
            if pos == slen {
                proof {
                    assert(Seq::<String>::empty().map_values(|c: String| c@) =~= Seq::<
                        Seq<char>,
                    >::empty());
                }
                MatchResult::Hit(Vec::new())
            } else {
                MatchResult::NoMatch
            }
        }
    } else {
        let seg = &segs[i];
        match seg {
            Seg::Literal(l) => {
                let ll = l.as_str().unicode_len();
                if matches_at(s, pos, l.as_str()) {
                    match_at(segs, branch, s, i + 1, pos + ll)
                } else {
                    MatchResult::NoMatch
                }
            },
            Seg::Variable { converter, name } => {
                if matches!(converter, Converter::Path) {
                    proof {
                        assert(is_lazy(sv[i as int]->Variable_converter));
                    }
                    match_lazy(segs, branch, s, i, pos, 1)
                } else {
                    proof {
                        assert(!is_lazy(sv[i as int]->Variable_converter));
                    }
                    match_greedy(segs, branch, s, i, pos, slen - pos)
                }
            },
        }
    }
}

/// Mirror of [`m_greedy`].
fn match_greedy(segs: &Vec<Seg>, branch: bool, s: &str, i: usize, pos: usize, k: usize) -> (r:
    MatchResult)
    requires
        i < segs@.len(),
        segs@[i as int]@ is Variable,
        pos <= s@.len(),
    ensures
        r@ == m_greedy(segs@.map_values(|g: Seg| g@), branch, s@, i as int, pos as int, k as int),
    decreases segs@.len() - i, 0int, k,
{
    if k < 1 {
        return MatchResult::NoMatch;
    }
    let n = segs.len();
    let seg = &segs[i];
    let converter = match seg {
        Seg::Variable { converter, name } => *converter,
        Seg::Literal(_) => Converter::Str,
    };
    let slen = s.unicode_len();
    let mut attempt = MatchResult::NoMatch;
    if k <= slen - pos {
        if cap_check(converter, s, pos, k) {
            attempt = match_at(segs, branch, s, i + 1, pos + k);
        }
    }
    match attempt {
        MatchResult::NoMatch => match_greedy(segs, branch, s, i, pos, k - 1),
        MatchResult::Slash => MatchResult::Slash,
        MatchResult::Hit(caps) => {
            let cap = s.substring_char(pos, pos + k).to_owned();
            let mut caps = caps;
            let ghost oldcaps = caps@;
            caps.insert(0, cap);
            proof {
                let sub = s@.subrange(pos as int, pos + k);
                assert(caps@ =~= seq![cap] + oldcaps);
                assert(caps@.map_values(|c: String| c@) =~= seq![sub] + oldcaps.map_values(
                    |c: String| c@,
                ));
            }
            MatchResult::Hit(caps)
        },
    }
}

/// Mirror of [`m_lazy`].
fn match_lazy(segs: &Vec<Seg>, branch: bool, s: &str, i: usize, pos: usize, k: usize) -> (r:
    MatchResult)
    requires
        i < segs@.len(),
        segs@[i as int]@ is Variable,
        pos <= s@.len(),
        k >= 1,
    ensures
        r@ == m_lazy(segs@.map_values(|g: Seg| g@), branch, s@, i as int, pos as int, k as int),
    decreases segs@.len() - i, 0int, s@.len() - pos - k,
{
    let n = segs.len();
    let slen = s.unicode_len();
    if k > slen - pos {
        return MatchResult::NoMatch;
    }
    let seg = &segs[i];
    let converter = match seg {
        Seg::Variable { converter, name } => *converter,
        Seg::Literal(_) => Converter::Str,
    };
    let mut attempt = MatchResult::NoMatch;
    if cap_check(converter, s, pos, k) {
        attempt = match_at(segs, branch, s, i + 1, pos + k);
    }
    match attempt {
        MatchResult::NoMatch => {
            if k < slen - pos {
                match_lazy(segs, branch, s, i, pos, k + 1)
            } else {
                MatchResult::NoMatch
            }
        },
        MatchResult::Slash => MatchResult::Slash,
        MatchResult::Hit(caps) => {
            let cap = s.substring_char(pos, pos + k).to_owned();
            let mut caps = caps;
            let ghost oldcaps = caps@;
            caps.insert(0, cap);
            proof {
                let sub = s@.subrange(pos as int, pos + k);
                assert(caps@ =~= seq![cap] + oldcaps);
                assert(caps@.map_values(|c: String| c@) =~= seq![sub] + oldcaps.map_values(
                    |c: String| c@,
                ));
            }
            MatchResult::Hit(caps)
        },
    }
}


/// The index of the first occurrence of `c` in `t`, or `t.len()`.
pub open spec fn idx_of(t: Seq<char>, c: char) -> int
    decreases t.len(),
{
    if t.len() == 0 {
        0
    } else if t[0] == c {
        0
    } else {
        1 + idx_of(t.drop_first(), c)
    }
}

/// `idx_of` finds the first occurrence, and stays within the string.
pub proof fn lemma_idx_of(t: Seq<char>, c: char)
    ensures
        0 <= idx_of(t, c) <= t.len(),
        idx_of(t, c) < t.len() ==> t[idx_of(t, c)] == c,
        forall|j: int| 0 <= j < idx_of(t, c) ==> t[j] != c,
    decreases t.len(),
{
    if t.len() > 0 && t[0] != c {
        let d = t.drop_first();
        lemma_idx_of(d, c);
        assert(forall|j: int| 0 <= j < d.len() ==> #[trigger] d[j] == t[j + 1]);
        assert forall|j: int| 0 <= j < idx_of(t, c) implies t[j] != c by {
            if j >= 1 {
                assert(d[j - 1] != c);
            }
        }
    }
}

/// Whether `c` may start an identifier.
pub open spec fn spec_ident_start(c: char) -> bool {
    ('a' <= c && c <= 'z') || ('A' <= c && c <= 'Z') || c == '_'
}

/// Whether `c` may continue an identifier.
pub open spec fn spec_ident_char(c: char) -> bool {
    spec_ident_start(c) || ('0' <= c && c <= '9')
}

/// A placeholder or converter name: a letter or underscore followed by
/// letters, digits and underscores.
pub open spec fn spec_ident_ok(s: Seq<char>) -> bool {
    s.len() >= 1 && spec_ident_start(s[0]) && (forall|i: int|
        1 <= i < s.len() ==> spec_ident_char(s[i]))
}

/// The parts of a placeholder: the converter name (when one is given
/// before a colon) and the capture name.
pub open spec fn spec_placeholder(inner: Seq<char>) -> Option<(Option<Seq<char>>, Seq<char>)> {
    let colon = idx_of(inner, ':');
    if colon == inner.len() {
        if spec_ident_ok(inner) {
            Some((None, inner))
        } else {
            None
        }
    } else {
        let conv = inner.subrange(0, colon);
        let name = inner.skip(colon + 1);
        if spec_ident_ok(conv) && spec_ident_ok(name) {
            Some((Some(conv), name))
        } else {
            None
        }
    }
}

/// A parsed but not yet resolved rule segment: literal text, or a
/// placeholder with an optional converter name.
pub enum RawSeg {
    Lit(String),
    Ph(Option<String>, String),
}

/// The view of a raw segment.
pub enum RawSegV {
    Lit(Seq<char>),
    Ph(Option<Seq<char>>, Seq<char>),
}

impl View for RawSeg {
    type V = RawSegV;

    open spec fn view(&self) -> RawSegV {
        match self {
            RawSeg::Lit(l) => RawSegV::Lit(l@),
            RawSeg::Ph(c, n) => RawSegV::Ph(
                match c {
                    Some(cv) => Some(cv@),
                    None => None,
                },
                n@,
            ),
        }
    }
}

/// Why a rule string cannot be compiled.
#[derive(Debug)]
pub enum RuleError {
    /// The rule does not start with a leading slash.
    NoLeadingSlash,
    /// A stray `<` or `>` remains unconsumed, or a placeholder is not
    /// well formed.
    Malformed,
    /// The named converter does not exist.
    UnknownConverter(String),
    /// The placeholder name is used twice.
    DuplicateVariable(String),
    /// A module endpoint carries the separator that joins module name
    /// and endpoint.
    SeparatorInEndpoint,
}

/// The view of a rule error.
pub enum RuleErrorV {
    NoLeadingSlash,
    Malformed,
    UnknownConverter(Seq<char>),
    DuplicateVariable(Seq<char>),
    SeparatorInEndpoint,
}

impl View for RuleError {
    type V = RuleErrorV;

    open spec fn view(&self) -> RuleErrorV {
        match self {
            RuleError::NoLeadingSlash => RuleErrorV::NoLeadingSlash,
            RuleError::Malformed => RuleErrorV::Malformed,
            RuleError::UnknownConverter(n) => RuleErrorV::UnknownConverter(n@),
            RuleError::DuplicateVariable(n) => RuleErrorV::DuplicateVariable(n@),
            RuleError::SeparatorInEndpoint => RuleErrorV::SeparatorInEndpoint,
        }
    }
}

/// Parse a rule string into raw segments: literal text up to each `<`,
/// a placeholder up to the closing `>`, and so on.  `used` holds the
/// placeholder names already taken.
pub open spec fn spec_parse(t: Seq<char>, used: Seq<Seq<char>>) -> Result<Seq<RawSegV>, RuleErrorV>
    decreases t.len(),
    via spec_parse_decreases
{
    if t.len() == 0 {
        Ok(Seq::empty())
    } else {
        let lt = idx_of(t, '<');
        if lt == t.len() {
            if idx_of(t, '>') < t.len() {
                Err(RuleErrorV::Malformed)
            } else {
                Ok(seq![RawSegV::Lit(t)])
            }
        } else {
            let lit = t.subrange(0, lt);
            let rest = t.skip(lt + 1);
            let gt = idx_of(rest, '>');
            if gt == rest.len() {
                Err(RuleErrorV::Malformed)
            } else {
                let inner = rest.subrange(0, gt);
                match spec_placeholder(inner) {
                    None => Err(RuleErrorV::Malformed),
                    Some((conv, name)) => {
                        if used.contains(name) {
                            Err(RuleErrorV::DuplicateVariable(name))
                        } else {
                            match spec_parse(rest.skip(gt + 1), used.push(name)) {
                                Err(e) => Err(e),
                                Ok(tail) => Ok(
                                    (if lit.len() > 0 {
                                        seq![RawSegV::Lit(lit)]
                                    } else {
                                        Seq::<RawSegV>::empty()
                                    }) + seq![RawSegV::Ph(conv, name)] + tail,
                                ),
                            }
                        }
                    },
                }
            }
        }
    }
}

#[via_fn]
proof fn spec_parse_decreases(t: Seq<char>, used: Seq<Seq<char>>) {
    if t.len() > 0 {
        lemma_idx_of(t, '<');
        let lt = idx_of(t, '<');
        if lt < t.len() {
            let rest = t.skip(lt + 1);
            lemma_idx_of(rest, '>');
        }
    }
}

/// The converter a placeholder names; `None` when no such converter
/// exists.
pub open spec fn spec_converter(name: Option<Seq<char>>) -> Option<Converter> {
    match name {
        None => Some(Converter::Str),
        Some(n) => if n == "string"@ || n == "default"@ {
            Some(Converter::Str)
        } else if n == "int"@ {
            Some(Converter::Int)
        } else if n == "float"@ {
            Some(Converter::Float)
        } else if n == "path"@ {
            Some(Converter::Path)
        } else {
            None
        },
    }
}

/// Resolve the converter names of raw segments, left to right.
pub open spec fn spec_resolve(raw: Seq<RawSegV>) -> Result<Seq<SegV>, RuleErrorV>
    decreases raw.len(),
{
    if raw.len() == 0 {
        Ok(Seq::empty())
    } else {
        let head = match raw[0] {
            RawSegV::Lit(l) => Ok(SegV::Literal(l)),
            RawSegV::Ph(None, n) => Ok(SegV::Variable { converter: Converter::Str, name: n }),
            RawSegV::Ph(Some(cn), n) => match spec_converter(Some(cn)) {
                Some(cv) => Ok(SegV::Variable { converter: cv, name: n }),
                None => Err(RuleErrorV::UnknownConverter(cn)),
            },
        };
        match head {
            Err(e) => Err(e),
            Ok(h) => match spec_resolve(raw.drop_first()) {
                Err(e) => Err(e),
                Ok(tail) => Ok(seq![h] + tail),
            },
        }
    }
}

/// The compiled form of a rule string: its segments and whether the
/// rule is a branch (its string ended in a slash).
pub open spec fn spec_compile(t: Seq<char>) -> Result<(Seq<SegV>, bool), RuleErrorV> {
    if !(t.len() >= 1 && t[0] == '/') {
        Err(RuleErrorV::NoLeadingSlash)
    } else {
        match spec_parse(crate::utils::spec_trim_right(t, '/'), Seq::empty()) {
            Err(e) => Err(e),
            Ok(raw) => match spec_resolve(raw) {
                Err(e) => Err(e),
                Ok(segs) => Ok((segs, t[t.len() - 1] == '/')),
            },
        }
    }
}


/// The placeholder names of raw segments, in order.
pub open spec fn ph_names(raw: Seq<RawSegV>) -> Seq<Seq<char>>
    decreases raw.len(),
{
    if raw.len() == 0 {
        Seq::empty()
    } else {
        (match raw[0] {
            RawSegV::Ph(c, n) => seq![n],
            RawSegV::Lit(_) => Seq::<Seq<char>>::empty(),
        }) + ph_names(raw.drop_first())
    }
}

/// Placeholder names distribute over concatenation.
proof fn lemma_ph_names_concat(a: Seq<RawSegV>, b: Seq<RawSegV>)
    ensures
        ph_names(a + b) == ph_names(a) + ph_names(b),
    decreases a.len(),
{
    if a.len() == 0 {
        assert(a + b =~= b);
        assert(ph_names(a) + ph_names(b) =~= ph_names(b));
    } else {
        lemma_ph_names_concat(a.drop_first(), b);
        assert((a + b).drop_first() =~= a.drop_first() + b);
        assert((a + b)[0] == a[0]);
        let h: Seq<Seq<char>> = match a[0] {
            RawSegV::Ph(c, n) => seq![n],
            RawSegV::Lit(_) => Seq::<Seq<char>>::empty(),
        };
        assert(ph_names(a + b) == h + (ph_names(a.drop_first()) + ph_names(b)));
        assert(h + (ph_names(a.drop_first()) + ph_names(b)) =~= (h + ph_names(a.drop_first()))
            + ph_names(b));
    }
}

/// A successful parse never produces a placeholder name twice, nor one
/// of the names already taken.
proof fn lemma_parse_distinct(t: Seq<char>, used: Seq<Seq<char>>)
    ensures
        match spec_parse(t, used) {
            Ok(raw) => {
                let ns = ph_names(raw);
                (forall|i: int, j: int| 0 <= i < j < ns.len() ==> ns[i] != ns[j]) && (forall|i: int|
                    0 <= i < ns.len() ==> !used.contains(ns[i]))
            },
            Err(_) => true,
        },
    decreases t.len(),
{
    reveal_with_fuel(ph_names, 3);
    lemma_idx_of(t, '<');
    if t.len() == 0 {
    } else {
        let lt = idx_of(t, '<');
        if lt == t.len() {
            if !(idx_of(t, '>') < t.len()) {
                let raw = seq![RawSegV::Lit(t)];
                assert(raw.drop_first() =~= Seq::<RawSegV>::empty());
                assert(ph_names(raw) =~= Seq::<Seq<char>>::empty());
            }
        } else {
            let lit = t.subrange(0, lt);
            let rest = t.skip(lt + 1);
            lemma_idx_of(rest, '>');
            let gt = idx_of(rest, '>');
            if gt != rest.len() {
                let inner = rest.subrange(0, gt);
                match spec_placeholder(inner) {
                    None => {},
                    Some((conv, name)) => {
                        if !used.contains(name) {
                            lemma_parse_distinct(rest.skip(gt + 1), used.push(name));
                            match spec_parse(rest.skip(gt + 1), used.push(name)) {
                                Err(_) => {},
                                Ok(tail) => {
                                    let pre: Seq<RawSegV> = if lit.len() > 0 {
                                        seq![RawSegV::Lit(lit)]
                                    } else {
                                        Seq::<RawSegV>::empty()
                                    };
                                    let raw = pre + seq![RawSegV::Ph(conv, name)] + tail;
                                    lemma_ph_names_concat(pre + seq![RawSegV::Ph(conv, name)], tail);
                                    lemma_ph_names_concat(pre, seq![RawSegV::Ph(conv, name)]);
                                    let single = seq![RawSegV::Ph(conv, name)];
                                    assert(single.drop_first() =~= Seq::<RawSegV>::empty());
                                    assert(ph_names(single) =~= seq![name]);
                                    if pre.len() > 0 {
                                        assert(pre.drop_first() =~= Seq::<RawSegV>::empty());
                                        assert(ph_names(pre) =~= Seq::<Seq<char>>::empty());
                                    } else {
                                        assert(ph_names(pre) =~= Seq::<Seq<char>>::empty());
                                    }
                                    let tn = ph_names(tail);
                                    assert(ph_names(raw) =~= seq![name] + tn);
                                    let ns = ph_names(raw);
                                    assert(ns[0] == name);
                                    assert(forall|i: int| 1 <= i < ns.len() ==> ns[i] == tn[i - 1]);
                                    assert forall|i: int, j: int|
                                        0 <= i < j < ns.len() implies ns[i] != ns[j] by {
                                        if i == 0 {
                                            assert(!used.push(name).contains(tn[j - 1]));
                                            assert(used.push(name)[used.len() as int] == name);
                                            if tn[j - 1] == name {
                                                assert(used.push(name).contains(tn[j - 1]));
                                            }
                                        }
                                    }
                                    assert forall|i: int| 0 <= i < ns.len() implies !used.contains(
                                        ns[i],
                                    ) by {
                                        if i >= 1 {
                                            assert(!used.push(name).contains(tn[i - 1]));
                                            if used.contains(tn[i - 1]) {
                                                let w = choose|w: int|
                                                    0 <= w < used.len() && used[w] == tn[i - 1];
                                                assert(used.push(name)[w] == tn[i - 1]);
                                            }
                                        }
                                    }
                                },
                            }
                        }
                    },
                }
            }
        }
    }
}

/// Resolving converters keeps the placeholder names.
proof fn lemma_resolve_names(raw: Seq<RawSegV>)
    ensures
        match spec_resolve(raw) {
            Ok(segs) => var_names(segs) == ph_names(raw),
            Err(_) => true,
        },
    decreases raw.len(),
{
    if raw.len() > 0 {
        lemma_resolve_names(raw.drop_first());
        match spec_resolve(raw) {
            Err(_) => {},
            Ok(segs) => {
                match spec_resolve(raw.drop_first()) {
                    Err(_) => {},
                    Ok(tail) => {
                        let h = match raw[0] {
                            RawSegV::Lit(l) => SegV::Literal(l),
                            RawSegV::Ph(None, n) => SegV::Variable {
                                converter: Converter::Str,
                                name: n,
                            },
                            RawSegV::Ph(Some(cn), n) => SegV::Variable {
                                converter: spec_converter(Some(cn))->0,
                                name: n,
                            },
                        };
                        assert(segs == seq![h] + tail);
                        assert(segs.len() >= 1);
                        if segs.len() == 1 {
                            assert(tail =~= Seq::<SegV>::empty());
                            assert(var_names(tail) =~= Seq::<Seq<char>>::empty());
                            assert(segs.drop_last() =~= Seq::<SegV>::empty());
                            assert(var_names(segs.drop_last()) =~= Seq::<Seq<char>>::empty());
                            assert(segs.last() == h);
                            assert(raw.drop_first() =~= Seq::<RawSegV>::empty());
                            assert(ph_names(raw.drop_first()) =~= Seq::<Seq<char>>::empty());
                            assert(var_names(segs) =~= ph_names(raw));
                        } else {
                            lemma_var_names_skip(segs, 0);
                            assert(segs.skip(0) =~= segs);
                            assert(segs.skip(1) =~= tail);
                            assert(segs[0] == h);
                            assert(var_names(segs) == (match h {
                                SegV::Variable { converter, name } => seq![name],
                                SegV::Literal(_) => Seq::<Seq<char>>::empty(),
                            }) + var_names(tail));
                            assert(var_names(segs) =~= ph_names(raw));
                        }
                    },
                }
            },
        }
    }
}

/// Whether `c` may start an identifier.
fn ident_start(c: char) -> (r: bool)
    ensures
        r == spec_ident_start(c),
{
    ('a' <= c && c <= 'z') || ('A' <= c && c <= 'Z') || c == '_'
}

/// Whether `c` may continue an identifier.
fn ident_char(c: char) -> (r: bool)
    ensures
        r == spec_ident_char(c),
{
    ident_start(c) || ('0' <= c && c <= '9')
}

/// First occurrence of `c` in `t` at or after `pos`, or the length.
fn find_from(t: &str, pos: usize, c: char) -> (r: usize)
    requires
        pos <= t@.len(),
    ensures
        pos <= r <= t@.len(),
        r - pos == idx_of(t@.skip(pos as int), c),
{
    let ghost u = t@.skip(pos as int);
    proof {
        lemma_idx_of(u, c);
    }
    let tlen = t.unicode_len();
    let mut i: usize = pos;
    while i < tlen
        invariant
            pos <= i <= tlen,
            tlen == t@.len(),
            u == t@.skip(pos as int),
            forall|j: int| pos <= j < i ==> t@[j] != c,
        decreases tlen - i,
    {
        if t.get_char(i) == c {
            proof {
                lemma_idx_of(u, c);
                let r0 = idx_of(u, c);
                assert(u[i - pos] == t@[i as int]);
                assert(forall|j: int| 0 <= j < i - pos ==> u[j] == t@[j + pos] && t@[j + pos] != c);
                if r0 < i - pos {
                    assert(u[r0] == c);
                }
                if r0 > i - pos {
                    assert(u[i - pos] != c);
                }
            }
            return i;
        }
        i += 1;
    }
    proof {
        lemma_idx_of(u, c);
        let r0 = idx_of(u, c);
        if r0 < u.len() {
            assert(u[r0] == c);
            assert(u[r0] == t@[r0 + pos]);
        }
    }
    tlen
}

/// First occurrence of `c` in `t[from..to]`, or `to`.
fn find_in(t: &str, from: usize, to: usize, c: char) -> (r: usize)
    requires
        from <= to <= t@.len(),
    ensures
        from <= r <= to,
        r - from == idx_of(t@.subrange(from as int, to as int), c),
{
    let ghost u = t@.subrange(from as int, to as int);
    let mut i: usize = from;
    while i < to
        invariant
            from <= i <= to <= t@.len(),
            u == t@.subrange(from as int, to as int),
            forall|j: int| from <= j < i ==> t@[j] != c,
        decreases to - i,
    {
        if t.get_char(i) == c {
            proof {
                lemma_idx_of(u, c);
                let r0 = idx_of(u, c);
                assert(u[i - from] == t@[i as int]);
                assert(forall|j: int|
                    0 <= j < i - from ==> u[j] == t@[j + from] && t@[j + from] != c);
                if r0 < i - from {
                    assert(u[r0] == c);
                }
                if r0 > i - from {
                    assert(u[i - from] != c);
                }
            }
            return i;
        }
        i += 1;
    }
    proof {
        lemma_idx_of(u, c);
        let r0 = idx_of(u, c);
        if r0 < u.len() {
            assert(u[r0] == c);
            assert(u[r0] == t@[r0 + from]);
        }
    }
    to
}

/// Whether `t[from..to]` is an identifier.
fn is_ident(t: &str, from: usize, to: usize) -> (r: bool)
    requires
        from <= to <= t@.len(),
    ensures
        r == spec_ident_ok(t@.subrange(from as int, to as int)),
{
    let ghost u = t@.subrange(from as int, to as int);
    if from == to {
        return false;
    }
    if !ident_start(t.get_char(from)) {
        proof {
            assert(u[0] == t@[from as int]);
        }
        return false;
    }
    let mut i: usize = from + 1;
    while i < to
        invariant
            from < i <= to <= t@.len(),
            u == t@.subrange(from as int, to as int),
            spec_ident_start(u[0]),
            forall|j: int| 1 <= j < i - from ==> spec_ident_char(u[j]),
        decreases to - i,
    {
        if !ident_char(t.get_char(i)) {
            proof {
                assert(u[i - from] == t@[i as int]);
                if spec_ident_ok(u) {
                    assert(spec_ident_char(u[i - from]));
                }
            }
            return false;
        }
        i += 1;
    }
    true
}

/// Whether one of the strings of `v` reads `s`.
fn contains_string(v: &Vec<String>, s: &str) -> (r: bool)
    ensures
        r == crate::utils::strings_view(v@).contains(s@),
{
    let ghost sv = crate::utils::strings_view(v@);
    let mut i: usize = 0;
    while i < v.len()
        invariant
            i <= v@.len(),
            sv == crate::utils::strings_view(v@),
            forall|j: int| 0 <= j < i ==> sv[j] != s@,
        decreases v@.len() - i,
    {
        if crate::utils::str_eq(v[i].as_str(), s) {
            proof {
                assert(sv[i as int] == s@);
            }
            return true;
        }
        proof {
            assert(sv[i as int] == v@[i as int]@);
        }
        i += 1;
    }
    proof {
        if sv.contains(s@) {
            let w = choose|w: int| 0 <= w < sv.len() && sv[w] == s@;
            assert(sv[w] != s@);
        }
    }
    false
}

/// Parse the placeholder text `t[from..to]`.
fn parse_placeholder(t: &str, from: usize, to: usize) -> (r: Option<(Option<String>, String)>)
    requires
        from <= to <= t@.len(),
    ensures
        ({
            let inner = t@.subrange(from as int, to as int);
            match r {
                None => spec_placeholder(inner) is None,
                Some(p) => {
                    &&& spec_placeholder(inner) matches Some(sp)
                    &&& sp.1 == p.1@
                    &&& match (p.0, sp.0) {
                        (Some(cv), Some(scv)) => cv@ == scv,
                        (None, None) => true,
                        _ => false,
                    }
                },
            }
        }),
{
    let ghost inner = t@.subrange(from as int, to as int);
    let colon = find_in(t, from, to, ':');
    if colon == to {
        if is_ident(t, from, to) {
            let name = t.substring_char(from, to).to_owned();
            Some((None, name))
        } else {
            None
        }
    } else {
        proof {
            assert(inner.subrange(0, colon - from) =~= t@.subrange(from as int, colon as int));
            assert(inner.skip(colon - from + 1) =~= t@.subrange(colon + 1, to as int));
        }
        if is_ident(t, from, colon) && is_ident(t, colon + 1, to) {
            let conv = t.substring_char(from, colon).to_owned();
            let name = t.substring_char(colon + 1, to).to_owned();
            Some((Some(conv), name))
        } else {
            None
        }
    }
}

/// Parse the rule text from `pos` on into raw segments.
fn parse_from(t: &str, pos: usize, used: Vec<String>) -> (r: Result<Vec<RawSeg>, RuleError>)
    requires
        pos <= t@.len(),
    ensures
        ({
            let sp = spec_parse(t@.skip(pos as int), crate::utils::strings_view(used@));
            match r {
                Ok(segs) => sp == Ok::<Seq<RawSegV>, RuleErrorV>(
                    segs@.map_values(|g: RawSeg| g@),
                ),
                Err(e) => sp == Err::<Seq<RawSegV>, RuleErrorV>(e@),
            }
        }),
    decreases t@.len() - pos,
{
    let ghost u = t@.skip(pos as int);
    let ghost usedv = crate::utils::strings_view(used@);
    let tlen = t.unicode_len();
    if pos == tlen {
        proof {
            assert(u =~= Seq::<char>::empty());
            assert(Seq::<RawSeg>::empty().map_values(|g: RawSeg| g@) =~= Seq::<RawSegV>::empty());
        }
        return Ok(Vec::new());
    }
    let lt = find_from(t, pos, '<');
    proof {
        lemma_idx_of(u, '<');
    }
    if lt == tlen {
        let gt = find_from(t, pos, '>');
        if gt < tlen {
            return Err(RuleError::Malformed);
        }
        let lit = t.substring_char(pos, tlen).to_owned();
        let mut segs: Vec<RawSeg> = Vec::new();
        segs.push(RawSeg::Lit(lit));
        proof {
            assert(lit@ =~= u);
            assert(segs@.map_values(|g: RawSeg| g@) =~= seq![RawSegV::Lit(u)]);
        }
        return Ok(segs);
    }
    // a placeholder starts at `lt`
    proof {
        assert(u.skip(lt - pos + 1) =~= t@.skip(lt + 1));
    }
    let gt = find_from(t, lt + 1, '>');
    let ghost rest = t@.skip(lt + 1);
    if gt == tlen {
        return Err(RuleError::Malformed);
    }
    proof {
        assert(rest.subrange(0, gt - (lt + 1)) =~= t@.subrange(lt + 1, gt as int));
    }
    match parse_placeholder(t, lt + 1, gt) {
        None => Err(RuleError::Malformed),
        Some((conv, name)) => {
            if contains_string(&used, name.as_str()) {
                return Err(RuleError::DuplicateVariable(name));
            }
            let mut used2 = used;
            let name2 = name.clone();
            used2.push(name2);
            proof {
                assert(crate::utils::strings_view(used2@) =~= usedv.push(name@));
                assert(rest.skip(gt - (lt + 1) + 1) =~= t@.skip(gt + 1));
            }
            match parse_from(t, gt + 1, used2) {
                Err(e) => Err(e),
                Ok(tail) => {
                    let mut segs: Vec<RawSeg> = Vec::new();
                    if lt > pos {
                        let lit = t.substring_char(pos, lt).to_owned();
                        proof {
                            assert(lit@ =~= u.subrange(0, lt - pos));
                        }
                        segs.push(RawSeg::Lit(lit));
                    }
                    segs.push(RawSeg::Ph(conv, name));
                    let mut tail = tail;
                    let ghost segs0 = segs@;
                    let ghost tail0 = tail@;
                    segs.append(&mut tail);
                    proof {
                        let lit_spec = u.subrange(0, lt - pos);
                        let pre: Seq<RawSegV> = if lit_spec.len() > 0 {
                            seq![RawSegV::Lit(lit_spec)]
                        } else {
                            Seq::<RawSegV>::empty()
                        };
                        assert(segs@ =~= segs0 + tail0);
                        assert(segs@.map_values(|g: RawSeg| g@) =~= pre + seq![
                            segs0.last()@,
                        ] + tail0.map_values(|g: RawSeg| g@));
                    }
                    Ok(segs)
                },
            }
        },
    }
}

/// Resolve the converter names of the raw segments from `i` on.
fn resolve_from(raw: &Vec<RawSeg>, i: usize) -> (r: Result<Vec<Seg>, RuleError>)
    requires
        i <= raw@.len(),
    ensures
        ({
            let sp = spec_resolve(raw@.map_values(|g: RawSeg| g@).skip(i as int));
            match r {
                Ok(segs) => sp == Ok::<Seq<SegV>, RuleErrorV>(segs@.map_values(|g: Seg| g@)),
                Err(e) => sp == Err::<Seq<SegV>, RuleErrorV>(e@),
            }
        }),
    decreases raw@.len() - i,
{
    let ghost rv = raw@.map_values(|g: RawSeg| g@);
    if i == raw.len() {
        proof {
            assert(rv.skip(i as int) =~= Seq::<RawSegV>::empty());
            assert(Seq::<Seg>::empty().map_values(|g: Seg| g@) =~= Seq::<SegV>::empty());
        }
        return Ok(Vec::new());
    }
    proof {
        assert(rv.skip(i as int)[0] == rv[i as int]);
        assert(rv.skip(i as int).drop_first() =~= rv.skip(i + 1));
    }
    let head: Seg;
    match &raw[i] {
        RawSeg::Lit(l) => {
            head = Seg::Literal(l.clone());
        },
        RawSeg::Ph(copt, n) => {
            let converter: Converter;
            match copt {
                None => {
                    converter = Converter::Str;
                },
                Some(cn) => {
                    if crate::utils::str_eq(cn.as_str(), "string") || crate::utils::str_eq(
                        cn.as_str(),
                        "default",
                    ) {
                        converter = Converter::Str;
                    } else if crate::utils::str_eq(cn.as_str(), "int") {
                        converter = Converter::Int;
                    } else if crate::utils::str_eq(cn.as_str(), "float") {
                        converter = Converter::Float;
                    } else if crate::utils::str_eq(cn.as_str(), "path") {
                        converter = Converter::Path;
                    } else {
                        return Err(RuleError::UnknownConverter(cn.clone()));
                    }
                },
            }
            head = Seg::Variable { converter, name: n.clone() };
        },
    }
    match resolve_from(raw, i + 1) {
        Err(e) => Err(e),
        Ok(tail) => {
            let mut segs: Vec<Seg> = Vec::new();
            segs.push(head);
            let mut tail = tail;
            let ghost tail0 = tail@;
            segs.append(&mut tail);
            proof {
                assert(segs@.map_values(|g: Seg| g@) =~= seq![segs@[0]@] + tail0.map_values(
                    |g: Seg| g@,
                ));
            }
            Ok(segs)
        },
    }
}

/// The compiled form of a URL rule: literal and placeholder segments,
/// and whether the rule string ended in a slash.
pub struct Matcher {
    /// The compiled segments.
    pub segs: Vec<Seg>,
    /// Whether the rule is a branch: its string ended in a slash, so a
    /// request without the trailing slash is redirected.
    pub is_branch: bool,
}

impl Matcher {
    /// The views of the segments.
    pub open spec fn segs_view(&self) -> Seq<SegV> {
        self.segs@.map_values(|g: Seg| g@)
    }

    /// The capture names, in order.
    pub open spec fn spec_names(&self) -> Seq<Seq<char>> {
        var_names(self.segs_view())
    }

    /// Capture names are distinct.
    pub open spec fn wf(&self) -> bool {
        forall|i: int, j: int|
            0 <= i < j < self.spec_names().len() ==> self.spec_names()[i] != self.spec_names()[j]
    }

    /// The outcome of matching `path` against this matcher.
    pub open spec fn spec_match(&self, path: Seq<char>) -> SpecMatch {
        m_at(self.segs_view(), self.is_branch, path, 0, 0)
    }

    /// Compile a rule string.
    pub fn new(rule: &str) -> (r: Result<Matcher, RuleError>)
        ensures
            match r {
                Ok(m) => spec_compile(rule@) == Ok::<(Seq<SegV>, bool), RuleErrorV>(
                    (m.segs_view(), m.is_branch),
                ) && m.wf(),
                Err(e) => spec_compile(rule@) == Err::<(Seq<SegV>, bool), RuleErrorV>(e@),
            },
    {
        let rlen = rule.unicode_len();
        if rlen == 0 || rule.get_char(0) != '/' {
            return Err(RuleError::NoLeadingSlash);
        }
        let is_branch = rule.get_char(rlen - 1) == '/';
        let trimmed = crate::utils::trim_right_char(rule, '/');
        let used: Vec<String> = Vec::new();
        proof {
            assert(trimmed@.skip(0) =~= trimmed@);
            assert(crate::utils::strings_view(used@) =~= Seq::<Seq<char>>::empty());
        }
        let raw = match parse_from(trimmed, 0, used) {
            Err(e) => {
                return Err(e);
            },
            Ok(raw) => raw,
        };
        proof {
            let rv = raw@.map_values(|g: RawSeg| g@);
            assert(rv.skip(0) =~= rv);
            lemma_parse_distinct(trimmed@, Seq::empty());
            lemma_resolve_names(rv);
        }
        let segs = match resolve_from(&raw, 0) {
            Err(e) => {
                return Err(e);
            },
            Ok(segs) => segs,
        };
        Ok(Matcher { segs, is_branch })
    }
}


/// Request Slash error: the path would match a branch rule if it ended
/// in a slash, so the client is redirected there.
pub struct RequestSlashError;

/// Two rules carry the same compiled pattern, methods and endpoint.
pub open spec fn rule_like(a: Rule, b: Rule) -> bool {
    &&& a.matcher.segs_view() == b.matcher.segs_view()
    &&& a.matcher.is_branch == b.matcher.is_branch
    &&& a.methods@ == b.methods@
    &&& a.endpoint@ == b.endpoint@
    &&& a.provide_automatic_options == b.provide_automatic_options
}

/// A Rule represents one URL pattern: a matcher, the set of methods it
/// answers, and the endpoint name its handler is registered under.
pub struct Rule {
    /// The compiled pattern used to match the url path.
    pub matcher: Matcher,
    /// The http methods this rule applies to, without repetition.
    pub methods: Vec<Method>,
    /// The endpoint for this rule.
    pub endpoint: String,
    /// Whether an `OPTIONS` request is answered automatically.
    pub provide_automatic_options: bool,
}

impl Clone for Seg {
    /// A copy with the same view.
    fn clone(&self) -> (r: Seg)
        ensures
            r@ == self@,
    {
        match self {
            Seg::Literal(l) => Seg::Literal(l.clone()),
            Seg::Variable { converter, name } => Seg::Variable {
                converter: *converter,
                name: name.clone(),
            },
        }
    }
}

impl Clone for Matcher {
    /// A copy with the same segments and branch flag.
    fn clone(&self) -> (r: Matcher)
        ensures
            r.segs_view() == self.segs_view(),
            r.is_branch == self.is_branch,
            r.wf() == self.wf(),
    {
        let mut segs: Vec<Seg> = Vec::new();
        let mut i: usize = 0;
        while i < self.segs.len()
            invariant
                i <= self.segs@.len(),
                segs@.len() == i,
                forall|j: int| 0 <= j < i ==> #[trigger] segs@[j]@ == self.segs@[j]@,
            decreases self.segs@.len() - i,
        {
            segs.push(self.segs[i].clone());
            i += 1;
        }
        let r = Matcher { segs, is_branch: self.is_branch };
        proof {
            assert(r.segs_view() =~= self.segs_view());
            assert(r.spec_names() == self.spec_names());
            if self.wf() {
                assert forall|a: int, b: int|
                    0 <= a < b < r.spec_names().len() implies r.spec_names()[a]
                    != r.spec_names()[b] by {
                    assert(self.spec_names()[a] != self.spec_names()[b]);
                }
            }
            if r.wf() {
                assert forall|a: int, b: int|
                    0 <= a < b < self.spec_names().len() implies self.spec_names()[a]
                    != self.spec_names()[b] by {
                    assert(r.spec_names()[a] != r.spec_names()[b]);
                }
            }
        }
        r
    }
}

/// An exact copy of a method list.
pub fn copy_methods(ms: &Vec<Method>) -> (r: Vec<Method>)
    ensures
        r@ == ms@,
{
    let mut copy: Vec<Method> = Vec::new();
    let mut i: usize = 0;
    while i < ms.len()
        invariant
            i <= ms@.len(),
            copy@ == ms@.take(i as int),
        decreases ms@.len() - i,
    {
        copy.push(ms[i]);
        proof {
            assert(copy@ =~= ms@.take(i + 1));
        }
        i += 1;
    }
    proof {
        assert(ms@.take(ms@.len() as int) =~= ms@);
    }
    copy
}

impl Clone for Rule {
    /// A copy with the same pattern, methods and endpoint.
    fn clone(&self) -> (r: Rule)
        ensures
            rule_like(r, *self),
            r.matcher.wf() == self.matcher.wf(),
    {
        Rule {
            matcher: self.matcher.clone(),
            methods: copy_methods(&self.methods),
            endpoint: self.endpoint.clone(),
            provide_automatic_options: self.provide_automatic_options,
        }
    }
}

/// The methods a rule answers, given those it was registered with: a
/// rule for `GET` implicitly answers `HEAD`, and every rule answers
/// `OPTIONS`.
pub open spec fn spec_effective_methods(ms: Set<Method>) -> Set<Method> {
    (if ms.contains(Method::Get) {
        ms.insert(Method::Head)
    } else {
        ms
    }).insert(Method::Options)
}

impl Rule {
    /// The matcher's capture names are distinct.
    pub open spec fn wf(&self) -> bool {
        self.matcher.wf()
    }

    /// Create a new `Rule` for the methods of `methods`.  If `GET` is
    /// among them `HEAD` is added automatically; if `OPTIONS` is not,
    /// it is added and the rule answers `OPTIONS` automatically.
    pub fn new(matcher: Matcher, methods: &Vec<Method>, endpoint: &str) -> (r: Rule)
        ensures
            r.matcher.segs_view() == matcher.segs_view(),
            r.matcher.is_branch == matcher.is_branch,
            r.wf() == matcher.wf(),
            r.endpoint@ == endpoint@,
            method_set(r.methods@) == spec_effective_methods(method_set(methods@)),
            r.provide_automatic_options == !method_set(methods@).contains(Method::Options),
            forall|i: int, j: int| 0 <= i < j < r.methods@.len() ==> r.methods@[i] != r.methods@[j],
    {
        let mut all: Vec<Method> = Vec::new();
        let mut i: usize = 0;
        while i < methods.len()
            invariant
                i <= methods@.len(),
                forall|a: int, b: int| 0 <= a < b < all@.len() ==> all@[a] != all@[b],
                forall|m: Method| #[trigger] all@.contains(m) ==> methods@.contains(m),
                forall|j: int| 0 <= j < i ==> all@.contains(#[trigger] methods@[j]),
            decreases methods@.len() - i,
        {
            let m = methods[i];
            if !contains_method(&all, m) {
                let ghost all0 = all@;
                all.push(m);
                proof {
                    assert(all@ =~= all0.push(m));
                    assert forall|x: Method| #[trigger] all@.contains(x) implies all0.contains(x)
                        || x == m by {
                        let w = choose|w: int| 0 <= w < all@.len() && all@[w] == x;
                        if w < all0.len() {
                            assert(all0[w] == x);
                        }
                    }
                    assert(all@[all0.len() as int] == m);
                    assert(forall|j: int| 0 <= j < all0.len() ==> all@[j] == all0[j]);
                }
            }
            i += 1;
        }
        proof {
            assert forall|m: Method| methods@.contains(m) implies all@.contains(m) by {
                let w = choose|w: int| 0 <= w < methods@.len() && methods@[w] == m;
            }
        }
        let has_get = contains_method(&all, Method::Get);
        let has_head = contains_method(&all, Method::Head);
        let has_options = contains_method(&all, Method::Options);
        let ghost base = all@;
        if has_get && !has_head {
            all.push(Method::Head);
        }
        let ghost mid = all@;
        let provide_automatic_options = !has_options;
        if !has_options {
            all.push(Method::Options);
        }
        proof {
            lemma_push_contains(base, Method::Head);
            lemma_push_contains(mid, Method::Options);
            assert forall|m: Method| all@.contains(m) == (base.contains(m) || (has_get && !has_head
                && m == Method::Head) || (!has_options && m == Method::Options)) by {
                if has_get && !has_head {
                    assert(mid == base.push(Method::Head));
                } else {
                    assert(mid == base);
                }
            }
            assert forall|m: Method| methods@.contains(m) implies base.contains(m) by {
                let w = choose|w: int| 0 <= w < methods@.len() && methods@[w] == m;
                assert(base.contains(methods@[w]));
            }
            // the result list still has no repetitions
            assert forall|a: int, b: int|
                0 <= a < b < all@.len() implies all@[a] != all@[b] by {
                if has_get && !has_head {
                    assert(mid == base.push(Method::Head));
                } else {
                    assert(mid == base);
                }
                if b < mid.len() {
                    if a < base.len() && b < base.len() {
                    } else {
                        assert(b == base.len() && mid[b] == Method::Head);
                        assert(!base.contains(Method::Head));
                        if mid[a] == Method::Head {
                            assert(base.contains(Method::Head));
                        }
                    }
                } else {
                    assert(all@[b] == Method::Options);
                    assert(!base.contains(Method::Options));
                    if all@[a] == Method::Options {
                        assert(mid.contains(Method::Options));
                        if has_get && !has_head {
                            assert(base.contains(Method::Options) || Method::Options
                                == Method::Head);
                        } else {
                            assert(base.contains(Method::Options));
                        }
                    }
                }
            }
        }
        let r = Rule {
            matcher,
            methods: all,
            endpoint: endpoint.to_owned(),
            provide_automatic_options,
        };
        proof {
            let fin = r.methods@;
            let eff = spec_effective_methods(method_set(methods@));
            assert forall|m: Method| method_set(fin).contains(m) == eff.contains(m) by {
                assert(fin.contains(m) == (base.contains(m) || (has_get && !has_head && m
                    == Method::Head) || (!has_options && m == Method::Options)));
                assert(base.contains(m) == methods@.contains(m));
                assert(eff.contains(m) == (methods@.contains(m) || (methods@.contains(Method::Get)
                    && m == Method::Head) || m == Method::Options));
                assert(has_get == methods@.contains(Method::Get));
                if has_head {
                    assert(base.contains(Method::Head));
                }
                if has_options {
                    assert(base.contains(Method::Options));
                }
            }
            assert(method_set(r.methods@) =~= spec_effective_methods(method_set(methods@)));
        }
        r
    }

    /// Check whether the rule matches a given path: `None` when it does
    /// not, the captured view arguments when it does, and an error when
    /// it would match with a trailing slash appended.
    pub fn matched(&self, path: String) -> (r: Option<Result<ViewArgs, RequestSlashError>>)
        requires
            self.wf(),
        ensures
            ({
                let m = self.matcher.spec_match(path@);
                let ns = self.matcher.spec_names();
                match r {
                    None => m is NoMatch,
                    Some(Err(_)) => m is Slash,
                    Some(Ok(args)) => {
                        &&& m matches SpecMatch::Hit(caps)
                        &&& args.wf()
                        &&& (m matches SpecMatch::Hit(caps) ==> forall|k: int|
                            0 <= k < ns.len() ==> args.contains_key(#[trigger] ns[k])
                                && args.spec_get(ns[k])@ == caps[k])
                        &&& forall|n: Seq<char>| #[trigger]
                            args.contains_key(n) ==> ns.contains(n)
                    },
                }
            }),
    {
        let res = match_at(&self.matcher.segs, self.matcher.is_branch, path.as_str(), 0, 0);
        match res {
            MatchResult::NoMatch => None,
            MatchResult::Slash => Some(Err(RequestSlashError)),
            MatchResult::Hit(caps) => {
                proof {
                    lemma_caps_count(self.matcher.segs_view(), self.matcher.is_branch, path@, 0, 0);
                    assert(self.matcher.segs_view().skip(0) =~= self.matcher.segs_view());
                }
                Some(Ok(self.collect_args(&caps)))
            },
        }
    }

    /// Pair the capture names with the captured values.
    fn collect_args(&self, caps: &Vec<String>) -> (args: ViewArgs)
        requires
            self.wf(),
            caps@.len() == self.matcher.spec_names().len(),
        ensures
            args.wf(),
            forall|k: int|
                0 <= k < self.matcher.spec_names().len() ==> args.contains_key(
                    #[trigger] self.matcher.spec_names()[k],
                ) && args.spec_get(self.matcher.spec_names()[k])@ == caps@[k]@,
            forall|n: Seq<char>| #[trigger]
                args.contains_key(n) ==> self.matcher.spec_names().contains(n),
    {
        let ghost sv = self.matcher.segs_view();
        let ghost ns = self.matcher.spec_names();
        let caps_len = caps.len();
        let mut args: ViewArgs = Dict::new();
        let mut c: usize = 0;
        let mut j: usize = 0;
        proof {
            assert(sv.skip(0) =~= sv);
            assert(ns.take(0) =~= Seq::<Seq<char>>::empty());
            assert(ns =~= ns.take(0) + var_names(sv.skip(0)));
        }
        while j < self.matcher.segs.len()
            invariant
                self.wf(),
                j <= self.matcher.segs@.len(),
                c <= ns.len(),
                sv == self.matcher.segs_view(),
                ns == self.matcher.spec_names(),
                caps@.len() == ns.len(),
                caps_len == caps@.len(),
                ns == ns.take(c as int) + var_names(sv.skip(j as int)),
                args.wf(),
                forall|k: int|
                    0 <= k < c ==> args.contains_key(#[trigger] ns[k]) && args.spec_get(ns[k])@
                        == caps@[k]@,
                forall|n: Seq<char>| #[trigger]
                    args.contains_key(n) ==> exists|k: int| 0 <= k < c && ns[k] == n,
            decreases self.matcher.segs@.len() - j,
        {
            proof {
                lemma_var_names_skip(sv, j as int);
            }
            let seg = &self.matcher.segs[j];
            match seg {
                Seg::Literal(_) => {
                    proof {
                        assert(var_names(sv.skip(j as int)) == var_names(sv.skip(j + 1)));
                    }
                },
                Seg::Variable { converter, name } => {
                    proof {
                        assert(var_names(sv.skip(j as int)) == seq![name@] + var_names(
                            sv.skip(j + 1),
                        ));
                        assert(var_names(sv.skip(j as int)).len() >= 1);
                        assert(c < ns.len());
                        assert(ns[c as int] == (ns.take(c as int) + var_names(sv.skip(j as int)))[
                            c as int
                        ]);
                        assert(ns[c as int] == name@);
                    }
                    let ghost args0 = args;
                    let value = caps[c].clone();
                    args.insert(name.clone(), value);
                    proof {
                        assert forall|k: int|
                            0 <= k < c + 1 implies args.contains_key(#[trigger] ns[k])
                            && args.spec_get(ns[k])@ == caps@[k]@ by {
                            if k < c {
                                assert(ns[k] != ns[c as int]);
                            }
                        }
                        assert forall|n: Seq<char>| #[trigger]
                            args.contains_key(n) implies exists|k: int|
                            0 <= k < c + 1 && ns[k] == n by {
                            if n != name@ {
                                assert(args0.contains_key(n));
                            } else {
                                assert(ns[c as int] == n);
                            }
                        }
                        assert(ns =~= ns.take(c + 1) + var_names(sv.skip(j + 1)));
                    }
                    c += 1;
                },
            }
            j += 1;
        }
        proof {
            assert(sv.skip(sv.len() as int) =~= Seq::<SegV>::empty());
            assert(var_names(sv.skip(sv.len() as int)) =~= Seq::<Seq<char>>::empty());
            assert(ns =~= ns.take(c as int));
            assert(c == ns.len());
        }
        args
    }
}

/// Pushing an element adds exactly it to the members of a sequence.
proof fn lemma_push_contains(s: Seq<Method>, m: Method)
    ensures
        forall|x: Method| s.push(m).contains(x) == (s.contains(x) || x == m),
        forall|j: int| 0 <= j < s.len() ==> s.push(m)[j] == s[j],
        s.push(m)[s.len() as int] == m,
        s.push(m).len() == s.len() + 1,
{
    assert forall|x: Method| s.push(m).contains(x) == (s.contains(x) || x == m) by {
        if s.push(m).contains(x) {
            let w = choose|w: int| 0 <= w < s.push(m).len() && s.push(m)[w] == x;
            if w < s.len() {
                assert(s[w] == x);
            }
        }
        if s.contains(x) {
            let w = choose|w: int| 0 <= w < s.len() && s[w] == x;
            assert(s.push(m)[w] == x);
        }
        if x == m {
            assert(s.push(m)[s.len() as int] == x);
        }
    }
}

/// Accumulate the methods of `ms` that `have` does not already hold,
/// in order.
pub open spec fn add_methods(have: Seq<Method>, ms: Seq<Method>) -> Seq<Method>
    decreases ms.len(),
{
    if ms.len() == 0 {
        have
    } else {
        add_methods(
            if have.contains(ms[0]) {
                have
            } else {
                have.push(ms[0])
            },
            ms.drop_first(),
        )
    }
}

/// Exec mirror of [`add_methods`].
fn extend_methods(have: Vec<Method>, ms: &Vec<Method>) -> (r: Vec<Method>)
    ensures
        r@ == add_methods(have@, ms@),
{
    let ghost total = add_methods(have@, ms@);
    let mut have = have;
    let mut i: usize = 0;
    proof {
        assert(ms@.skip(0) =~= ms@);
    }
    while i < ms.len()
        invariant
            i <= ms@.len(),
            add_methods(have@, ms@.skip(i as int)) == total,
        decreases ms@.len() - i,
    {
        proof {
            assert(ms@.skip(i as int)[0] == ms@[i as int]);
            assert(ms@.skip(i as int).drop_first() =~= ms@.skip(i + 1));
        }
        let m = ms[i];
        if !contains_method(&have, m) {
            have.push(m);
        }
        i += 1;
    }
    proof {
        assert(ms@.skip(ms@.len() as int) =~= Seq::<Method>::empty());
    }
    have
}


/// A resolved match outcome: a matched rule with its view arguments, a
/// trailing-slash redirect, or a routing error.
pub enum MapAdapterMatched {
    MatchedRule((Rule, ViewArgs)),
    MatchedRedirect((String, u16)),
    MatchedError(HTTPError),
}

/// The spec-level outcome of resolving a request against the rules.
pub enum SpecOutcome {
    /// The first structurally matching rule that allows the method, and
    /// its captures.
    Matched(int, Seq<Seq<char>>),
    /// A branch rule asks for the path with a trailing slash.
    Redirect,
    /// Some rule matches the path but none allows the method; the
    /// methods of all structurally matching rules, in scan order.
    NotAllowed(Seq<Method>),
    /// No rule matches the path.
    NotFound,
}

/// View arguments pair each capture name with its captured value.
pub open spec fn args_match(args: ViewArgs, ns: Seq<Seq<char>>, caps: Seq<Seq<char>>) -> bool {
    &&& args.wf()
    &&& forall|k: int|
        0 <= k < ns.len() ==> args.contains_key(#[trigger] ns[k]) && args.spec_get(ns[k])@
            == caps[k]
    &&& forall|n: Seq<char>| #[trigger] args.contains_key(n) ==> ns.contains(n)
}

/// Resolve a request against the rules from `i` on, first match wins.
/// `have` accumulates the methods of structurally matching rules that
/// did not allow the request's method.
pub open spec fn spec_resolve_rules(
    rules: Seq<Rule>,
    i: int,
    have: Seq<Method>,
    path: Seq<char>,
    method: Method,
) -> SpecOutcome
    decreases rules.len() - i,
{
    if i < 0 || i >= rules.len() {
        if have.len() > 0 {
            SpecOutcome::NotAllowed(have)
        } else {
            SpecOutcome::NotFound
        }
    } else {
        match rules[i].matcher.spec_match(path) {
            SpecMatch::NoMatch => spec_resolve_rules(rules, i + 1, have, path, method),
            SpecMatch::Slash => SpecOutcome::Redirect,
            SpecMatch::Hit(caps) => if method_set(rules[i].methods@).contains(method) {
                SpecOutcome::Matched(i, caps)
            } else {
                spec_resolve_rules(
                    rules,
                    i + 1,
                    add_methods(have, rules[i].methods@),
                    path,
                    method,
                )
            },
        }
    }
}

/// The methods of all rules that structurally match `path` (hits and
/// slash-redirect matches alike), from rule `i` on.
pub open spec fn spec_allowed_methods(
    rules: Seq<Rule>,
    i: int,
    have: Seq<Method>,
    path: Seq<char>,
) -> Seq<Method>
    decreases rules.len() - i,
{
    if i < 0 || i >= rules.len() {
        have
    } else {
        let have2 = if rules[i].matcher.spec_match(path) is NoMatch {
            have
        } else {
            add_methods(have, rules[i].methods@)
        };
        spec_allowed_methods(rules, i + 1, have2, path)
    }
}

/// The map stores all the URL rules, in registration order; earlier
/// rules take priority when resolving.
pub struct UrlMap {
    /// The registered rules.
    pub rules: Vec<Rule>,
}

impl UrlMap {
    /// All rules have well-formed matchers.
    pub open spec fn wf(&self) -> bool {
        forall|i: int| 0 <= i < self.rules@.len() ==> self.rules@[i].wf()
    }

    /// Create an empty map.
    pub fn new() -> (r: UrlMap)
        ensures
            r.rules@ == Seq::<Rule>::empty(),
            r.wf(),
    {
        let r = UrlMap { rules: Vec::new() };
        proof {
            assert(r.rules@ =~= Seq::<Rule>::empty());
        }
        r
    }

    /// Append a rule; it is consulted after all earlier ones.
    pub fn add(&mut self, rule: Rule)
        requires
            rule.wf(),
        ensures
            final(self).rules@ == old(self).rules@.push(rule),
            old(self).wf() ==> final(self).wf(),
    {
        let ghost r0 = self.rules@;
        self.rules.push(rule);
        proof {
            if (forall|i: int| 0 <= i < r0.len() ==> r0[i].wf()) {
                assert forall|i: int| 0 <= i < self.rules@.len() implies self.rules@[i].wf() by {
                    if i < r0.len() {
                        assert(self.rules@[i] == r0[i]);
                    }
                }
            }
        }
    }

    /// Bind the map to one concrete request.
    pub fn bind<'m>(
        &'m self,
        host: String,
        path: String,
        query_string: Option<String>,
        method: Method,
    ) -> (r: MapAdapter<'m>)
        ensures
            r.map == self,
            r.url_scheme@ == "http"@,
            r.host@ == host@,
            r.path@ == path@,
            match (r.query_string, query_string) {
                (Some(a), Some(b)) => a@ == b@,
                (None, None) => true,
                _ => false,
            },
            r.method == method,
    {
        MapAdapter::new(self, host, path, query_string, method)
    }
}

/// Does the URL matching based on runtime information.
pub struct MapAdapter<'m> {
    /// The bound rule map.
    pub map: &'m UrlMap,
    /// The scheme used when building a redirect location.
    pub url_scheme: String,
    /// The request host.
    pub host: String,
    /// The request path.
    pub path: String,
    /// The request query string, if any.
    pub query_string: Option<String>,
    /// The request method.
    pub method: Method,
}

/// The location a branch rule redirects to: the same path with a
/// trailing slash appended, keeping the query string.
pub open spec fn spec_redirect_location(
    scheme: Seq<char>,
    host: Seq<char>,
    path: Seq<char>,
    query_string: Option<Seq<char>>,
) -> Seq<char> {
    scheme + "://"@ + host + "/"@ + crate::utils::spec_trim_left(path, '/') + "/"@ + (
    match query_string {
        Some(q) => "?"@ + q,
        None => Seq::<char>::empty(),
    })
}

impl<'m> MapAdapter<'m> {
    /// The spec-level view of the adapter's query string.
    pub open spec fn spec_query(&self) -> Option<Seq<char>> {
        match self.query_string {
            Some(q) => Some(q@),
            None => None,
        }
    }

    /// Bind a map to one concrete request.
    pub fn new(
        map: &'m UrlMap,
        host: String,
        path: String,
        query_string: Option<String>,
        method: Method,
    ) -> (r: MapAdapter<'m>)
        ensures
            r.map == map,
            r.url_scheme@ == "http"@,
            r.host@ == host@,
            r.path@ == path@,
            match (r.query_string, query_string) {
                (Some(a), Some(b)) => a@ == b@,
                (None, None) => true,
                _ => false,
            },
            r.method == method,
    {
        MapAdapter { map, url_scheme: "http".to_owned(), host, path, query_string, method }
    }

    /// The location of the trailing-slash redirect for this request.
    fn make_redirect_url(&self) -> (r: String)
        ensures
            r@ == spec_redirect_location(
                self.url_scheme@,
                self.host@,
                self.path@,
                self.spec_query(),
            ),
    {
        let mut url = self.url_scheme.clone();
        url.append("://");
        url.append(self.host.as_str());
        url.append("/");
        url.append(crate::utils::trim_left_char(self.path.as_str(), '/'));
        url.append("/");
        match &self.query_string {
            Some(q) => {
                url.append("?");
                url.append(q.as_str());
            },
            None => {},
        }
        proof {
            assert(url@ =~= spec_redirect_location(
                self.url_scheme@,
                self.host@,
                self.path@,
                self.spec_query(),
            ));
        }
        url
    }

    /// Resolve the request: the first matching rule in registration
    /// order wins; a slash-redirect takes precedence over later rules;
    /// a path that only matches under other methods yields a
    /// method-not-allowed error carrying those methods.
    pub fn matched(&self) -> (r: MapAdapterMatched)
        requires
            self.map.wf(),
        ensures
            ({
                let out = spec_resolve_rules(
                    self.map.rules@,
                    0,
                    Seq::empty(),
                    self.path@,
                    self.method,
                );
                match r {
                    MapAdapterMatched::MatchedRule((rule, args)) => {
                        &&& out matches SpecOutcome::Matched(i, caps)
                        &&& (out matches SpecOutcome::Matched(i, caps) ==> {
                            &&& 0 <= i < self.map.rules@.len()
                            &&& rule_like(rule, self.map.rules@[i])
                            &&& args_match(args, self.map.rules@[i].matcher.spec_names(), caps)
                        })
                    },
                    MapAdapterMatched::MatchedRedirect((url, code)) => {
                        &&& out is Redirect
                        &&& code == 301
                        &&& url@ == spec_redirect_location(
                            self.url_scheme@,
                            self.host@,
                            self.path@,
                            self.spec_query(),
                        )
                    },
                    MapAdapterMatched::MatchedError(e) => match out {
                        SpecOutcome::NotAllowed(ms) => e matches HTTPError::MethodNotAllowed(v)
                            && (e matches HTTPError::MethodNotAllowed(v) ==> v matches Some(list)
                            && (v matches Some(list) ==> list@ == ms)),
                        SpecOutcome::NotFound => e is NotFound,
                        _ => false,
                    },
                }
            }),
    {
        let have: Vec<Method> = Vec::new();
        proof {
            assert(have@ =~= Seq::<Method>::empty());
        }
        match resolve_rules(&self.map.rules, 0, have, self.path.as_str(), self.method) {
            Resolved::Matched(i, args) => {
                let rule = self.map.rules[i].clone();
                MapAdapterMatched::MatchedRule((rule, args))
            },
            Resolved::Redirect => {
                MapAdapterMatched::MatchedRedirect((self.make_redirect_url(), 301))
            },
            Resolved::NotAllowed(ms) => {
                MapAdapterMatched::MatchedError(HTTPError::MethodNotAllowed(Some(ms)))
            },
            Resolved::NotFound => MapAdapterMatched::MatchedError(HTTPError::NotFound),
        }
    }

    /// Get the methods valid for this request's path across all rules.
    pub fn allowed_methods(&self) -> (r: Vec<Method>)
        requires
            self.map.wf(),
        ensures
            r@ == spec_allowed_methods(self.map.rules@, 0, Seq::empty(), self.path@),
    {
        let have: Vec<Method> = Vec::new();
        proof {
            assert(have@ =~= Seq::<Method>::empty());
        }
        collect_allowed(&self.map.rules, 0, have, self.path.as_str())
    }
}

/// Exec outcome of [`resolve_rules`].
enum Resolved {
    Matched(usize, ViewArgs),
    Redirect,
    NotAllowed(Vec<Method>),
    NotFound,
}

/// Exec mirror of [`spec_resolve_rules`].
fn resolve_rules(rules: &Vec<Rule>, i: usize, have: Vec<Method>, path: &str, method: Method) -> (r:
    Resolved)
    requires
        i <= rules@.len(),
        forall|j: int| 0 <= j < rules@.len() ==> rules@[j].wf(),
    ensures
        ({
            let out = spec_resolve_rules(rules@, i as int, have@, path@, method);
            match r {
                Resolved::Matched(w, args) => {
                    &&& out matches SpecOutcome::Matched(ws, caps)
                    &&& (out matches SpecOutcome::Matched(ws, caps) ==> ws == w && 0 <= w
                        < rules@.len() && args_match(
                        args,
                        rules@[w as int].matcher.spec_names(),
                        caps,
                    ))
                },
                Resolved::Redirect => out is Redirect,
                Resolved::NotAllowed(ms) => out matches SpecOutcome::NotAllowed(sms) && (out
                    matches SpecOutcome::NotAllowed(sms) ==> ms@ == sms),
                Resolved::NotFound => out is NotFound,
            }
        }),
    decreases rules@.len() - i,
{
    if i == rules.len() {
        if have.len() > 0 {
            Resolved::NotAllowed(have)
        } else {
            proof {
                assert(have@ =~= Seq::<Method>::empty());
            }
            Resolved::NotFound
        }
    } else {
        let rule = &rules[i];
        match rule.matched(path.to_owned()) {
            None => resolve_rules(rules, i + 1, have, path, method),
            Some(Err(_)) => Resolved::Redirect,
            Some(Ok(args)) => {
                if contains_method(&rule.methods, method) {
                    Resolved::Matched(i, args)
                } else {
                    let have2 = extend_methods(have, &rule.methods);
                    resolve_rules(rules, i + 1, have2, path, method)
                }
            },
        }
    }
}

/// Exec mirror of [`spec_allowed_methods`].
fn collect_allowed(rules: &Vec<Rule>, i: usize, have: Vec<Method>, path: &str) -> (r: Vec<Method>)
    requires
        i <= rules@.len(),
        forall|j: int| 0 <= j < rules@.len() ==> rules@[j].wf(),
    ensures
        r@ == spec_allowed_methods(rules@, i as int, have@, path@),
    decreases rules@.len() - i,
{
    if i == rules.len() {
        have
    } else {
        let rule = &rules[i];
        match rule.matched(path.to_owned()) {
            None => collect_allowed(rules, i + 1, have, path),
            Some(_) => {
                let have2 = extend_methods(have, &rule.methods);
                collect_allowed(rules, i + 1, have2, path)
            },
        }
    }
}


/// No rule matches the path structurally: resolution from `i` on, with
/// nothing accumulated, ends in not-found.
proof fn lemma_resolve_no_match_from(rules: Seq<Rule>, i: int, path: Seq<char>, method: Method)
    requires
        0 <= i <= rules.len(),
        forall|j: int| i <= j < rules.len() ==> rules[j].matcher.spec_match(path) is NoMatch,
    ensures
        spec_resolve_rules(rules, i, Seq::empty(), path, method) is NotFound,
    decreases rules.len() - i,
{
    if i < rules.len() {
        lemma_resolve_no_match_from(rules, i + 1, path, method);
    }
}

/// A path matching no rule resolves to not-found.
pub proof fn lemma_not_found(rules: Seq<Rule>, path: Seq<char>, method: Method)
    requires
        forall|j: int| 0 <= j < rules.len() ==> rules[j].matcher.spec_match(path) is NoMatch,
    ensures
        spec_resolve_rules(rules, 0, Seq::empty(), path, method) is NotFound,
{
    lemma_resolve_no_match_from(rules, 0, path, method);
}

/// The methods of all rules that match `path` as a hit.
pub open spec fn structural_union(rules: Seq<Rule>, path: Seq<char>) -> Set<Method> {
    Set::new(|m: Method| hit_with(rules, path, 0, m))
}

/// Some rule at or after `lo` matches `path` as a hit and names `x`.
pub open spec fn hit_with(rules: Seq<Rule>, path: Seq<char>, lo: int, x: Method) -> bool {
    exists|j: int|
        lo <= j < rules.len() && rules[j].matcher.spec_match(path) is Hit
            && rules[j].methods@.contains(x)
}

/// `add_methods` accumulates exactly the union of its operands.
proof fn lemma_add_methods(have: Seq<Method>, ms: Seq<Method>)
    ensures
        forall|x: Method|
            add_methods(have, ms).contains(x) == (have.contains(x) || ms.contains(x)),
    decreases ms.len(),
{
    if ms.len() > 0 {
        let have2 = if have.contains(ms[0]) {
            have
        } else {
            have.push(ms[0])
        };
        lemma_push_contains(have, ms[0]);
        lemma_add_methods(have2, ms.drop_first());
        assert(forall|j: int|
            0 <= j < ms.drop_first().len() ==> #[trigger] ms.drop_first()[j] == ms[j + 1]);
        assert forall|x: Method|
            add_methods(have, ms).contains(x) == (have.contains(x) || ms.contains(x)) by {
            assert(add_methods(have, ms) == add_methods(have2, ms.drop_first()));
            if ms.contains(x) {
                let w = choose|w: int| 0 <= w < ms.len() && ms[w] == x;
                if w >= 1 {
                    assert(ms.drop_first()[w - 1] == x);
                }
            }
            if ms.drop_first().contains(x) {
                let w = choose|w: int|
                    0 <= w < ms.drop_first().len() && ms.drop_first()[w] == x;
                assert(ms[w + 1] == x);
            }
            if x == ms[0] {
                assert(ms.contains(x));
            }
        }
    }
}

/// When some rule matches the path structurally but none of the
/// matching rules allows the method (and no rule asks for a slash
/// redirect), resolution ends in method-not-allowed, carrying exactly
/// the union of the matching rules' methods and what was accumulated.
proof fn lemma_resolve_not_allowed_from(
    rules: Seq<Rule>,
    i: int,
    have: Seq<Method>,
    path: Seq<char>,
    method: Method,
)
    requires
        0 <= i <= rules.len(),
        forall|j: int| i <= j < rules.len() ==> !(rules[j].matcher.spec_match(path) is Slash),
        forall|j: int|
            i <= j < rules.len() && rules[j].matcher.spec_match(path) is Hit ==> !method_set(
                rules[j].methods@,
            ).contains(method) && rules[j].methods@.len() > 0,
        have.len() > 0 || exists|j: int|
            i <= j < rules.len() && rules[j].matcher.spec_match(path) is Hit,
    ensures
        spec_resolve_rules(rules, i, have, path, method) matches SpecOutcome::NotAllowed(ms) && (
        spec_resolve_rules(rules, i, have, path, method) matches SpecOutcome::NotAllowed(ms)
            ==> forall|x: Method|
            ms.contains(x) == (have.contains(x) || hit_with(rules, path, i, x))),
    decreases rules.len() - i,
{
    if i == rules.len() {
        assert(have.len() > 0);
        assert forall|x: Method| #[trigger] hit_with(rules, path, i, x) == false by {
            if hit_with(rules, path, i, x) {
                let w = choose|j: int|
                    i <= j < rules.len() && rules[j].matcher.spec_match(path) is Hit
                        && rules[j].methods@.contains(x);
            }
        }
    } else {
        match rules[i].matcher.spec_match(path) {
            SpecMatch::NoMatch => {
                if !(have.len() > 0) {
                    let w = choose|j: int|
                        i <= j < rules.len() && rules[j].matcher.spec_match(path) is Hit;
                    assert(w >= i + 1);
                }
                lemma_resolve_not_allowed_from(rules, i + 1, have, path, method);
                assert forall|x: Method| #[trigger] hit_with(rules, path, i, x) == hit_with(
                    rules,
                    path,
                    i + 1,
                    x,
                ) by {
                    if hit_with(rules, path, i, x) {
                        let w = choose|j: int|
                            i <= j < rules.len() && rules[j].matcher.spec_match(path) is Hit
                                && rules[j].methods@.contains(x);
                        assert(w != i);
                        assert(hit_with(rules, path, i + 1, x));
                    }
                    if hit_with(rules, path, i + 1, x) {
                        let w = choose|j: int|
                            i + 1 <= j < rules.len() && rules[j].matcher.spec_match(path) is Hit
                                && rules[j].methods@.contains(x);
                        assert(hit_with(rules, path, i, x));
                    }
                }
            },
            SpecMatch::Slash => {
                assert(false);
            },
            SpecMatch::Hit(_) => {
                assert(!method_set(rules[i].methods@).contains(method));
                assert(rules[i].methods@.len() > 0);
                let have2 = add_methods(have, rules[i].methods@);
                lemma_add_methods(have, rules[i].methods@);
                assert(have2.contains(rules[i].methods@[0])) by {
                    assert(rules[i].methods@.contains(rules[i].methods@[0]));
                }
                assert(have2.len() > 0) by {
                    if have2.len() == 0 {
                        assert(!have2.contains(rules[i].methods@[0]));
                    }
                }
                lemma_resolve_not_allowed_from(rules, i + 1, have2, path, method);
                match spec_resolve_rules(rules, i, have, path, method) {
                    SpecOutcome::NotAllowed(ms) => {
                        assert forall|x: Method| #[trigger] ms.contains(x) == (have.contains(x)
                            || hit_with(rules, path, i, x)) by {
                            assert(ms.contains(x) == (have2.contains(x) || hit_with(
                                rules,
                                path,
                                i + 1,
                                x,
                            )));
                            if rules[i].methods@.contains(x) {
                                assert(hit_with(rules, path, i, x)) by {
                                    assert(i <= i < rules.len() && rules[i].matcher.spec_match(
                                        path,
                                    ) is Hit && rules[i].methods@.contains(x));
                                }
                            }
                            if hit_with(rules, path, i, x) {
                                let w = choose|j: int|
                                    i <= j < rules.len() && rules[j].matcher.spec_match(
                                        path,
                                    ) is Hit && rules[j].methods@.contains(x);
                                if w == i {
                                    assert(have2.contains(x));
                                } else {
                                    assert(hit_with(rules, path, i + 1, x));
                                }
                            }
                            if hit_with(rules, path, i + 1, x) {
                                let w = choose|j: int|
                                    i + 1 <= j < rules.len() && rules[j].matcher.spec_match(
                                        path,
                                    ) is Hit && rules[j].methods@.contains(x);
                                assert(hit_with(rules, path, i, x));
                            }
                        }
                    },
                    _ => {
                        assert(false);
                    },
                }
            },
        }
    }
}

/// When a path matches at least one rule structurally but none of the
/// matching rules allows the method — and no rule asks for a redirect —
/// resolving yields method-not-allowed whose allowed-method set equals
/// the union of methods across all structurally matching rules.
pub proof fn lemma_method_not_allowed(rules: Seq<Rule>, path: Seq<char>, method: Method)
    requires
        forall|j: int| 0 <= j < rules.len() ==> !(rules[j].matcher.spec_match(path) is Slash),
        exists|j: int| 0 <= j < rules.len() && rules[j].matcher.spec_match(path) is Hit,
        forall|j: int|
            0 <= j < rules.len() && rules[j].matcher.spec_match(path) is Hit ==> !method_set(
                rules[j].methods@,
            ).contains(method) && rules[j].methods@.len() > 0,
    ensures
        spec_resolve_rules(rules, 0, Seq::empty(), path, method) matches SpecOutcome::NotAllowed(
            ms,
        ) && (spec_resolve_rules(rules, 0, Seq::empty(), path, method)
            matches SpecOutcome::NotAllowed(ms) ==> method_set(ms) == structural_union(
            rules,
            path,
        )),
{
    lemma_resolve_not_allowed_from(rules, 0, Seq::empty(), path, method);
    match spec_resolve_rules(rules, 0, Seq::empty(), path, method) {
        SpecOutcome::NotAllowed(ms) => {
            assert forall|x: Method| method_set(ms).contains(x) == structural_union(
                rules,
                path,
            ).contains(x) by {
                assert(ms.contains(x) == (Seq::<Method>::empty().contains(x) || hit_with(
                    rules,
                    path,
                    0,
                    x,
                )));
                if Seq::<Method>::empty().contains(x) {
                    let w = choose|w: int| 0 <= w < 0 && Seq::<Method>::empty()[w] == x;
                }
            }
            assert(method_set(ms) =~= structural_union(rules, path));
        },
        _ => {},
    }
}

/// A branch rule made of one literal: the literal itself asks for a
/// redirect, the literal with a trailing slash matches with no
/// captures.
pub proof fn lemma_branch_literal(m: Matcher, l: Seq<char>)
    requires
        m.segs_view() == seq![SegV::Literal(l)],
        m.is_branch,
    ensures
        m.spec_match(l) is Slash,
        m.spec_match(l.push('/')) == SpecMatch::Hit(Seq::<Seq<char>>::empty()),
{
    assert(spec_matches_at(l, 0, l)) by {
        assert(l.subrange(0, l.len() as int) =~= l);
    }
    assert(m_at(m.segs_view(), true, l, 1, l.len() as int) is Slash);
    let p = l.push('/');
    assert(spec_matches_at(p, 0, l)) by {
        assert(p.subrange(0, l.len() as int) =~= l);
    }
    assert(p[l.len() as int] == '/');
    assert(m_at(m.segs_view(), true, p, 1, l.len() as int) == SpecMatch::Hit(Seq::<
        Seq<char>,
    >::empty()));
}

/// A single branch rule of one literal: requesting the path without the
/// trailing slash resolves to a redirect; requesting it with the slash
/// resolves to a normal match of that rule, with no captures.
pub proof fn lemma_trailing_slash_redirect(rules: Seq<Rule>, l: Seq<char>, method: Method)
    requires
        rules.len() == 1,
        rules[0].matcher.segs_view() == seq![SegV::Literal(l)],
        rules[0].matcher.is_branch,
    ensures
        spec_resolve_rules(rules, 0, Seq::empty(), l, method) is Redirect,
        method_set(rules[0].methods@).contains(method) ==> spec_resolve_rules(
            rules,
            0,
            Seq::empty(),
            l.push('/'),
            method,
        ) == SpecOutcome::Matched(0, Seq::<Seq<char>>::empty()),
{
    lemma_branch_literal(rules[0].matcher, l);
}

/// A greedy placeholder standing last cannot succeed on a capture that
/// leaves part of the path behind.
proof fn lemma_greedy_short(segs: Seq<SegV>, s: Seq<char>, i: int, pos: int, k: int)
    requires
        0 <= i == segs.len() - 1,
        segs[i] is Variable,
        0 <= pos,
        pos + k < s.len(),
    ensures
        m_greedy(segs, false, s, i, pos, k) is NoMatch,
    decreases k,
{
    if k >= 1 {
        let converter = segs[i]->Variable_converter;
        if pos + k <= s.len() && cap_ok(converter, s.subrange(pos, pos + k)) {
            assert(m_at(segs, false, s, i + 1, pos + k) is NoMatch);
        }
        lemma_greedy_short(segs, s, i, pos, k - 1);
    }
}

/// A lazy placeholder standing last succeeds exactly when the whole
/// rest of the path is an acceptable capture.
proof fn lemma_lazy_last(segs: Seq<SegV>, s: Seq<char>, i: int, pos: int, k: int)
    requires
        0 <= i == segs.len() - 1,
        segs[i] is Variable,
        0 <= pos,
        1 <= k <= s.len() - pos,
    ensures
        m_lazy(segs, false, s, i, pos, k) == (if cap_ok(
            segs[i]->Variable_converter,
            s.subrange(pos, s.len() as int),
        ) {
            SpecMatch::Hit(seq![s.subrange(pos, s.len() as int)])
        } else {
            SpecMatch::NoMatch
        }),
    decreases s.len() - pos - k,
{
    let converter = segs[i]->Variable_converter;
    if pos + k == s.len() {
        if cap_ok(converter, s.subrange(pos, pos + k)) {
            assert(m_at(segs, false, s, i + 1, pos + k) == SpecMatch::Hit(Seq::<
                Seq<char>,
            >::empty()));
        }
    } else {
        if cap_ok(converter, s.subrange(pos, pos + k)) {
            assert(m_at(segs, false, s, i + 1, pos + k) is NoMatch);
        }
        lemma_lazy_last(segs, s, i, pos, k + 1);
    }
}

/// A rule of the shape `/<converter:name>` with a greedy converter
/// matches `/body` exactly when the converter accepts all of `body`,
/// capturing it whole.
pub proof fn lemma_single_placeholder(m: Matcher, c: Converter, n: Seq<char>, body: Seq<char>)
    requires
        m.segs_view() == seq![SegV::Literal(seq!['/']), SegV::Variable { converter: c, name: n }],
        !m.is_branch,
        !is_lazy(c),
    ensures
        m.spec_match(seq!['/'] + body) == (if cap_ok(c, body) {
            SpecMatch::Hit(seq![body])
        } else {
            SpecMatch::NoMatch
        }),
{
    let p = seq!['/'] + body;
    let segs = m.segs_view();
    assert(spec_matches_at(p, 0, seq!['/'])) by {
        assert(p.subrange(0, 1) =~= seq!['/']);
    }
    assert(m.spec_match(p) == m_at(segs, false, p, 1, 1));
    assert(m_at(segs, false, p, 1, 1) == m_greedy(segs, false, p, 1, 1, p.len() - 1));
    let k = p.len() - 1;
    assert(p.subrange(1, 1 + k) =~= body);
    if k < 1 {
        assert(body =~= Seq::<char>::empty());
        assert(!cap_ok(c, body));
    } else {
        if cap_ok(c, body) {
            assert(m_at(segs, false, p, 2, p.len() as int) == SpecMatch::Hit(Seq::<
                Seq<char>,
            >::empty()));
            assert(m_greedy(segs, false, p, 1, 1, k) == SpecMatch::Hit(seq![body]));
        } else {
            lemma_greedy_short(segs, p, 1, 1, k - 1);
        }
    }
}

/// A rule of the shape `/<path:name>` matches `/body` exactly when
/// `body` is nonempty and does not begin with a slash — slashes inside
/// it are welcome — capturing it whole.
pub proof fn lemma_single_path_placeholder(m: Matcher, n: Seq<char>, body: Seq<char>)
    requires
        m.segs_view() == seq![
            SegV::Literal(seq!['/']),
            SegV::Variable { converter: Converter::Path, name: n },
        ],
        !m.is_branch,
    ensures
        m.spec_match(seq!['/'] + body) == (if cap_ok(Converter::Path, body) {
            SpecMatch::Hit(seq![body])
        } else {
            SpecMatch::NoMatch
        }),
{
    let p = seq!['/'] + body;
    let segs = m.segs_view();
    assert(spec_matches_at(p, 0, seq!['/'])) by {
        assert(p.subrange(0, 1) =~= seq!['/']);
    }
    assert(m.spec_match(p) == m_at(segs, false, p, 1, 1));
    assert(m_at(segs, false, p, 1, 1) == m_lazy(segs, false, p, 1, 1, 1));
    if p.len() == 1 {
        assert(body =~= Seq::<char>::empty());
        assert(!cap_ok(Converter::Path, body));
    } else {
        lemma_lazy_last(segs, p, 1, 1, 1);
        assert(p.subrange(1, p.len() as int) =~= body);
    }
}


/// A placeholder-free branch template with a single trailing slash
/// compiles to one literal segment — the template without its slash —
/// marked as a branch.  Together with [`lemma_trailing_slash_redirect`]
/// this takes the trailing-slash redirect law all the way back to the
/// template string.
pub proof fn lemma_literal_branch_compile(t: Seq<char>)
    requires
        t.len() >= 2,
        t[0] == '/',
        t[t.len() - 1] == '/',
        t[t.len() - 2] != '/',
        !t.contains('<'),
        !t.contains('>'),
    ensures
        spec_compile(t) == Ok::<(Seq<SegV>, bool), RuleErrorV>(
            (seq![SegV::Literal(t.drop_last())], true),
        ),
{
    let l = t.drop_last();
    let trimmed = crate::utils::spec_trim_right(t, '/');
    assert(l[l.len() - 1] == t[t.len() - 2]);
    assert(crate::utils::spec_trim_right(l, '/') == l);
    assert(trimmed == l);
    assert(l.len() >= 1);
    lemma_idx_of(l, '<');
    assert(idx_of(l, '<') == l.len()) by {
        if idx_of(l, '<') < l.len() {
            assert(l[idx_of(l, '<')] == '<');
            assert(t[idx_of(l, '<')] == '<');
            assert(t.contains('<'));
        }
    }
    lemma_idx_of(l, '>');
    assert(!(idx_of(l, '>') < l.len())) by {
        if idx_of(l, '>') < l.len() {
            assert(l[idx_of(l, '>')] == '>');
            assert(t[idx_of(l, '>')] == '>');
            assert(t.contains('>'));
        }
    }
    assert(spec_parse(l, Seq::empty()) == Ok::<Seq<RawSegV>, RuleErrorV>(seq![RawSegV::Lit(l)]));
    let raw = seq![RawSegV::Lit(l)];
    assert(raw.drop_first() =~= Seq::<RawSegV>::empty());
    assert(spec_resolve(raw.drop_first()) == Ok::<Seq<SegV>, RuleErrorV>(Seq::empty()));
    assert(seq![SegV::Literal(l)] + Seq::<SegV>::empty() =~= seq![SegV::Literal(l)]);
    assert(spec_resolve(raw) == Ok::<Seq<SegV>, RuleErrorV>(seq![SegV::Literal(l)]));
}


/// When the first rule that matches `path` structurally is a hit and
/// allows the method, resolution names exactly that rule and its
/// captures: in particular, a path already carrying its trailing slash
/// matches the branch rule normally instead of redirecting.
pub proof fn lemma_first_hit_matches(rules: Seq<Rule>, i: int, path: Seq<char>, method: Method)
    requires
        0 <= i < rules.len(),
        forall|j: int| 0 <= j < i ==> rules[j].matcher.spec_match(path) is NoMatch,
        rules[i].matcher.spec_match(path) is Hit,
        method_set(rules[i].methods@).contains(method),
    ensures
        spec_resolve_rules(rules, 0, Seq::empty(), path, method) == SpecOutcome::Matched(
            i,
            rules[i].matcher.spec_match(path)->Hit_0,
        ),
{
    lemma_first_hit_matches_from(rules, 0, i, path, method);
}

proof fn lemma_first_hit_matches_from(
    rules: Seq<Rule>,
    lo: int,
    i: int,
    path: Seq<char>,
    method: Method,
)
    requires
        0 <= lo <= i < rules.len(),
        forall|j: int| lo <= j < i ==> rules[j].matcher.spec_match(path) is NoMatch,
        rules[i].matcher.spec_match(path) is Hit,
        method_set(rules[i].methods@).contains(method),
    ensures
        spec_resolve_rules(rules, lo, Seq::empty(), path, method) == SpecOutcome::Matched(
            i,
            rules[i].matcher.spec_match(path)->Hit_0,
        ),
    decreases i - lo,
{
    if lo < i {
        lemma_first_hit_matches_from(rules, lo + 1, i, path, method);
    }
}

} // verus!
