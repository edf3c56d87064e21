//! Small string utilities shared by the routing and dispatch modules.
//!
//! Everything here works character-wise over `Seq<char>` views, so the
//! rest of the crate can state its contracts in terms of a few simple
//! spec functions.

use vstd::prelude::*;

verus! {

/// `p` is a prefix of `s`.
pub open spec fn spec_starts_with(s: Seq<char>, p: Seq<char>) -> bool {
    p.len() <= s.len() && s.subrange(0, p.len() as int) == p
}

/// `p` is a suffix of `s`.
pub open spec fn spec_ends_with(s: Seq<char>, p: Seq<char>) -> bool {
    p.len() <= s.len() && s.subrange(s.len() - p.len(), s.len() as int) == p
}

/// `p` occurs in `s` starting at position `i`.
pub open spec fn spec_matches_at(s: Seq<char>, i: int, p: Seq<char>) -> bool {
    0 <= i && i + p.len() <= s.len() && s.subrange(i, i + p.len()) == p
}

/// `p` occurs somewhere in `s`.
pub open spec fn spec_contains(s: Seq<char>, p: Seq<char>) -> bool {
    exists|i: int| spec_matches_at(s, i, p)
}

/// Character equality over a string, spelled out for exec code.
pub fn str_eq(a: &str, b: &str) -> (r: bool)
    ensures
        r == (a@ == b@),
{
    let al = a.unicode_len();
    let bl = b.unicode_len();
    if al != bl {
        return false;
    }
    let mut i: usize = 0;
    while i < al
        invariant
            i <= al,
            al == a@.len(),
            al == b@.len(),
            forall|j: int| 0 <= j < i ==> a@[j] == b@[j],
        decreases al - i,
    {
        if a.get_char(i) != b.get_char(i) {
            return false;
        }
        i += 1;
    }
    proof {
        assert(a@ =~= b@);
    }
    true
}

/// Whether `p` occurs in `s` at position `i`.
pub fn matches_at(s: &str, i: usize, p: &str) -> (r: bool)
    requires
        i <= s@.len(),
    ensures
        r == spec_matches_at(s@, i as int, p@),
{
    let sl = s.unicode_len();
    let pl = p.unicode_len();
    if pl > sl - i {
        return false;
    }
    let mut j: usize = 0;
    while j < pl
        invariant
            j <= pl,
            sl == s@.len(),
            pl == p@.len(),
            i + pl <= sl,
            forall|k: int| 0 <= k < j ==> s@[i + k] == p@[k],
        decreases pl - j,
    {
        if s.get_char(i + j) != p.get_char(j) {
            proof {
                assert(s@.subrange(i as int, i + p@.len())[j as int] != p@[j as int]);
            }
            return false;
        }
        j += 1;
    }
    proof {
        assert(s@.subrange(i as int, i + p@.len()) =~= p@);
    }
    true
}

/// Whether `p` is a prefix of `s`.
pub fn starts_with(s: &str, p: &str) -> (r: bool)
    ensures
        r == spec_starts_with(s@, p@),
{
    matches_at(s, 0, p)
}

/// Whether `p` is a suffix of `s`.
pub fn ends_with(s: &str, p: &str) -> (r: bool)
    ensures
        r == spec_ends_with(s@, p@),
{
    let sl = s.unicode_len();
    let pl = p.unicode_len();
    if pl > sl {
        return false;
    }
    matches_at(s, sl - pl, p)
}

/// Whether `p` occurs anywhere in `s`.
pub fn contains_str(s: &str, p: &str) -> (r: bool)
    ensures
        r == spec_contains(s@, p@),
{
    let sl = s.unicode_len();
    let pl = p.unicode_len();
    if pl > sl {
        return false;
    }
    if pl == 0 {
        proof {
            assert(s@.subrange(0, 0) =~= p@);
            assert(spec_matches_at(s@, 0, p@));
        }
        return true;
    }
    let mut i: usize = 0;
    while i <= sl - pl
        invariant
            0 < pl <= sl,
            sl == s@.len(),
            pl == p@.len(),
            i <= sl - pl + 1,
            forall|j: int| 0 <= j < i ==> !spec_matches_at(s@, j, p@),
        decreases sl - i,
    {
        if matches_at(s, i, p) {
            return true;
        }
        i += 1;
    }
    false
}

/// Whether the character `c` occurs in `s`.
pub fn contains_char(s: &str, c: char) -> (r: bool)
    ensures
        r == s@.contains(c),
{
    let sl = s.unicode_len();
    let mut i: usize = 0;
    while i < sl
        invariant
            i <= sl,
            sl == s@.len(),
            forall|j: int| 0 <= j < i ==> s@[j] != c,
        decreases sl - i,
    {
        if s.get_char(i) == c {
            return true;
        }
        i += 1;
    }
    false
}

/// The position of the last occurrence of `c` in `s`, if any.
pub fn rfind_char(s: &str, c: char) -> (r: Option<usize>)
    ensures
        match r {
            Some(i) => i < s@.len() && s@[i as int] == c && forall|j: int|
                i < j < s@.len() ==> s@[j] != c,
            None => !s@.contains(c),
        },
{
    let sl = s.unicode_len();
    let mut i: usize = sl;
    while i > 0
        invariant
            i <= sl,
            sl == s@.len(),
            forall|j: int| i <= j < sl ==> s@[j] != c,
        decreases i,
    {
        i -= 1;
        if s.get_char(i) == c {
            return Some(i);
        }
    }
    proof {
        assert(forall|j: int| 0 <= j < s@.len() ==> s@[j] != c);
        if s@.contains(c) {
            let j = choose|j: int| 0 <= j < s@.len() && s@[j] == c;
            assert(s@[j] != c);
        }
    }
    None
}

/// `s` with every leading `c` removed.
pub open spec fn spec_trim_left(s: Seq<char>, c: char) -> Seq<char>
    decreases s.len(),
{
    if s.len() > 0 && s[0] == c {
        spec_trim_left(s.drop_first(), c)
    } else {
        s
    }
}

/// `s` with every trailing `c` removed.
pub open spec fn spec_trim_right(s: Seq<char>, c: char) -> Seq<char>
    decreases s.len(),
{
    if s.len() > 0 && s[s.len() - 1] == c {
        spec_trim_right(s.drop_last(), c)
    } else {
        s
    }
}

proof fn lemma_trim_left_skip(s: Seq<char>, c: char, i: int)
    requires
        0 <= i <= s.len(),
        forall|j: int| 0 <= j < i ==> s[j] == c,
    ensures
        i < s.len() && s[i] != c ==> spec_trim_left(s, c) == s.skip(i),
        i == s.len() ==> spec_trim_left(s, c) == Seq::<char>::empty(),
    decreases i,
{
    if i == 0 {
        assert(s.skip(0) =~= s);
        if s.len() == 0 {
            assert(spec_trim_left(s, c) =~= Seq::<char>::empty());
        }
    } else {
        assert(s[0] == c);
        lemma_trim_left_skip(s.drop_first(), c, i - 1);
        assert(s.drop_first().skip(i - 1) =~= s.skip(i));
    }
}

/// `s` with every leading `c` removed.
pub fn trim_left_char(s: &str, c: char) -> (r: &str)
    ensures
        r@ == spec_trim_left(s@, c),
{
    let sl = s.unicode_len();
    let mut i: usize = 0;
    while i < sl
        invariant
            i <= sl,
            sl == s@.len(),
            forall|j: int| 0 <= j < i ==> s@[j] == c,
        decreases sl - i,
    {
        if s.get_char(i) != c {
            proof {
                lemma_trim_left_skip(s@, c, i as int);
                assert(s@.skip(i as int) =~= s@.subrange(i as int, s@.len() as int));
            }
            return s.substring_char(i, sl);
        }
        i += 1;
    }
    proof {
        lemma_trim_left_skip(s@, c, sl as int);
        assert(s@.subrange(sl as int, sl as int) =~= Seq::<char>::empty());
    }
    s.substring_char(sl, sl)
}

proof fn lemma_trim_right_take(s: Seq<char>, c: char, i: int)
    requires
        0 <= i <= s.len(),
        forall|j: int| i <= j < s.len() ==> s[j] == c,
    ensures
        0 < i ==> s[i - 1] != c ==> spec_trim_right(s, c) == s.take(i),
        i == 0 ==> spec_trim_right(s, c) == Seq::<char>::empty(),
    decreases s.len() - i,
{
    if i == s.len() {
        assert(s.take(i) =~= s);
        if i == 0 {
            assert(spec_trim_right(s, c) =~= Seq::<char>::empty());
        }
    } else {
        assert(s[s.len() - 1] == c);
        lemma_trim_right_take(s.drop_last(), c, i);
        assert(s.drop_last().take(i) =~= s.take(i));
    }
}

/// `s` with every trailing `c` removed.
pub fn trim_right_char(s: &str, c: char) -> (r: &str)
    ensures
        r@ == spec_trim_right(s@, c),
{
    let sl = s.unicode_len();
    let mut i: usize = sl;
    while i > 0
        invariant
            i <= sl,
            sl == s@.len(),
            forall|j: int| i <= j < sl ==> s@[j] == c,
        decreases i,
    {
        if s.get_char(i - 1) != c {
            proof {
                lemma_trim_right_take(s@, c, i as int);
                assert(s@.take(i as int) =~= s@.subrange(0, i as int));
            }
            return s.substring_char(0, i);
        }
        i -= 1;
    }
    proof {
        lemma_trim_right_take(s@, c, 0);
        assert(s@.subrange(0, 0) =~= Seq::<char>::empty());
    }
    s.substring_char(0, 0)
}

/// One folding step of [`spec_join`]: the accumulator after absorbing `next`.
pub open spec fn spec_join_step(acc: Seq<char>, sep: Seq<char>, next: Seq<char>) -> Seq<char> {
    if acc.len() == 0 {
        acc + next
    } else {
        acc + sep + next
    }
}

/// The left fold that [`join_string`] computes, starting from `acc`.
pub open spec fn spec_join_acc(l: Seq<Seq<char>>, sep: Seq<char>, acc: Seq<char>) -> Seq<char>
    decreases l.len(),
{
    if l.len() == 0 {
        acc
    } else {
        spec_join_acc(l.drop_first(), sep, spec_join_step(acc, sep, l[0]))
    }
}

/// The elements of `l` joined by `sep`.  While the accumulator is still
/// empty no separator is emitted, so empty strings at the front of the
/// list do not produce leading separators.
pub open spec fn spec_join(l: Seq<Seq<char>>, sep: Seq<char>) -> Seq<char> {
    spec_join_acc(l, sep, Seq::<char>::empty())
}

/// The view of a vector of strings, element-wise.
pub open spec fn strings_view(l: Seq<String>) -> Seq<Seq<char>> {
    l.map_values(|s: String| s@)
}

/// Join a list of strings with a separator.
pub fn join_string(list: &Vec<String>, sep: &str) -> (r: String)
    ensures
        r@ == spec_join(strings_view(list@), sep@),
{
    let mut acc = String::new();
    let mut i: usize = 0;
    proof {
        assert(strings_view(list@).skip(0) =~= strings_view(list@));
    }
    while i < list.len()
        invariant
            i <= list@.len(),
            spec_join_acc(strings_view(list@).skip(i as int), sep@, acc@) == spec_join(
                strings_view(list@),
                sep@,
            ),
        decreases list@.len() - i,
    {
        proof {
            let l = strings_view(list@);
            assert(l.skip(i as int).drop_first() =~= l.skip(i + 1));
            assert(l.skip(i as int)[0] == l[i as int]);
        }
        if !acc.as_str().is_empty() {
            acc.append(sep);
        }
        acc.append(list[i].as_str());
        i += 1;
    }
    proof {
        assert(strings_view(list@).skip(list@.len() as int) =~= Seq::<Seq<char>>::empty());
    }
    acc
}


/// The decimal digit character for `d` (0 to 9).
pub open spec fn spec_digit(d: int) -> char {
    if d == 0 { '0' }
    else if d == 1 { '1' }
    else if d == 2 { '2' }
    else if d == 3 { '3' }
    else if d == 4 { '4' }
    else if d == 5 { '5' }
    else if d == 6 { '6' }
    else if d == 7 { '7' }
    else if d == 8 { '8' }
    else { '9' }
}

/// The usual decimal rendering of `n`, without leading zeros.
pub open spec fn spec_dec(n: int) -> Seq<char>
    decreases n,
{
    if n < 10 {
        seq![spec_digit(n)]
    } else {
        spec_dec(n / 10).push(spec_digit(n % 10))
    }
}

/// `c` is a decimal digit.
pub open spec fn spec_is_digit(c: char) -> bool {
    '0' <= c && c <= '9'
}

/// The numeric value of digit `c`.
pub open spec fn spec_digit_val(c: char) -> int {
    c as int - '0' as int
}

/// The number that the digit string `s` denotes.
pub open spec fn spec_num(s: Seq<char>) -> int
    decreases s.len(),
{
    if s.len() == 0 {
        0
    } else {
        spec_num(s.drop_last()) * 10 + spec_digit_val(s.last())
    }
}

/// The decimal digit character for `d`.
pub fn digit_str(d: usize) -> (r: &'static str)
    requires
        d < 10,
    ensures
        r@ == seq![spec_digit(d as int)],
{
    let r = match d {
        0 => "0",
        1 => "1",
        2 => "2",
        3 => "3",
        4 => "4",
        5 => "5",
        6 => "6",
        7 => "7",
        8 => "8",
        _ => "9",
    };
    proof {
        reveal_strlit("0");
        reveal_strlit("1");
        reveal_strlit("2");
        reveal_strlit("3");
        reveal_strlit("4");
        reveal_strlit("5");
        reveal_strlit("6");
        reveal_strlit("7");
        reveal_strlit("8");
        reveal_strlit("9");
        assert(r@ =~= seq![spec_digit(d as int)]);
    }
    r
}

/// Render `n` in decimal.
pub fn usize_to_string(n: usize) -> (r: String)
    ensures
        r@ == spec_dec(n as int),
    decreases n,
{
    if n < 10 {
        digit_str(n).to_owned()
    } else {
        let mut s = usize_to_string(n / 10);
        s.append(digit_str(n % 10));
        proof {
            assert(s@ =~= spec_dec((n / 10) as int).push(spec_digit((n % 10) as int)));
        }
        s
    }
}

/// Parse a decimal digit string.  Succeeds exactly on nonempty strings
/// of digits whose value fits a `usize`.
pub fn parse_usize(s: &str) -> (r: Option<usize>)
    ensures
        match r {
            Some(n) => s@.len() > 0 && (forall|i: int| 0 <= i < s@.len() ==> spec_is_digit(s@[i]))
                && n == spec_num(s@),
            None => s@.len() == 0 || (exists|i: int|
                0 <= i < s@.len() && !spec_is_digit(s@[i])) || spec_num(s@) > usize::MAX,
        },
{
    let sl = s.unicode_len();
    if sl == 0 {
        return None;
    }
    let mut acc: usize = 0;
    let mut i: usize = 0;
    while i < sl
        invariant
            i <= sl,
            sl == s@.len(),
            forall|j: int| 0 <= j < i ==> spec_is_digit(s@[j]),
            acc == spec_num(s@.take(i as int)),
            spec_num(s@.take(i as int)) <= usize::MAX,
        decreases sl - i,
    {
        let c = s.get_char(i);
        if !('0' <= c && c <= '9') {
            proof {
                assert(!spec_is_digit(s@[i as int]));
            }
            return None;
        }
        let d: usize = (c as u32 - '0' as u32) as usize;
        proof {
            assert(s@.take(i + 1).drop_last() =~= s@.take(i as int));
            assert(s@.take(i + 1).last() == s@[i as int]);
        }
        if acc > (usize::MAX - d) / 10 {
            proof {
                let m = usize::MAX as int;
                assert((m - d) / 10 * 10 + (m - d) % 10 == m - d);
                assert(acc * 10 + d > m) by (nonlinear_arith)
                    requires
                        acc > (m - d) / 10,
                        (m - d) / 10 * 10 + (m - d) % 10 == m - d,
                        0 <= (m - d) % 10 < 10,
                        d >= 0,
                        acc >= 0,
                ;
                assert(spec_num(s@.take(i + 1)) == acc * 10 + d);
                if forall|j: int| 0 <= j < s@.len() ==> spec_is_digit(s@[j]) {
                    lemma_num_monotone(s@, i + 1);
                    assert(spec_num(s@) > usize::MAX);
                }
            }
            return None;
        }
        acc = acc * 10 + d;
        i += 1;
    }
    proof {
        assert(s@.take(sl as int) =~= s@);
    }
    Some(acc)
}

/// A digit string's value only grows as it gets longer, as long as its
/// tail consists of digits and the prefix value is not negative.
proof fn lemma_num_monotone(s: Seq<char>, i: int)
    requires
        0 <= i <= s.len(),
        spec_num(s.take(i)) >= 0,
        forall|j: int| i <= j < s.len() ==> spec_is_digit(s[j]),
    ensures
        spec_num(s) >= spec_num(s.take(i)),
    decreases s.len() - i,
{
    if i < s.len() {
        assert(s.take(i + 1).drop_last() =~= s.take(i));
        assert(s.take(i + 1).last() == s[i]);
        assert(spec_num(s.take(i + 1)) == spec_num(s.take(i)) * 10 + spec_digit_val(s[i]));
        assert(spec_digit_val(s[i]) >= 0);
        assert(spec_num(s.take(i)) * 10 >= spec_num(s.take(i))) by (nonlinear_arith)
            requires
                spec_num(s.take(i)) >= 0,
        ;
        lemma_num_monotone(s, i + 1);
    } else {
        assert(s.take(i) =~= s);
    }
}

} // verus!
