//! Text helpers on character sequences.

use vstd::prelude::*;

verus! {

/// Whether two strings hold the same characters.
pub fn str_eq(a: &str, b: &str) -> (same: bool)
    ensures
        same == (a@ == b@),
{
    let n = a.unicode_len();
    if n != b.unicode_len() {
        return false;
    }
    let mut i: usize = 0;
    while i < n
        invariant
            n == a@.len(),
            n == b@.len(),
            i <= n,
            forall|j: int| 0 <= j < i ==> a@[j] == b@[j],
        decreases n - i,
    {
        if a.get_char(i) != b.get_char(i) {
            return false;
        }
        i += 1;
    }
    assert(a@ =~= b@);
    true
}

/// Appends one character to `s`.
///
/// Trusted: `String::push`, which std documents as appending the given `char`
/// to the end of the string.
#[verifier::external_body]
pub(crate) fn push_char(s: &mut String, c: char)
    ensures
        final(s)@ == old(s)@.push(c),
{
    s.push(c);
}

/// The character of a decimal digit.
pub open spec fn spec_digit(d: int) -> char {
    (d + 48) as char
}

/// `n` written in decimal, without sign or leading zeros.
pub open spec fn spec_decimal(n: nat) -> Seq<char>
    decreases n,
{
    if n < 10 {
        seq![spec_digit(n as int)]
    } else {
        spec_decimal(n / 10).push(spec_digit((n % 10) as int))
    }
}

fn digit(d: u64) -> (c: char)
    requires
        d < 10,
    ensures
        c == spec_digit(d as int),
{
    ((d as u8) + 48u8) as char
}

/// Every character of a number written in decimal is a digit, and there
/// is at least one.
pub proof fn lemma_decimal_digits(n: nat)
    ensures
        spec_decimal(n).len() >= 1,
        forall|i: int|
            0 <= i < spec_decimal(n).len() ==> 48 <= (#[trigger] spec_decimal(n)[i]) as int <= 57,
    decreases n,
{
    let d = (n % 10) as int;
    assert((d + 48) as char as int == d + 48);
    if n >= 10 {
        lemma_decimal_digits(n / 10);
        let s = spec_decimal(n);
        assert forall|i: int| 0 <= i < s.len() implies 48 <= (#[trigger] s[i]) as int <= 57 by {
            if i < s.len() - 1 {
                assert(s[i] == spec_decimal(n / 10)[i]);
            }
        }
    } else {
        assert(spec_decimal(n)[0] == spec_digit(n as int));
    }
}

/// `n` written in decimal.
pub fn decimal(n: u64) -> (s: String)
    ensures
        s@ == spec_decimal(n as nat),
    decreases n,
{
    if n < 10 {
        let mut s = String::new();
        push_char(&mut s, digit(n));
        proof {
            assert(s@ =~= seq![spec_digit(n as int)]);
        }
        s
    } else {
        let mut s = decimal(n / 10);
        push_char(&mut s, digit(n % 10));
        s
    }
}

/// The characters of each string, in order.
pub open spec fn views(v: Seq<String>) -> Seq<Seq<char>> {
    v.map_values(|s: String| s@)
}

/// Appends a copy of `s` to `args`.
pub fn push_arg(args: &mut Vec<String>, s: &str)
    ensures
        views(final(args)@) == views(old(args)@).push(s@),
{
    args.push(s.to_owned());
    proof {
        assert(views(args@) =~= views(old(args)@).push(s@));
    }
}

/// Appends `s` to `args`.
pub fn push_owned(args: &mut Vec<String>, s: String)
    ensures
        views(final(args)@) == views(old(args)@).push(s@),
{
    let ghost v = s@;
    args.push(s);
    proof {
        assert(views(args@) =~= views(old(args)@).push(v));
    }
}

/// `s` split at every `sep`, as `str::split` splits it: `n` separators give
/// `n + 1` pieces, empty ones included.
pub open spec fn split_on(s: Seq<char>, sep: char) -> Seq<Seq<char>>
    decreases s.len(),
{
    if s.len() == 0 {
        seq![Seq::<char>::empty()]
    } else {
        let init = split_on(s.drop_last(), sep);
        if s.last() == sep {
            init.push(Seq::<char>::empty())
        } else {
            init.update(init.len() - 1, init.last().push(s.last()))
        }
    }
}

pub proof fn lemma_split_on_nonempty(s: Seq<char>, sep: char)
    ensures
        split_on(s, sep).len() >= 1,
    decreases s.len(),
{
    if s.len() > 0 {
        lemma_split_on_nonempty(s.drop_last(), sep);
    }
}

/// A separator ends one piece and starts the next.
pub proof fn lemma_split_on_concat(a: Seq<char>, sep: char, b: Seq<char>)
    ensures
        split_on(a.push(sep) + b, sep) == split_on(a, sep) + split_on(b, sep),
    decreases b.len(),
{
    let x = a.push(sep) + b;
    if b.len() == 0 {
        assert(x =~= a.push(sep));
        assert(x.drop_last() =~= a);
        assert(split_on(x, sep) =~= split_on(a, sep) + split_on(b, sep));
    } else {
        assert(x.drop_last() =~= a.push(sep) + b.drop_last());
        lemma_split_on_concat(a, sep, b.drop_last());
        lemma_split_on_nonempty(b.drop_last(), sep);
        assert(x.last() == b.last());
        assert(split_on(x, sep) =~= split_on(a, sep) + split_on(b, sep));
    }
}

} // verus!

verus! {

/// A character Unicode counts as white space, as `char::is_whitespace` does.
pub open spec fn is_space(c: char) -> bool {
    ('\u{9}' <= c && c <= '\u{d}') || c == ' ' || c == '\u{85}' || c == '\u{a0}' || c == '\u{1680}'
        || ('\u{2000}' <= c && c <= '\u{200a}') || c == '\u{2028}' || c == '\u{2029}' || c
        == '\u{202f}' || c == '\u{205f}' || c == '\u{3000}'
}

fn is_space_exec(c: char) -> (space: bool)
    ensures
        space == is_space(c),
{
    ('\u{9}' <= c && c <= '\u{d}') || c == ' ' || c == '\u{85}' || c == '\u{a0}' || c == '\u{1680}'
        || ('\u{2000}' <= c && c <= '\u{200a}') || c == '\u{2028}' || c == '\u{2029}' || c
        == '\u{202f}' || c == '\u{205f}' || c == '\u{3000}'
}

/// How many characters of white space `s` starts with.
pub open spec fn leading_space(s: Seq<char>) -> nat
    decreases s.len(),
{
    if s.len() > 0 && is_space(s[0]) {
        1 + leading_space(s.drop_first())
    } else {
        0
    }
}

/// How many characters of white space `s` ends with.
pub open spec fn trailing_space(s: Seq<char>) -> nat
    decreases s.len(),
{
    if s.len() > 0 && is_space(s.last()) {
        1 + trailing_space(s.drop_last())
    } else {
        0
    }
}

/// `s` without white space at either end, as `str::trim` leaves it.
pub open spec fn trimmed(s: Seq<char>) -> Seq<char> {
    let front = s.skip(leading_space(s) as int);
    front.take(front.len() - trailing_space(front))
}

proof fn lemma_leading_space(s: Seq<char>, i: int)
    requires
        0 <= i <= s.len(),
        forall|j: int| 0 <= j < i ==> is_space(s[j]),
    ensures
        leading_space(s) == i + leading_space(s.skip(i)),
    decreases i,
{
    if i > 0 {
        assert(s.drop_first().skip(i - 1) =~= s.skip(i));
        lemma_leading_space(s.drop_first(), i - 1);
    } else {
        assert(s.skip(0) =~= s);
    }
}

proof fn lemma_trailing_space(s: Seq<char>, k: int)
    requires
        0 <= k <= s.len(),
        forall|j: int| k <= j < s.len() ==> is_space(s[j]),
    ensures
        trailing_space(s) == (s.len() - k) + trailing_space(s.take(k)),
    decreases s.len() - k,
{
    if k < s.len() {
        assert(s.drop_last().take(k) =~= s.take(k));
        lemma_trailing_space(s.drop_last(), k);
    } else {
        assert(s.take(k) =~= s);
    }
}

proof fn lemma_space_bounds(s: Seq<char>)
    ensures
        leading_space(s) <= s.len(),
        trailing_space(s) <= s.len(),
    decreases s.len(),
{
    if s.len() > 0 {
        lemma_space_bounds(s.drop_first());
        lemma_space_bounds(s.drop_last());
    }
}

/// `s` without white space at either end.
pub fn trim(s: &str) -> (t: String)
    ensures
        t@ == trimmed(s@),
{
    let n = s.unicode_len();
    let mut start: usize = 0;
    while start < n && is_space_exec(s.get_char(start))
        invariant
            n == s@.len(),
            start <= n,
            forall|j: int| 0 <= j < start ==> is_space(s@[j]),
        decreases n - start,
    {
        start += 1;
    }
    proof {
        lemma_leading_space(s@, start as int);
        if start < n {
            assert(s@.skip(start as int)[0] == s@[start as int]);
        }
        assert(leading_space(s@.skip(start as int)) == 0);
    }
    let mut end: usize = n;
    while end > start && is_space_exec(s.get_char(end - 1))
        invariant
            n == s@.len(),
            start <= end <= n,
            forall|j: int| end <= j < n ==> is_space(s@[j]),
        decreases end,
    {
        end -= 1;
    }
    proof {
        let front = s@.skip(start as int);
        let k = end - start;
        assert forall|j: int| k <= j < front.len() implies is_space(front[j]) by {
            assert(front[j] == s@[start + j]);
        }
        lemma_trailing_space(front, k);
        if k > 0 {
            assert(front.take(k).last() == s@[end - 1]);
        }
        assert(trailing_space(front.take(k)) == 0);
        assert(front.take(k) =~= s@.subrange(start as int, end as int));
    }
    s.substring_char(start, end).to_owned()
}

/// Where `pattern` first occurs in `s`.
pub open spec fn occurs_at(s: Seq<char>, pattern: Seq<char>, at: int) -> bool {
    0 <= at && at + pattern.len() <= s.len() && s.subrange(at, at + pattern.len()) == pattern
}

#[verifier::opaque]
pub open spec fn spec_find(s: Seq<char>, pattern: Seq<char>) -> Option<int> {
    if exists|at: int| occurs_at(s, pattern, at) {
        Some(choose|at: int| occurs_at(s, pattern, at) && forall|b: int| 0 <= b < at ==> !occurs_at(s, pattern, b))
    } else {
        None
    }
}

/// Whether `pattern` occurs in `s` starting at `at`.
fn occurs_at_exec(s: &str, pattern: &str, at: usize) -> (occurs: bool)
    ensures
        occurs == occurs_at(s@, pattern@, at as int),
{
    let n = s.unicode_len();
    let m = pattern.unicode_len();
    if at > n || m > n - at {
        return false;
    }
    let mut i: usize = 0;
    while i < m
        invariant
            n == s@.len(),
            m == pattern@.len(),
            at + m <= n,
            i <= m,
            forall|j: int| 0 <= j < i ==> s@[at + j] == pattern@[j],
        decreases m - i,
    {
        if s.get_char(at + i) != pattern.get_char(i) {
            assert(s@.subrange(at as int, at + m)[i as int] != pattern@[i as int]);
            return false;
        }
        i += 1;
    }
    assert(s@.subrange(at as int, at + m) =~= pattern@);
    true
}

/// Where `pattern` first occurs in `s`, counted in characters.
pub fn find(s: &str, pattern: &str) -> (at: Option<usize>)
    ensures
        match at {
            Some(k) => spec_find(s@, pattern@) == Some(k as int),
            None => spec_find(s@, pattern@) is None,
        },
{
    reveal(spec_find);
    let n = s.unicode_len();
    if pattern.unicode_len() == 0 {
        assert(s@.subrange(0, 0) =~= pattern@);
        assert(occurs_at(s@, pattern@, 0));
        let ghost chosen = choose|k: int| occurs_at(s@, pattern@, k) && forall|b: int| 0 <= b < k ==> !occurs_at(s@, pattern@, b);
        assert(chosen == 0) by {
            if chosen > 0 {
            }
        }
        return Some(0);
    }
    let mut at: usize = 0;
    while at < n
        invariant
            n == s@.len(),
            pattern@.len() > 0,
            at <= n,
            forall|b: int| 0 <= b < at ==> !occurs_at(s@, pattern@, b),
        decreases n - at,
    {
        if occurs_at_exec(s, pattern, at) {
            proof {
                reveal(spec_find);
            }
            assert(occurs_at(s@, pattern@, at as int));
            let ghost chosen = choose|k: int| occurs_at(s@, pattern@, k) && forall|b: int| 0 <= b < k ==> !occurs_at(s@, pattern@, b);
            assert(chosen == at) by {
                if chosen < at {
                } else if chosen > at {
                }
            }
            return Some(at);
        }
        at += 1;
    }
    assert forall|b: int| !occurs_at(s@, pattern@, b) by {
        if 0 <= b < at {
        }
    }
    None
}


/// Where `pattern` is found, it fits inside `s`.
pub proof fn lemma_find_bounds(s: Seq<char>, pattern: Seq<char>)
    ensures
        spec_find(s, pattern) matches Some(k) ==> 0 <= k && k + pattern.len() <= s.len(),
{
    reveal(spec_find);
    if exists|at: int| occurs_at(s, pattern, at) {
        let at = choose|at: int| occurs_at(s, pattern, at);
        lemma_first_occurrence(s, pattern, at);
    }
}

/// Some occurrence means a first one.
pub proof fn lemma_first_occurrence(s: Seq<char>, pattern: Seq<char>, at: int)
    requires
        occurs_at(s, pattern, at),
    ensures
        exists|k: int| occurs_at(s, pattern, k) && forall|b: int| 0 <= b < k ==> !occurs_at(s, pattern, b),
    decreases at,
{
    if exists|b: int| 0 <= b < at && occurs_at(s, pattern, b) {
        let b = choose|b: int| 0 <= b < at && occurs_at(s, pattern, b);
        lemma_first_occurrence(s, pattern, b);
    } else {
        assert(occurs_at(s, pattern, at) && forall|b: int| 0 <= b < at ==> !occurs_at(s, pattern, b));
    }
}


/// Before where `pattern` is first found, and anywhere when it is not
/// found, it does not occur.
pub proof fn lemma_find_is_first(s: Seq<char>, pattern: Seq<char>)
    ensures
        match spec_find(s, pattern) {
            Some(k) => forall|b: int| 0 <= b < k ==> !occurs_at(s, pattern, b),
            None => forall|b: int| !occurs_at(s, pattern, b),
        },
{
    reveal(spec_find);
    if exists|at: int| occurs_at(s, pattern, at) {
        let at = choose|at: int| occurs_at(s, pattern, at);
        lemma_first_occurrence(s, pattern, at);
    }
}

/// Trimming keeps a run of the characters, in place.
pub proof fn lemma_trimmed_is_inside(s: Seq<char>)
    ensures
        forall|i: int| 0 <= i < trimmed(s).len() ==> exists|j: int| 0 <= j < s.len() && #[trigger] trimmed(s)[i] == s[j],
{
    lemma_space_bounds(s);
    let front = s.skip(leading_space(s) as int);
    lemma_space_bounds(front);
    assert forall|i: int| 0 <= i < trimmed(s).len() implies exists|j: int| 0 <= j < s.len() && #[trigger] trimmed(s)[i] == s[j] by {
        assert(trimmed(s)[i] == s[leading_space(s) + i]);
    }
}

} // verus!
