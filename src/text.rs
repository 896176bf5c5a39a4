//! Text helpers over character sequences: substring search, decimal
//! rendering and string building.

use vstd::prelude::*;
use vstd::std_specs::iter::IteratorSpec;

verus! {

/// The characters of a string, in order.
pub fn chars_of(s: &str) -> (r: Vec<char>)
    ensures
        r@ == s@,
{
    broadcast use vstd::string::axiom_spec_iter, vstd::string::next_postcondition;
    let n = s.unicode_len();
    let mut it = s.chars();
    let mut out: Vec<char> = Vec::new();
    let mut i: usize = 0;
    while i < n
        invariant
            n == s@.len(),
            i == out@.len(),
            out@ + it.remaining() == s@,
            it.obeys_prophetic_iter_laws(),
        decreases n - i,
    {
        let ghost before = it.remaining();
        let next = it.next();
        assert(before.len() > 0);
        if let Some(c) = next {
            out.push(c);
            assert(before == seq![c] + it.remaining());
        }
        i += 1;
    }
    assert(out@.len() == s@.len());
    assert(out@ =~= s@);
    out
}

/// `needle` occurs in `hay` starting at position `i`.
pub open spec fn occurs_at(hay: Seq<char>, needle: Seq<char>, i: int) -> bool {
    0 <= i && i + needle.len() <= hay.len() && hay.subrange(i, i + needle.len()) == needle
}

/// `needle` occurs somewhere in `hay`.
pub open spec fn has_substring(hay: Seq<char>, needle: Seq<char>) -> bool {
    exists|i: int| occurs_at(hay, needle, i)
}

/// Whether `needle` occurs in `hay` at position `i`.
fn matches_at(hay: &Vec<char>, needle: &Vec<char>, i: usize) -> (r: bool)
    requires
        i + needle@.len() <= hay@.len(),
    ensures
        r == occurs_at(hay@, needle@, i as int),
{
    let m = needle.len();
    let len = hay.len();
    let mut k: usize = 0;
    while k < m
        invariant
            m == needle@.len(),
            len == hay@.len(),
            i + m <= hay@.len(),
            k <= m,
            hay@.subrange(i as int, i + k) == needle@.subrange(0, k as int),
        decreases m - k,
    {
        if hay[i + k] != needle[k] {
            assert(hay@.subrange(i as int, i + m)[k as int] != needle@[k as int]);
            return false;
        }
        assert(hay@.subrange(i as int, i + k + 1) == hay@.subrange(i as int, i + k).push(hay@[i + k]));
        assert(needle@.subrange(0, k + 1) == needle@.subrange(0, k as int).push(needle@[k as int]));
        k += 1;
    }
    assert(needle@.subrange(0, m as int) == needle@);
    true
}

/// Whether `needle` occurs in `hay`, over character vectors.
pub fn contains_chars(hay: &Vec<char>, needle: &Vec<char>) -> (r: bool)
    ensures
        r == has_substring(hay@, needle@),
{
    let n = hay.len();
    let m = needle.len();
    if m > n {
        assert forall|i: int| !occurs_at(hay@, needle@, i) by {}
        return false;
    }
    let mut i: usize = 0;
    while i <= n - m
        invariant
            n == hay@.len(),
            m == needle@.len(),
            m <= n,
            i <= n - m + 1,
            forall|j: int| 0 <= j < i ==> !occurs_at(hay@, needle@, j),
        decreases n - m + 1 - i,
    {
        if matches_at(hay, needle, i) {
            return true;
        }
        if i == n - m {
            assert forall|j: int| !occurs_at(hay@, needle@, j) by {
                if 0 <= j < i {
                }
            }
            return false;
        }
        i += 1;
    }
    assert forall|j: int| !occurs_at(hay@, needle@, j) by {
        if 0 <= j < i {
        }
    }
    false
}

/// Whether `needle` occurs in `hay`.
pub fn str_contains(hay: &str, needle: &str) -> (r: bool)
    ensures
        r == has_substring(hay@, needle@),
{
    let h = chars_of(hay);
    let n = chars_of(needle);
    contains_chars(&h, &n)
}

/// Relies on `String::push`: the character is appended at the end.
#[verifier::external_body]
pub(crate) fn push_char(s: &mut String, c: char)
    ensures
        final(s)@ == old(s)@.push(c),
{
    s.push(c)
}

/// Appends a string.
pub fn push_str(s: &mut String, t: &str)
    ensures
        final(s)@ == old(s)@ + t@,
{
    s.append(t);
}

/// The decimal digit for `d` below ten.
pub open spec fn digit_char(d: int) -> char {
    if d == 0 { '0' } else if d == 1 { '1' } else if d == 2 { '2' } else if d == 3 { '3' }
    else if d == 4 { '4' } else if d == 5 { '5' } else if d == 6 { '6' } else if d == 7 { '7' }
    else if d == 8 { '8' } else { '9' }
}

/// The decimal notation of a natural number, without leading zeros.
pub open spec fn decimal(n: nat) -> Seq<char>
    decreases n,
{
    if n < 10 {
        seq![digit_char(n as int)]
    } else {
        decimal(n / 10) + seq![digit_char((n % 10) as int)]
    }
}

fn digit(d: u64) -> (c: char)
    requires
        d < 10,
    ensures
        c == digit_char(d as int),
{
    if d == 0 { '0' } else if d == 1 { '1' } else if d == 2 { '2' } else if d == 3 { '3' }
    else if d == 4 { '4' } else if d == 5 { '5' } else if d == 6 { '6' } else if d == 7 { '7' }
    else if d == 8 { '8' } else { '9' }
}

/// Appends the decimal notation of `n`.
pub fn push_decimal(s: &mut String, n: u64)
    ensures
        final(s)@ == old(s)@ + decimal(n as nat),
    decreases n,
{
    if n >= 10 {
        push_decimal(s, n / 10);
    }
    push_char(s, digit(n % 10));
    assert(final(s)@ =~= old(s)@ + decimal(n as nat)) by {
        if n >= 10 {
            assert(decimal(n as nat) == decimal((n / 10) as nat) + seq![digit_char((n % 10) as int)]);
        }
    }
}

/// The decimal notation of a natural number, as a new string.
pub fn decimal_string(n: u64) -> (r: String)
    ensures
        r@ == decimal(n as nat),
{
    let mut s = String::new();
    push_decimal(&mut s, n);
    assert(s@ =~= decimal(n as nat));
    s
}

/// The fractional digits of `f` thousandths (below 1000), without trailing zeros.
pub open spec fn fraction_digits(f: int) -> Seq<char> {
    if f % 100 == 0 {
        seq![digit_char(f / 100)]
    } else if f % 10 == 0 {
        seq![digit_char(f / 100), digit_char((f / 10) % 10)]
    } else {
        seq![digit_char(f / 100), digit_char((f / 10) % 10), digit_char(f % 10)]
    }
}

/// A count of thousandths written as a shortest decimal fraction:
/// `850` is `0.85`, `1000` is `1`, `5` is `0.005`.
pub open spec fn thousandths_text(m: nat) -> Seq<char> {
    if m % 1000 == 0 {
        decimal(m / 1000)
    } else {
        decimal(m / 1000) + seq!['.'] + fraction_digits((m % 1000) as int)
    }
}

/// Appends `m` thousandths as a shortest decimal fraction.
pub fn push_thousandths(s: &mut String, m: u32)
    ensures
        final(s)@ == old(s)@ + thousandths_text(m as nat),
{
    let whole = (m / 1000) as u64;
    let f = (m % 1000) as u64;
    push_decimal(s, whole);
    if f != 0 {
        push_char(s, '.');
        push_char(s, digit(f / 100));
        if f % 100 != 0 {
            push_char(s, digit((f / 10) % 10));
            if f % 10 != 0 {
                push_char(s, digit(f % 10));
            }
        }
    }
    assert(final(s)@ =~= old(s)@ + thousandths_text(m as nat));
}

/// `s` with every double quote written twice.
pub open spec fn double_quotes(s: Seq<char>) -> Seq<char>
    decreases s.len(),
{
    if s.len() == 0 {
        Seq::empty()
    } else {
        let rest = double_quotes(s.drop_last());
        if s.last() == '"' {
            rest + seq!['"', '"']
        } else {
            rest.push(s.last())
        }
    }
}

/// Appends `t` with every double quote doubled.
pub fn push_quote_doubled(s: &mut String, t: &str)
    ensures
        final(s)@ == old(s)@ + double_quotes(t@),
{
    let cs = chars_of(t);
    let n = cs.len();
    let mut i: usize = 0;
    while i < n
        invariant
            n == t@.len(),
            cs@ == t@,
            i <= n,
            s@ == old(s)@ + double_quotes(t@.subrange(0, i as int)),
        decreases n - i,
    {
        let c = cs[i];
        assert(t@.subrange(0, i + 1).drop_last() == t@.subrange(0, i as int));
        if c == '"' {
            push_char(s, '"');
            push_char(s, '"');
        } else {
            push_char(s, c);
        }
        assert(s@ =~= old(s)@ + double_quotes(t@.subrange(0, i + 1)));
        i += 1;
    }
    assert(t@.subrange(0, n as int) == t@);
}

/// The concatenation of `items`, with `sep` between neighbours.
pub open spec fn joined(items: Seq<Seq<char>>, sep: Seq<char>) -> Seq<char>
    decreases items.len(),
{
    if items.len() == 0 {
        Seq::empty()
    } else if items.len() == 1 {
        items[0]
    } else {
        joined(items.drop_last(), sep) + sep + items.last()
    }
}

/// Appends the strings of `items` with `sep` between neighbours.
pub fn push_joined(s: &mut String, items: &Vec<String>, sep: &str)
    ensures
        final(s)@ == old(s)@ + joined(items@.map_values(|x: String| x@), sep@),
{
    let ghost views = items@.map_values(|x: String| x@);
    let n = items.len();
    let mut i: usize = 0;
    while i < n
        invariant
            n == items@.len(),
            views == items@.map_values(|x: String| x@),
            i <= n,
            s@ == old(s)@ + joined(views.subrange(0, i as int), sep@),
        decreases n - i,
    {
        assert(views.subrange(0, i + 1).drop_last() == views.subrange(0, i as int));
        if i > 0 {
            push_str(s, sep);
        }
        push_str(s, items[i].as_str());
        assert(s@ =~= old(s)@ + joined(views.subrange(0, i + 1), sep@));
        i += 1;
    }
    assert(views.subrange(0, n as int) == views);
}

} // verus!
