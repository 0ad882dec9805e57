//! Character-level text utilities with their specifications: whitespace
//! trimming, splitting on a separator, unsigned decimal parsing and printing.

use vstd::prelude::*;
use crate::outside::push_char;

verus! {

broadcast use vstd::string::group_string_axioms;

/// The characters of `s`, in order.
pub fn chars_of(s: &str) -> (r: Vec<char>)
    ensures
        r@ == s@,
{
    let mut r: Vec<char> = Vec::new();
    for c in it: s.chars()
        invariant
            r@ == it.seq().take(it.index()),
    {
        r.push(c);
    }
    r
}

/// Appends the characters `cs[lo..hi]` to `s`.
pub fn push_chars(s: &mut String, cs: &Vec<char>, lo: usize, hi: usize)
    requires
        lo <= hi <= cs@.len(),
    ensures
        final(s)@ == old(s)@ + cs@.subrange(lo as int, hi as int),
{
    let mut i = lo;
    while i < hi
        invariant
            lo <= i <= hi <= cs@.len(),
            s@ == old(s)@ + cs@.subrange(lo as int, i as int),
        decreases hi - i,
    {
        push_char(s, cs[i]);
        assert(cs@.subrange(lo as int, i + 1) == cs@.subrange(lo as int, i as int).push(cs@[i as int]));
        i = i + 1;
    }
}

/// A string holding exactly the characters `cs[lo..hi]`.
pub fn string_from_range(cs: &Vec<char>, lo: usize, hi: usize) -> (r: String)
    requires
        lo <= hi <= cs@.len(),
    ensures
        r@ == cs@.subrange(lo as int, hi as int),
{
    let mut r = String::new();
    push_chars(&mut r, cs, lo, hi);
    r
}

/// A string holding exactly the characters of `cs`.
pub fn string_from_chars(cs: &Vec<char>) -> (r: String)
    ensures
        r@ == cs@,
{
    let r = string_from_range(cs, 0, cs.len());
    assert(cs@.subrange(0, cs@.len() as int) == cs@);
    r
}

/// A copy of `s` as an owned string.
pub fn owned(s: &str) -> (r: String)
    ensures
        r@ == s@,
{
    let cs = chars_of(s);
    string_from_chars(&cs)
}

/// Appends all of `t` to `s`.
pub fn push_text(s: &mut String, t: &str)
    ensures
        final(s)@ == old(s)@ + t@,
{
    let cs = chars_of(t);
    push_chars(s, &cs, 0, cs.len());
    assert(cs@.subrange(0, cs@.len() as int) == cs@);
}

/// Whether two texts are equal.
pub fn text_eq(a: &str, b: &str) -> (r: bool)
    ensures
        r == (a@ == b@),
{
    let x = chars_of(a);
    let y = chars_of(b);
    if x.len() != y.len() {
        return false;
    }
    let mut i: usize = 0;
    while i < x.len()
        invariant
            x@ == a@,
            y@ == b@,
            x@.len() == y@.len(),
            i <= x@.len(),
            forall|k: int| 0 <= k < i ==> x@[k] == y@[k],
        decreases x@.len() - i,
    {
        if x[i] != y[i] {
            assert(x@[i as int] != y@[i as int]);
            return false;
        }
        i = i + 1;
    }
    assert(x@ =~= y@);
    true
}

// ---------------------------------------------------------------------------
// Whitespace and trimming
// ---------------------------------------------------------------------------

/// Unicode `White_Space`, the set that Rust's `char::is_whitespace` tests.
pub open spec fn is_whitespace(c: char) -> bool {
    let v = c as u32;
    ||| 0x09 <= v <= 0x0d
    ||| v == 0x20
    ||| v == 0x85
    ||| v == 0xa0
    ||| v == 0x1680
    ||| 0x2000 <= v <= 0x200a
    ||| v == 0x2028
    ||| v == 0x2029
    ||| v == 0x202f
    ||| v == 0x205f
    ||| v == 0x3000
}

/// Executable test for [`is_whitespace`].
pub fn char_is_whitespace(c: char) -> (b: bool)
    ensures
        b == is_whitespace(c),
{
    let v = c as u32;
    (0x09 <= v && v <= 0x0d) || v == 0x20 || v == 0x85 || v == 0xa0 || v == 0x1680 || (0x2000
        <= v && v <= 0x200a) || v == 0x2028 || v == 0x2029 || v == 0x202f || v == 0x205f || v
        == 0x3000
}

/// `s` without its leading whitespace.
pub open spec fn trim_start(s: Seq<char>) -> Seq<char>
    decreases s.len(),
{
    if s.len() > 0 && is_whitespace(s[0]) {
        trim_start(s.drop_first())
    } else {
        s
    }
}

/// `s` without its trailing whitespace.
pub open spec fn trim_end(s: Seq<char>) -> Seq<char>
    decreases s.len(),
{
    if s.len() > 0 && is_whitespace(s.last()) {
        trim_end(s.drop_last())
    } else {
        s
    }
}

/// `s` without leading and trailing whitespace (what `str::trim` returns).
pub open spec fn trim(s: Seq<char>) -> Seq<char> {
    trim_end(trim_start(s))
}

proof fn lemma_trim_start_skip(s: Seq<char>, k: int)
    requires
        0 <= k <= s.len(),
        forall|j: int| 0 <= j < k ==> is_whitespace(#[trigger] s[j]),
        k == s.len() || !is_whitespace(s[k]),
    ensures
        trim_start(s) == s.subrange(k, s.len() as int),
    decreases k,
{
    if k == 0 {
        assert(s.subrange(0, s.len() as int) == s);
    } else {
        let t = s.drop_first();
        assert forall|j: int| 0 <= j < k - 1 implies is_whitespace(#[trigger] t[j]) by {
            assert(t[j] == s[j + 1]);
        }
        assert(k - 1 == t.len() || t[k - 1] == s[k]);
        lemma_trim_start_skip(t, k - 1);
        assert(t.subrange(k - 1, t.len() as int) == s.subrange(k, s.len() as int));
    }
}

proof fn lemma_trim_end_skip(s: Seq<char>, k: int)
    requires
        0 <= k <= s.len(),
        forall|j: int| k <= j < s.len() ==> is_whitespace(#[trigger] s[j]),
        k == 0 || !is_whitespace(s[k - 1]),
    ensures
        trim_end(s) == s.subrange(0, k),
    decreases s.len() - k,
{
    if k == s.len() {
        assert(s.subrange(0, s.len() as int) == s);
    } else {
        let t = s.drop_last();
        assert forall|j: int| k <= j < t.len() implies is_whitespace(#[trigger] t[j]) by {
            assert(t[j] == s[j]);
        }
        assert(k == 0 || t[k - 1] == s[k - 1]);
        lemma_trim_end_skip(t, k);
        assert(t.subrange(0, k) == s.subrange(0, k));
    }
}

/// The bounds of the trimmed text within `cs[lo..hi]`.
pub fn trim_bounds(cs: &Vec<char>, lo: usize, hi: usize) -> (r: (usize, usize))
    requires
        lo <= hi <= cs@.len(),
    ensures
        lo <= r.0 <= r.1 <= hi,
        cs@.subrange(r.0 as int, r.1 as int) == trim(cs@.subrange(lo as int, hi as int)),
{
    let ghost s = cs@.subrange(lo as int, hi as int);
    let mut a = lo;
    while a < hi && char_is_whitespace(cs[a])
        invariant
            lo <= a <= hi <= cs@.len(),
            forall|j: int| lo <= j < a ==> is_whitespace(#[trigger] cs@[j]),
        decreases hi - a,
    {
        a = a + 1;
    }
    proof {
        assert forall|j: int| 0 <= j < a - lo implies is_whitespace(#[trigger] s[j]) by {
            assert(s[j] == cs@[lo + j]);
        }
        if a < hi {
            assert(s[a - lo] == cs@[a as int]);
        }
        lemma_trim_start_skip(s, a - lo);
    }
    let ghost t = cs@.subrange(a as int, hi as int);
    assert(t == s.subrange(a - lo, s.len() as int));
    let mut b = hi;
    while b > a && char_is_whitespace(cs[b - 1])
        invariant
            lo <= a <= b <= hi <= cs@.len(),
            forall|j: int| b <= j < hi ==> is_whitespace(#[trigger] cs@[j]),
        decreases b - a,
    {
        b = b - 1;
    }
    proof {
        assert forall|j: int| b - a <= j < t.len() implies is_whitespace(#[trigger] t[j]) by {
            assert(t[j] == cs@[a + j]);
        }
        if b > a {
            assert(t[b - a - 1] == cs@[b - 1]);
        }
        lemma_trim_end_skip(t, b - a);
        assert(t.subrange(0, b - a) == cs@.subrange(a as int, b as int));
    }
    (a, b)
}


// ---------------------------------------------------------------------------
// Splitting
// ---------------------------------------------------------------------------

/// The pieces of `s` between occurrences of `sep`, as `str::split` yields
/// them: an empty text gives one empty piece, and every separator starts a
/// new piece.
pub open spec fn split(s: Seq<char>, sep: char) -> Seq<Seq<char>>
    decreases s.len(),
{
    if s.len() == 0 {
        seq![Seq::empty()]
    } else {
        let r = split(s.drop_last(), sep);
        if s.last() == sep {
            r.push(Seq::empty())
        } else {
            r.update(r.len() - 1, r.last().push(s.last()))
        }
    }
}

/// `split` never yields an empty list of pieces.
pub proof fn lemma_split_nonempty(s: Seq<char>, sep: char)
    ensures
        split(s, sep).len() >= 1,
    decreases s.len(),
{
    if s.len() > 0 {
        lemma_split_nonempty(s.drop_last(), sep);
    }
}

/// How `split` of a prefix grows by one character, given the pieces `done`
/// already closed and the open piece `s[start..i]`.
pub proof fn lemma_split_step(s: Seq<char>, sep: char, i: int, start: int, done: Seq<Seq<char>>)
    requires
        0 <= start <= i < s.len(),
        split(s.take(i), sep) == done.push(s.subrange(start, i)),
    ensures
        s[i] == sep ==> split(s.take(i + 1), sep) == done.push(s.subrange(start, i)).push(
            s.subrange(i + 1, i + 1),
        ),
        s[i] != sep ==> split(s.take(i + 1), sep) == done.push(s.subrange(start, i + 1)),
{
    let t = s.take(i + 1);
    assert(t.drop_last() == s.take(i));
    assert(t.last() == s[i]);
    assert(s.subrange(i + 1, i + 1) == Seq::<char>::empty());
    if s[i] != sep {
        let r = split(s.take(i), sep);
        assert(r.last() == s.subrange(start, i));
        assert(r.last().push(s[i]) == s.subrange(start, i + 1));
        assert(r.update(r.len() - 1, s.subrange(start, i + 1)) == done.push(s.subrange(start, i + 1)));
    }
}

/// The non-blank trimmed pieces among `parts`, in order.
pub open spec fn trimmed_pieces(parts: Seq<Seq<char>>) -> Seq<Seq<char>>
    decreases parts.len(),
{
    if parts.len() == 0 {
        Seq::empty()
    } else {
        let r = trimmed_pieces(parts.drop_last());
        let t = trim(parts.last());
        if t.len() == 0 {
            r
        } else {
            r.push(t)
        }
    }
}

/// The pieces of a prefix of `s` that a separator has closed are the first
/// pieces of `s`.
pub proof fn lemma_split_closed_prefix(s: Seq<char>, sep: char, k: int)
    requires
        0 <= k <= s.len(),
    ensures
        split(s.take(k), sep).len() <= split(s, sep).len(),
        forall|m: int|
            0 <= m < split(s.take(k), sep).len() - 1 ==> split(s.take(k), sep)[m] == split(
                s,
                sep,
            )[m],
    decreases s.len() - k,
{
    lemma_split_nonempty(s.take(k), sep);
    if k == s.len() {
        assert(s.take(k) == s);
    } else {
        lemma_split_closed_prefix(s, sep, k + 1);
        let t = s.take(k + 1);
        assert(t.drop_last() == s.take(k));
        assert(t.last() == s[k]);
    }
}

/// Leaving pieces off the end of a list leaves entries off the end of its
/// entries.
pub proof fn lemma_trimmed_pieces_prefix(a: Seq<Seq<char>>, b: Seq<Seq<char>>)
    requires
        a.len() <= b.len(),
        forall|m: int| 0 <= m < a.len() ==> a[m] == b[m],
    ensures
        trimmed_pieces(a).len() <= trimmed_pieces(b).len(),
        forall|m: int|
            0 <= m < trimmed_pieces(a).len() ==> trimmed_pieces(a)[m] == trimmed_pieces(b)[m],
    decreases b.len(),
{
    if a.len() == b.len() {
        assert(a =~= b);
    } else {
        lemma_trimmed_pieces_prefix(a, b.drop_last());
    }
}

/// The texts of a list of strings.
pub open spec fn string_views(v: Seq<String>) -> Seq<Seq<char>> {
    v.map_values(|s: String| s@)
}

/// Adds the trimmed piece `cs[lo..hi]` to `out` unless it is blank.
fn keep_trimmed_piece(cs: &Vec<char>, lo: usize, hi: usize, out: &mut Vec<String>)
    requires
        lo <= hi <= cs@.len(),
    ensures
        string_views(final(out)@) == if trim(cs@.subrange(lo as int, hi as int)).len() == 0 {
            string_views(old(out)@)
        } else {
            string_views(old(out)@).push(trim(cs@.subrange(lo as int, hi as int)))
        },
{
    let (a, b) = trim_bounds(cs, lo, hi);
    if a < b {
        let ghost before = out@;
        out.push(string_from_range(cs, a, b));
        assert(string_views(out@) =~= string_views(before).push(cs@.subrange(a as int, b as int)));
    }
}

/// The pieces of `s` between occurrences of `sep`, trimmed, blank ones left
/// out.
pub fn split_trimmed(s: &str, sep: char) -> (r: Vec<String>)
    ensures
        string_views(r@) == trimmed_pieces(split(s@, sep)),
{
    let cs = chars_of(s);
    let ghost full = cs@;
    let mut out: Vec<String> = Vec::new();
    let mut start: usize = 0;
    let mut i: usize = 0;
    let ghost mut done: Seq<Seq<char>> = Seq::empty();
    assert(full.take(0) =~= Seq::<char>::empty());
    assert(full.subrange(0, 0) =~= Seq::<char>::empty());
    assert(string_views(out@) =~= Seq::<Seq<char>>::empty());
    while i < cs.len()
        invariant
            cs@ == full,
            start <= i <= full.len(),
            split(full.take(i as int), sep) == done.push(full.subrange(start as int, i as int)),
            string_views(out@) == trimmed_pieces(done),
        decreases full.len() - i,
    {
        proof {
            lemma_split_step(full, sep, i as int, start as int, done);
        }
        if cs[i] == sep {
            let ghost piece = full.subrange(start as int, i as int);
            keep_trimmed_piece(&cs, start, i, &mut out);
            proof {
                let d2 = done.push(piece);
                assert(d2.drop_last() == done);
                assert(d2.last() == piece);
                done = d2;
                assert(full.subrange(i + 1, i + 1) =~= Seq::<char>::empty());
            }
            start = i + 1;
        }
        i = i + 1;
    }
    assert(full.take(full.len() as int) == full);
    let ghost piece = full.subrange(start as int, full.len() as int);
    keep_trimmed_piece(&cs, start, cs.len(), &mut out);
    proof {
        let d2 = done.push(piece);
        assert(d2.drop_last() == done);
        assert(d2.last() == piece);
    }
    out
}

// ---------------------------------------------------------------------------
// Unsigned decimal numbers
// ---------------------------------------------------------------------------

/// An ASCII digit `0`..`9`.
pub open spec fn is_digit(c: char) -> bool {
    48 <= (c as u32) <= 57
}

/// The value of an ASCII digit.
pub open spec fn digit_value(c: char) -> nat {
    ((c as u32) - 48) as nat
}

/// Every character of `s` is an ASCII digit.
pub open spec fn all_digits(s: Seq<char>) -> bool {
    forall|i: int| 0 <= i < s.len() ==> is_digit(#[trigger] s[i])
}

/// The number that the digits `s` write in base ten.
pub open spec fn digits_value(s: Seq<char>) -> nat
    decreases s.len(),
{
    if s.len() == 0 {
        0
    } else {
        digits_value(s.drop_last()) * 10 + digit_value(s.last())
    }
}

/// `s` without one leading `+`, if it has one.
pub open spec fn unsigned_digits(s: Seq<char>) -> Seq<char> {
    if s.len() > 0 && s[0] == '+' {
        s.drop_first()
    } else {
        s
    }
}

/// What `str::parse` gives for an unsigned integer type whose largest value
/// is `max`: an optional `+`, then one or more ASCII digits whose value is at
/// most `max`; anything else is refused.
pub open spec fn parse_unsigned(s: Seq<char>, max: nat) -> Option<nat> {
    let d = unsigned_digits(s);
    if d.len() > 0 && all_digits(d) && digits_value(d) <= max {
        Some(digits_value(d))
    } else {
        None
    }
}

/// A prefix of a digit string never has a larger value than the whole.
pub proof fn lemma_digits_prefix_le(s: Seq<char>, k: int)
    requires
        0 <= k <= s.len(),
        all_digits(s),
    ensures
        digits_value(s.take(k)) <= digits_value(s),
    decreases s.len() - k,
{
    if k < s.len() {
        let t = s.take(k + 1);
        assert(t.drop_last() == s.take(k));
        assert(is_digit(s[k]));
        lemma_digits_prefix_le(s, k + 1);
    } else {
        assert(s.take(k) == s);
    }
}

/// Parses `cs[lo..hi]` as an unsigned integer no larger than `max`, with the
/// rules of `str::parse`.
pub fn parse_unsigned_range(cs: &Vec<char>, lo: usize, hi: usize, max: u32) -> (r: Option<u32>)
    requires
        lo <= hi <= cs@.len(),
    ensures
        match r {
            Some(v) => parse_unsigned(cs@.subrange(lo as int, hi as int), max as nat) == Some(
                v as nat,
            ),
            None => parse_unsigned(cs@.subrange(lo as int, hi as int), max as nat) is None,
        },
{
    let ghost s = cs@.subrange(lo as int, hi as int);
    let mut start = lo;
    if lo < hi && cs[lo] == '+' {
        start = lo + 1;
    }
    let ghost d = cs@.subrange(start as int, hi as int);
    assert(d == unsigned_digits(s));
    if start == hi {
        assert(d.len() == 0);
        return None;
    }
    let mut acc: u64 = 0;
    let mut i = start;
    while i < hi
        invariant
            lo <= start <= i <= hi <= cs@.len(),
            d == cs@.subrange(start as int, hi as int),
            d == unsigned_digits(cs@.subrange(lo as int, hi as int)),
            d.len() > 0,
            forall|j: int| 0 <= j < i - start ==> is_digit(#[trigger] d[j]),
            acc as nat == digits_value(d.take(i - start)),
            acc <= max,
        decreases hi - i,
    {
        let c = cs[i];
        assert(c == d[i - start]);
        let cv = c as u32;
        if !(48 <= cv && cv <= 57) {
            assert(!is_digit(d[i - start]));
            assert(!all_digits(d));
            return None;
        }
        let dv = (cv - 48) as u64;
        proof {
            let t = d.take(i - start + 1);
            assert(t.drop_last() == d.take(i - start));
            assert(t.last() == c);
        }
        acc = acc * 10 + dv;
        if acc > max as u64 {
            proof {
                if all_digits(d) {
                    lemma_digits_prefix_le(d, i - start + 1);
                }
            }
            return None;
        }
        i = i + 1;
    }
    assert(d.take(i - start) == d);
    Some(acc as u32)
}

/// The ASCII digit for `d` (which is below ten).
pub open spec fn digit_char(d: nat) -> char {
    (48 + d) as char
}

/// The decimal writing of `n`, without sign or leading zeros.
pub open spec fn decimal(n: nat) -> Seq<char>
    decreases n,
{
    if n < 10 {
        seq![digit_char(n)]
    } else {
        decimal(n / 10).push(digit_char(n % 10))
    }
}

/// Appends the decimal writing of `n` to `s`.
pub fn push_decimal(s: &mut String, n: u64)
    ensures
        final(s)@ == old(s)@ + decimal(n as nat),
    decreases n,
{
    if n >= 10 {
        push_decimal(s, n / 10);
    }
    let d = (n % 10) as u8;
    let c = (48u8 + d) as char;
    assert(c == digit_char((n % 10) as nat));
    push_char(s, c);
}

/// A decimal writing consists of digits only and reads back as its number.
pub proof fn lemma_decimal_digits(n: nat)
    ensures
        decimal(n).len() > 0,
        all_digits(decimal(n)),
        digits_value(decimal(n)) == n,
        decimal(n)[0] != '+',
    decreases n,
{
    if n >= 10 {
        lemma_decimal_digits(n / 10);
        let r = decimal(n / 10);
        assert(decimal(n).drop_last() == r);
        assert(decimal(n).last() == digit_char(n % 10));
        assert(decimal(n)[0] == r[0]);
        assert(n == (n / 10) * 10 + n % 10);
        assert(digit_value(digit_char(n % 10)) == n % 10);
        assert(digits_value(decimal(n)) == digits_value(r) * 10 + digit_value(digit_char(n % 10)));
        assert forall|i: int| 0 <= i < decimal(n).len() implies is_digit(#[trigger] decimal(n)[i]) by {
            if i < r.len() {
                assert(decimal(n)[i] == r[i]);
            }
        }
    } else {
        assert(decimal(n).drop_last() =~= Seq::<char>::empty());
        assert(decimal(n).last() == digit_char(n));
        assert(digit_value(digit_char(n)) == n);
        assert(digits_value(decimal(n)) == digits_value(Seq::<char>::empty()) * 10 + digit_value(digit_char(n)));
    }
}

/// Writing a number in decimal and parsing it back gives the number.
pub proof fn lemma_parse_decimal(n: nat, max: nat)
    requires
        n <= max,
    ensures
        parse_unsigned(decimal(n), max) == Some(n),
{
    lemma_decimal_digits(n);
}

// ---------------------------------------------------------------------------
// Searching
// ---------------------------------------------------------------------------

/// `pat` occurs in `s` starting at position `i`.
pub open spec fn occurs_at(s: Seq<char>, pat: Seq<char>, i: int) -> bool {
    0 <= i && i + pat.len() <= s.len() && s.subrange(i, i + pat.len()) == pat
}

/// `pat` occurs somewhere in `s` (what `str::contains` tests).
pub open spec fn contains(s: Seq<char>, pat: Seq<char>) -> bool {
    exists|i: int| occurs_at(s, pat, i)
}

/// Whether `pat` occurs in `cs`.
pub fn chars_contain(cs: &Vec<char>, pat: &Vec<char>) -> (b: bool)
    ensures
        b == contains(cs@, pat@),
{
    if pat.len() > cs.len() {
        assert forall|i: int| !occurs_at(cs@, pat@, i) by {}
        return false;
    }
    if pat.len() == 0 {
        assert(cs@.subrange(0, 0) =~= pat@);
        assert(occurs_at(cs@, pat@, 0));
        return true;
    }
    let mut i: usize = 0;
    let last = cs.len() - pat.len();
    while i <= last
        invariant
            last == cs@.len() - pat@.len(),
            cs@.len() <= usize::MAX,
            pat@.len() > 0,
            pat@.len() <= cs@.len(),
            i <= cs@.len(),
            forall|k: int| 0 <= k < i ==> !occurs_at(cs@, pat@, k),
        decreases last + 1 - i,
    {
        let mut j: usize = 0;
        while j < pat.len() && cs[i + j] == pat[j]
            invariant
                i <= last,
                last == cs@.len() - pat@.len(),
                cs@.len() <= usize::MAX,
                i + pat@.len() <= cs@.len(),
                j <= pat@.len(),
                forall|m: int| 0 <= m < j ==> cs@[i + m] == pat@[m],
            decreases pat@.len() - j,
        {
            j = j + 1;
        }
        if j == pat.len() {
            assert(cs@.subrange(i as int, i + pat@.len()) =~= pat@);
            assert(occurs_at(cs@, pat@, i as int));
            return true;
        }
        assert(cs@.subrange(i as int, i + pat@.len())[j as int] != pat@[j as int]);
        i = i + 1;
    }
    assert forall|k: int| !occurs_at(cs@, pat@, k) by {
        if 0 <= k && k + pat@.len() <= cs@.len() {
            assert(k < i);
        }
    }
    false
}

/// ASCII lower-case of `c`; other characters are unchanged.
pub open spec fn ascii_lower(c: char) -> char {
    if 65 <= (c as u32) <= 90 {
        ((c as u32) + 32) as char
    } else {
        c
    }
}

/// `a` and `b` are equal up to ASCII case (what `str::eq_ignore_ascii_case`
/// tests).
pub open spec fn eq_ignore_ascii_case(a: Seq<char>, b: Seq<char>) -> bool {
    a.len() == b.len() && forall|i: int| 0 <= i < a.len() ==> ascii_lower(#[trigger] a[i])
        == ascii_lower(b[i])
}

/// Executable [`ascii_lower`].
pub fn to_ascii_lower(c: char) -> (r: char)
    ensures
        r == ascii_lower(c),
{
    if 'A' <= c && c <= 'Z' {
        ((c as u8) + 32) as char
    } else {
        c
    }
}

/// Whether `cs[lo..hi]` equals `word` up to ASCII case.
pub fn range_eq_ignore_ascii_case(cs: &Vec<char>, lo: usize, hi: usize, word: &Vec<char>) -> (b:
    bool)
    requires
        lo <= hi <= cs@.len(),
    ensures
        b == eq_ignore_ascii_case(cs@.subrange(lo as int, hi as int), word@),
{
    let ghost s = cs@.subrange(lo as int, hi as int);
    if hi - lo != word.len() {
        return false;
    }
    let mut j: usize = 0;
    while j < word.len()
        invariant
            hi - lo == word@.len(),
            lo <= hi <= cs@.len(),
            s == cs@.subrange(lo as int, hi as int),
            j <= word@.len(),
            forall|m: int| 0 <= m < j ==> ascii_lower(#[trigger] s[m]) == ascii_lower(word@[m]),
        decreases word@.len() - j,
    {
        assert(s[j as int] == cs@[lo + j]);
        if to_ascii_lower(cs[lo + j]) != to_ascii_lower(word[j]) {
            return false;
        }
        j = j + 1;
    }
    true
}

} // verus!
