//! Character-level helpers on strings: conversion between `String` and
//! character vectors, searching, decimal formatting.

use vstd::prelude::*;

verus! {

/// Appends one character to a string.
/// Trusted: calls `String::push`, which appends the character to the end of the string.
#[verifier::external_body]
pub(crate) fn push_char(s: &mut String, c: char)
    ensures
        final(s)@ == old(s)@.push(c),
{
    s.push(c);
}

/// The characters of a string slice, in order.
pub fn chars_of(s: &str) -> (r: Vec<char>)
    ensures
        r@ == s@,
{
    let mut r: Vec<char> = Vec::new();
    for c in it: s.chars()
        invariant
            r@ == it.seq().take(it.index() as int),
    {
        r.push(c);
    }
    r
}


/// `needle` occurs in `hay` starting at index `i`.
pub open spec fn occurs_at(hay: Seq<char>, needle: Seq<char>, i: int) -> bool {
    0 <= i && i + needle.len() <= hay.len() && hay.subrange(i, i + needle.len()) == needle
}

/// Whether `needle` occurs in `hay` at index `i`.
pub fn matches_at(hay: &[char], needle: &[char], i: usize) -> (r: bool)
    ensures
        r == occurs_at(hay@, needle@, i as int),
{
    if i > hay.len() || needle.len() > hay.len() - i {
        return false;
    }
    let mut k: usize = 0;
    while k < needle.len()
        invariant
            i + needle.len() <= hay.len(),
            k <= needle@.len(),
            forall|j: int| 0 <= j < k ==> hay@[i + j] == needle@[j],
        decreases needle@.len() - k,
    {
        if hay[i + k] != needle[k] {
            assert(hay@.subrange(i as int, i + needle@.len())[k as int] != needle@[k as int]);
            return false;
        }
        k = k + 1;
    }
    assert(hay@.subrange(i as int, i + needle@.len()) =~= needle@);
    true
}

/// The first index at or after `from` where `needle` occurs in `hay`.
pub open spec fn find_spec(hay: Seq<char>, needle: Seq<char>, from: int) -> Option<int>
    decreases hay.len() + 1 - from,
{
    if from < 0 || from > hay.len() {
        None
    } else if occurs_at(hay, needle, from) {
        Some(from)
    } else {
        find_spec(hay, needle, from + 1)
    }
}

/// The last index at or below `i` where `needle` occurs in `hay`.
pub open spec fn rfind_below(hay: Seq<char>, needle: Seq<char>, i: int) -> Option<int>
    decreases i + 1,
{
    if i < 0 {
        None
    } else if occurs_at(hay, needle, i) {
        Some(i)
    } else {
        rfind_below(hay, needle, i - 1)
    }
}

/// The last index where `needle` occurs in `hay`.
pub open spec fn rfind_spec(hay: Seq<char>, needle: Seq<char>) -> Option<int> {
    rfind_below(hay, needle, hay.len() as int)
}

/// The first occurrence at or after `from`, characterized by its properties.
pub proof fn lemma_find_spec(hay: Seq<char>, needle: Seq<char>, from: int, r: Option<int>)
    requires
        0 <= from,
        match r {
            Some(i) => from <= i && occurs_at(hay, needle, i) && forall|j: int|
                from <= j < i ==> !occurs_at(hay, needle, j),
            None => forall|j: int| from <= j ==> !occurs_at(hay, needle, j),
        },
    ensures
        find_spec(hay, needle, from) == r,
    decreases hay.len() + 1 - from,
{
    if from > hay.len() {
    } else if occurs_at(hay, needle, from) {
    } else {
        lemma_find_spec(hay, needle, from + 1, r);
    }
}

/// The last occurrence at or below `i`, characterized by its properties.
pub proof fn lemma_rfind_below(hay: Seq<char>, needle: Seq<char>, i: int, r: Option<int>)
    requires
        match r {
            Some(k) => k <= i && occurs_at(hay, needle, k) && forall|j: int|
                k < j <= i ==> !occurs_at(hay, needle, j),
            None => forall|j: int| j <= i ==> !occurs_at(hay, needle, j),
        },
    ensures
        rfind_below(hay, needle, i) == r,
    decreases i + 1,
{
    if i < 0 {
    } else if occurs_at(hay, needle, i) {
    } else {
        lemma_rfind_below(hay, needle, i - 1, r);
    }
}

/// What the first occurrence at or after `from` is.
pub proof fn lemma_find_spec_props(hay: Seq<char>, needle: Seq<char>, from: int)
    requires
        0 <= from,
    ensures
        match find_spec(hay, needle, from) {
            Some(i) => from <= i && occurs_at(hay, needle, i) && forall|j: int|
                from <= j < i ==> !occurs_at(hay, needle, j),
            None => forall|j: int| from <= j ==> !occurs_at(hay, needle, j),
        },
    decreases hay.len() + 1 - from,
{
    if from > hay.len() {
    } else if occurs_at(hay, needle, from) {
    } else {
        lemma_find_spec_props(hay, needle, from + 1);
    }
}

/// What the last occurrence at or below `i` is.
pub proof fn lemma_rfind_below_props(hay: Seq<char>, needle: Seq<char>, i: int)
    ensures
        match rfind_below(hay, needle, i) {
            Some(k) => k <= i && occurs_at(hay, needle, k) && forall|j: int|
                k < j <= i ==> !occurs_at(hay, needle, j),
            None => forall|j: int| j <= i ==> !occurs_at(hay, needle, j),
        },
    decreases i + 1,
{
    if i < 0 {
    } else if occurs_at(hay, needle, i) {
    } else {
        lemma_rfind_below_props(hay, needle, i - 1);
    }
}

/// The view of an optional index.
pub open spec fn opt_index(r: Option<usize>) -> Option<int> {
    match r {
        Some(i) => Some(i as int),
        None => None,
    }
}

/// The first index at or after `from` where `needle` occurs in `hay`.
pub fn find_from(hay: &[char], needle: &[char], from: usize) -> (r: Option<usize>)
    ensures
        opt_index(r) == find_spec(hay@, needle@, from as int),
        match r {
            Some(i) => from <= i && occurs_at(hay@, needle@, i as int) && forall|j: int|
                from <= j < i ==> !occurs_at(hay@, needle@, j),
            None => forall|j: int| from <= j ==> !occurs_at(hay@, needle@, j),
        },
{
    let mut i = from;
    while i <= hay.len()
        invariant
            from <= i,
            forall|j: int| from <= j < i ==> !occurs_at(hay@, needle@, j),
        decreases hay@.len() + 1 - i,
    {
        if matches_at(hay, needle, i) {
            proof {
                lemma_find_spec(hay@, needle@, from as int, Some(i as int));
            }
            return Some(i);
        }
        if i == hay.len() {
            proof {
                lemma_find_spec(hay@, needle@, from as int, None);
            }
            return None;
        }
        i = i + 1;
    }
    proof {
        lemma_find_spec(hay@, needle@, from as int, None);
    }
    None
}

/// The last index before `end` holding the character `c`.
pub fn rfind_char_before(hay: &[char], c: char, end: usize) -> (r: Option<usize>)
    requires
        end <= hay@.len(),
    ensures
        opt_index(r) == rfind_spec(hay@.take(end as int), seq![c]),
        match r {
            Some(i) => i < end && hay@[i as int] == c && forall|j: int| i < j < end ==> hay@[j] != c,
            None => forall|j: int| 0 <= j < end ==> hay@[j] != c,
        },
{
    let ghost h = hay@.take(end as int);
    let mut i = end;
    while i > 0
        invariant
            i <= end,
            end <= hay@.len(),
            h == hay@.take(end as int),
            forall|j: int| i <= j < end ==> hay@[j] != c,
        decreases i,
    {
        if hay[i - 1] == c {
            proof {
                lemma_single_char_occurrences(h, c);
                lemma_rfind_below(h, seq![c], h.len() as int, Some(i - 1));
            }
            return Some(i - 1);
        }
        i = i - 1;
    }
    proof {
        lemma_single_char_occurrences(h, c);
        lemma_rfind_below(h, seq![c], h.len() as int, None);
    }
    None
}

/// A one-character needle occurs exactly where that character stands.
pub proof fn lemma_single_char_occurrences(h: Seq<char>, c: char)
    ensures
        forall|j: int| #[trigger] occurs_at(h, seq![c], j) <==> (0 <= j < h.len() && h[j] == c),
{
    assert forall|j: int| #[trigger] occurs_at(h, seq![c], j) <==> (0 <= j < h.len() && h[j] == c) by {
        if 0 <= j < h.len() {
            assert(h.subrange(j, j + 1)[0] == h[j]);
            if h[j] == c {
                assert(h.subrange(j, j + 1) =~= seq![c]);
            }
        }
    }
}

/// The last index at which `needle` occurs in `hay`.
pub fn rfind(hay: &[char], needle: &[char]) -> (r: Option<usize>)
    ensures
        opt_index(r) == rfind_spec(hay@, needle@),
        match r {
            Some(i) => occurs_at(hay@, needle@, i as int) && forall|j: int|
                i < j ==> !occurs_at(hay@, needle@, j),
            None => forall|j: int| !occurs_at(hay@, needle@, j),
        },
{
    if needle.len() > hay.len() {
        proof {
            lemma_rfind_below(hay@, needle@, hay@.len() as int, None);
        }
        return None;
    }
    let mut i = hay.len() - needle.len();
    loop
        invariant
            i <= hay@.len() - needle@.len(),
            needle@.len() <= hay@.len(),
            forall|j: int| i < j ==> !occurs_at(hay@, needle@, j),
        decreases i,
    {
        if matches_at(hay, needle, i) {
            proof {
                lemma_rfind_below(hay@, needle@, hay@.len() as int, Some(i as int));
            }
            return Some(i);
        }
        if i == 0 {
            proof {
                lemma_rfind_below(hay@, needle@, hay@.len() as int, None);
            }
            return None;
        }
        i = i - 1;
    }
}


/// The number of non-overlapping occurrences of a non-empty `needle` in
/// `hay`, found from left to right (the count of `str::matches`).
pub open spec fn match_count(hay: Seq<char>, needle: Seq<char>) -> nat
    decreases hay.len(),
{
    if needle.len() == 0 || hay.len() < needle.len() {
        0
    } else if hay.take(needle.len() as int) == needle {
        1 + match_count(hay.skip(needle.len() as int), needle)
    } else {
        match_count(hay.skip(1), needle)
    }
}

/// `n` clipped to the largest `usize`.
pub open spec fn clip(n: nat) -> usize {
    if n > usize::MAX {
        usize::MAX
    } else {
        n as usize
    }
}

/// Adds two counts, saturating at the largest `usize`.
pub fn add_clipped(a: usize, b: usize, Ghost(x): Ghost<nat>, Ghost(y): Ghost<nat>) -> (r: usize)
    requires
        a == clip(x),
        b == clip(y),
    ensures
        r == clip(x + y),
{
    a.saturating_add(b)
}

/// The number of non-overlapping occurrences of `needle` in `hay[from..]`.
fn count_matches_from(hay: &[char], needle: &[char], from: usize) -> (r: usize)
    requires
        needle@.len() > 0,
        from <= hay@.len(),
    ensures
        r == clip(match_count(hay@.skip(from as int), needle@)),
    decreases hay@.len() - from,
{
    if hay.len() - from < needle.len() {
        return 0;
    }
    let here = matches_at(hay, needle, from);
    assert(occurs_at(hay@, needle@, from as int) == (hay@.skip(from as int).take(
        needle@.len() as int,
    ) == needle@)) by {
        assert(hay@.skip(from as int).take(needle@.len() as int) =~= hay@.subrange(
            from as int,
            from + needle@.len(),
        ));
    }
    if here {
        let rest = count_matches_from(hay, needle, from + needle.len());
        assert(hay@.skip(from as int).skip(needle@.len() as int) =~= hay@.skip(
            from + needle@.len(),
        ));
        rest.saturating_add(1)
    } else {
        let rest = count_matches_from(hay, needle, from + 1);
        assert(hay@.skip(from as int).skip(1) =~= hay@.skip(from + 1));
        rest
    }
}

/// The number of non-overlapping occurrences of a non-empty `needle` in `hay`
/// (saturating at the largest `usize`).
pub fn count_matches(hay: &[char], needle: &[char]) -> (r: usize)
    requires
        needle@.len() > 0,
    ensures
        r == clip(match_count(hay@, needle@)),
{
    assert(hay@.skip(0) =~= hay@);
    count_matches_from(hay, needle, 0)
}


/// The number of UTF-16 code units that encode `c`.
pub open spec fn utf16_width(c: char) -> nat {
    if (c as u32) >= 0x10000 {
        2
    } else {
        1
    }
}

/// The number of UTF-16 code units that encode `s`.
pub open spec fn utf16_len(s: Seq<char>) -> nat
    decreases s.len(),
{
    if s.len() == 0 {
        0
    } else {
        utf16_len(s.drop_last()) + utf16_width(s.last())
    }
}

/// `k` code units into the UTF-16 encoding of `s` is a character boundary.
pub open spec fn is_utf16_boundary(s: Seq<char>, k: int) -> bool {
    exists|m: int| 0 <= m <= s.len() && utf16_len(s.take(m)) == k
}

/// Encoding a longer prefix takes strictly more code units.
pub proof fn lemma_utf16_prefix_strict(s: Seq<char>, a: int, b: int)
    requires
        0 <= a < b <= s.len(),
    ensures
        utf16_len(s.take(a)) < utf16_len(s.take(b)),
    decreases b - a,
{
    assert(s.take(b).drop_last() =~= s.take(b - 1));
    if a < b - 1 {
        lemma_utf16_prefix_strict(s, a, b - 1);
    }
}

/// Encoding a prefix takes no more code units than a longer prefix.
pub proof fn lemma_utf16_prefix_mono(s: Seq<char>, a: int, b: int)
    requires
        0 <= a <= b <= s.len(),
    ensures
        utf16_len(s.take(a)) <= utf16_len(s.take(b)),
{
    if a < b {
        lemma_utf16_prefix_strict(s, a, b);
    }
}

/// The code units of a concatenation add up.
pub proof fn lemma_utf16_concat(a: Seq<char>, b: Seq<char>)
    ensures
        utf16_len(a + b) == utf16_len(a) + utf16_len(b),
    decreases b.len(),
{
    if b.len() == 0 {
        assert(a + b =~= a);
    } else {
        assert((a + b).drop_last() =~= a + b.drop_last());
        lemma_utf16_concat(a, b.drop_last());
    }
}

/// The number of UTF-16 code units of one character.
pub fn utf16_width_of(c: char) -> (r: usize)
    ensures
        r == utf16_width(c),
{
    if (c as u32) >= 0x10000 {
        2
    } else {
        1
    }
}

/// The number of UTF-16 code units that encode `s` (saturating).
pub fn utf16_len_of(s: &[char]) -> (r: usize)
    ensures
        r == clip(utf16_len(s@)),
{
    let mut total: usize = 0;
    let mut i: usize = 0;
    while i < s.len()
        invariant
            i <= s@.len(),
            total == clip(utf16_len(s@.take(i as int))),
        decreases s@.len() - i,
    {
        let w = utf16_width_of(s[i]);
        assert(s@.take(i + 1).drop_last() =~= s@.take(i as int));
        total = add_clipped(
            total,
            w,
            Ghost(utf16_len(s@.take(i as int))),
            Ghost(utf16_width(s@[i as int])),
        );
        i = i + 1;
    }
    assert(s@.take(i as int) =~= s@);
    total
}


/// The index of the character that starts `k` code units into the UTF-16
/// encoding of `s` (meaningful when `k` is a boundary).
pub open spec fn utf16_char_index(s: Seq<char>, k: int) -> int {
    choose|m: int| 0 <= m <= s.len() && utf16_len(s.take(m)) == k
}

/// A boundary is reached at exactly one character index.
pub proof fn lemma_utf16_char_index(s: Seq<char>, m: int)
    requires
        0 <= m <= s.len(),
    ensures
        is_utf16_boundary(s, utf16_len(s.take(m)) as int),
        utf16_char_index(s, utf16_len(s.take(m)) as int) == m,
{
    let k = utf16_len(s.take(m)) as int;
    assert(0 <= m <= s.len() && utf16_len(s.take(m)) == k);
    let m2 = utf16_char_index(s, k);
    if m2 < m {
        lemma_utf16_prefix_strict(s, m2, m);
    } else if m < m2 {
        lemma_utf16_prefix_strict(s, m, m2);
    }
}

/// Whether two character sequences are equal.
pub fn chars_equal(a: &[char], b: &[char]) -> (r: bool)
    ensures
        r == (a@ == b@),
{
    if a.len() != b.len() {
        return false;
    }
    let mut i: usize = 0;
    while i < a.len()
        invariant
            i <= a@.len(),
            a@.len() == b@.len(),
            forall|j: int| 0 <= j < i ==> a@[j] == b@[j],
        decreases a@.len() - i,
    {
        if a[i] != b[i] {
            return false;
        }
        i = i + 1;
    }
    assert(a@ =~= b@);
    true
}

/// A string holding the characters `chars[from..to]`.
pub fn string_of_range(chars: &[char], from: usize, to: usize) -> (r: String)
    requires
        from <= to <= chars@.len(),
    ensures
        r@ == chars@.subrange(from as int, to as int),
{
    let mut r = String::new();
    let mut i: usize = from;
    while i < to
        invariant
            from <= i <= to,
            to <= chars@.len(),
            r@ == chars@.subrange(from as int, i as int),
        decreases to - i,
    {
        push_char(&mut r, chars[i]);
        i = i + 1;
        assert(chars@.subrange(from as int, i as int) =~= chars@.subrange(
            from as int,
            i - 1,
        ).push(chars@[i - 1]));
    }
    r
}


/// Clipping an intermediate sum does not change a clipped total.
pub proof fn lemma_clip_add(a: nat, b: nat)
    ensures
        clip((clip(a) + b) as nat) == clip(a + b),
{
}

/// Adds a count to a saturating counter.
pub fn add_count(counter: &mut usize, n: usize, Ghost(x): Ghost<nat>, Ghost(y): Ghost<nat>)
    requires
        *old(counter) == clip(x),
        n == clip(y),
    ensures
        *final(counter) == clip(x + y),
{
    *counter = counter.saturating_add(n);
}


/// The character of a decimal digit.
pub open spec fn digit_char(d: nat) -> char {
    if d == 0 {
        '0'
    } else if d == 1 {
        '1'
    } else if d == 2 {
        '2'
    } else if d == 3 {
        '3'
    } else if d == 4 {
        '4'
    } else if d == 5 {
        '5'
    } else if d == 6 {
        '6'
    } else if d == 7 {
        '7'
    } else if d == 8 {
        '8'
    } else {
        '9'
    }
}

/// The decimal notation of `n`, without leading zeros.
pub open spec fn decimal(n: nat) -> Seq<char>
    decreases n,
{
    if n < 10 {
        seq![digit_char(n)]
    } else {
        decimal(n / 10).push(digit_char(n % 10))
    }
}

/// The decimal notation of `n`, left-padded with zeros to at least `width` digits.
pub open spec fn padded_decimal(n: nat, width: nat) -> Seq<char> {
    let digits = decimal(n);
    if digits.len() >= width {
        digits
    } else {
        Seq::new((width - digits.len()) as nat, |i: int| '0') + digits
    }
}

/// The character of one decimal digit.
fn digit(d: u64) -> (c: char)
    requires
        d < 10,
    ensures
        c == digit_char(d as nat),
{
    if d == 0 {
        '0'
    } else if d == 1 {
        '1'
    } else if d == 2 {
        '2'
    } else if d == 3 {
        '3'
    } else if d == 4 {
        '4'
    } else if d == 5 {
        '5'
    } else if d == 6 {
        '6'
    } else if d == 7 {
        '7'
    } else if d == 8 {
        '8'
    } else {
        '9'
    }
}

/// Appends the decimal notation of `n`.
pub fn push_decimal(out: &mut String, n: u64)
    ensures
        final(out)@ == old(out)@ + decimal(n as nat),
    decreases n,
{
    if n >= 10 {
        push_decimal(out, n / 10);
    }
    push_char(out, digit(n % 10));
    proof {
        if n >= 10 {
            assert(old(out)@ + decimal((n / 10) as nat) + seq![digit_char((n % 10) as nat)] =~= old(
                out,
            )@ + decimal(n as nat));
        } else {
            assert(old(out)@.push(digit_char(n as nat)) =~= old(out)@ + decimal(n as nat));
        }
    }
}

/// The number of decimal digits of `n`.
fn decimal_len(n: u64) -> (r: usize)
    ensures
        r == decimal(n as nat).len(),
    decreases n,
{
    if n < 10 {
        1
    } else {
        let r = decimal_len(n / 10);
        assert(r < 20) by {
            reveal_with_fuel(pow10, 20);
            assert(pow10(19) == 10000000000000000000nat);
            lemma_decimal_len_le((n / 10) as nat, 19);
        }
        r + 1
    }
}

proof fn lemma_decimal_len_le(n: nat, k: nat)
    requires
        k >= 1,
        n < pow10(k),
    ensures
        decimal(n).len() <= k,
    decreases k,
{
    if n >= 10 {
        assert(n / 10 < pow10((k - 1) as nat)) by {
            assert(pow10(k) == 10 * pow10((k - 1) as nat));
        }
        if k == 1 {
            assert(pow10(1) == 10) by {
                assert(pow10(0) == 1);
            }
        } else {
            lemma_decimal_len_le(n / 10, (k - 1) as nat);
        }
    }
}

/// Ten to the power `k`.
pub open spec fn pow10(k: nat) -> nat
    decreases k,
{
    if k == 0 {
        1
    } else {
        10 * pow10((k - 1) as nat)
    }
}

/// Appends the decimal notation of `n`, left-padded with zeros to `width` digits.
pub fn push_padded_decimal(out: &mut String, n: u64, width: usize)
    ensures
        final(out)@ == old(out)@ + padded_decimal(n as nat, width as nat),
{
    let len = decimal_len(n);
    let ghost digits = decimal(n as nat);
    if len < width {
        let mut i: usize = len;
        let ghost zeros = Seq::new((width - len) as nat, |i: int| '0');
        while i < width
            invariant
                len <= i <= width,
                len == digits.len(),
                out@ == old(out)@ + zeros.take(i - len),
                zeros == Seq::new((width - len) as nat, |i: int| '0'),
            decreases width - i,
        {
            push_char(out, '0');
            assert(zeros.take(i + 1 - len) =~= zeros.take(i - len).push('0'));
            i = i + 1;
        }
        assert(zeros.take(width - len) =~= zeros);
    }
    let ghost mid = out@;
    push_decimal(out, n);
    proof {
        if len < width {
            assert(out@ =~= old(out)@ + padded_decimal(n as nat, width as nat));
        } else {
            assert(mid == old(out)@);
        }
    }
}

/// Whether `c` is white space by the Unicode `White_Space` property (the
/// result of `char::is_whitespace`): the 25 code points that the Unicode
/// Character Database's PropList.txt lists, U+0009 to U+000D, U+0020, U+0085,
/// U+00A0, U+1680, U+2000 to U+200A, U+2028, U+2029, U+202F, U+205F and
/// U+3000.
pub open spec fn is_white_space(c: char) -> bool {
    let n = c as u32;
    ||| 0x09 <= n <= 0x0d
    ||| n == 0x20
    ||| n == 0x85
    ||| n == 0xa0
    ||| n == 0x1680
    ||| 0x2000 <= n <= 0x200a
    ||| n == 0x2028
    ||| n == 0x2029
    ||| n == 0x202f
    ||| n == 0x205f
    ||| n == 0x3000
}

/// Whether a character outside ASCII is alphabetic or numeric by the Unicode
/// properties (the result of `char::is_alphanumeric` there).
pub uninterp spec fn other_alphanumeric(c: char) -> bool;

/// An ASCII letter or digit.
pub open spec fn is_ascii_letter_or_digit(c: char) -> bool {
    ('0' <= c <= '9') || ('A' <= c <= 'Z') || ('a' <= c <= 'z')
}

/// Whether `c` is alphabetic or numeric by the Unicode properties (the result
/// of `char::is_alphanumeric`): in ASCII exactly the letters and digits.
pub open spec fn is_alphanumeric(c: char) -> bool {
    if (c as u32) < 128 {
        is_ascii_letter_or_digit(c)
    } else {
        other_alphanumeric(c)
    }
}

/// Whether a character is white space.
/// Trusted: calls `char::is_whitespace`, which tests the Unicode `White_Space`
/// property of the character; `is_white_space` lists the code points that
/// have it.
#[verifier::external_body]
pub(crate) fn char_is_whitespace(c: char) -> (r: bool)
    ensures
        r == is_white_space(c),
{
    c.is_whitespace()
}

/// Whether a character is alphanumeric.
/// Trusted: calls `char::is_alphanumeric`, which tests the Unicode
/// `Alphabetic` property and the numeric general categories of the character.
/// In ASCII these hold of the letters (alphabetic) and the digits (numeric)
/// alone; outside ASCII the result is left to the name `other_alphanumeric`.
#[verifier::external_body]
pub(crate) fn char_is_alphanumeric(c: char) -> (r: bool)
    ensures
        r == is_alphanumeric(c),
        (c as u32) < 128 ==> r == is_ascii_letter_or_digit(c),
        (c as u32) >= 128 ==> r == other_alphanumeric(c),
{
    c.is_alphanumeric()
}

/// `s` without the characters satisfying `p` at its start.
pub open spec fn strip_left(s: Seq<char>, p: spec_fn(char) -> bool) -> Seq<char>
    decreases s.len(),
{
    if s.len() > 0 && p(s[0]) {
        strip_left(s.drop_first(), p)
    } else {
        s
    }
}

/// `s` without the characters satisfying `p` at its end.
pub open spec fn strip_right(s: Seq<char>, p: spec_fn(char) -> bool) -> Seq<char>
    decreases s.len(),
{
    if s.len() > 0 && p(s.last()) {
        strip_right(s.drop_last(), p)
    } else {
        s
    }
}

/// `s` without the characters satisfying `p` at either end.
pub open spec fn strip(s: Seq<char>, p: spec_fn(char) -> bool) -> Seq<char> {
    strip_right(strip_left(s, p), p)
}

/// `s` without leading and trailing white space (the result of `str::trim`).
pub open spec fn trim_spec(s: Seq<char>) -> Seq<char> {
    strip(s, |c: char| is_white_space(c))
}

/// Stripping the start removes exactly the run of characters before `i`.
pub proof fn lemma_strip_left(s: Seq<char>, p: spec_fn(char) -> bool, i: int)
    requires
        0 <= i <= s.len(),
        forall|j: int| 0 <= j < i ==> p(#[trigger] s[j]),
        i == s.len() || !p(s[i]),
    ensures
        strip_left(s, p) == s.skip(i),
    decreases i,
{
    if i == 0 {
        assert(s.skip(0) =~= s);
    } else {
        assert forall|j: int| 0 <= j < i - 1 implies p(#[trigger] s.drop_first()[j]) by {
            assert(s.drop_first()[j] == s[j + 1]);
        }
        if i < s.len() {
            assert(s.drop_first()[i - 1] == s[i]);
        }
        lemma_strip_left(s.drop_first(), p, i - 1);
        assert(s.drop_first().skip(i - 1) =~= s.skip(i));
    }
}

/// Stripping the end removes exactly the run of characters from `j` on.
pub proof fn lemma_strip_right(s: Seq<char>, p: spec_fn(char) -> bool, j: int)
    requires
        0 <= j <= s.len(),
        forall|k: int| j <= k < s.len() ==> p(#[trigger] s[k]),
        j == 0 || !p(s[j - 1]),
    ensures
        strip_right(s, p) == s.take(j),
    decreases s.len() - j,
{
    if j == s.len() {
        assert(s.take(j) =~= s);
    } else {
        assert forall|k: int| j <= k < s.len() - 1 implies p(#[trigger] s.drop_last()[k]) by {
            assert(s.drop_last()[k] == s[k]);
        }
        if j > 0 {
            assert(s.drop_last()[j - 1] == s[j - 1]);
        }
        lemma_strip_right(s.drop_last(), p, j);
        assert(s.drop_last().take(j) =~= s.take(j));
    }
}

/// Stripping both ends keeps exactly `s[i..j]`.
pub proof fn lemma_strip(s: Seq<char>, p: spec_fn(char) -> bool, i: int, j: int)
    requires
        0 <= i <= j <= s.len(),
        forall|k: int| 0 <= k < i ==> p(#[trigger] s[k]),
        forall|k: int| j <= k < s.len() ==> p(#[trigger] s[k]),
        i == s.len() || !p(s[i]),
        i < j ==> !p(s[j - 1]),
        i == j ==> j == s.len(),
    ensures
        strip(s, p) == s.subrange(i, j),
{
    lemma_strip_left(s, p, i);
    let t = s.skip(i);
    assert forall|k: int| j - i <= k < t.len() implies p(#[trigger] t[k]) by {
        assert(t[k] == s[k + i]);
    }
    if j - i > 0 {
        assert(t[j - i - 1] == s[j - 1]);
    }
    lemma_strip_right(t, p, j - i);
    assert(t.take(j - i) =~= s.subrange(i, j));
}

/// The bounds of `s` without the characters satisfying the test at either
/// end, for a test given by its values on `s`.
fn strip_bounds(s: &Vec<char>, keep: &Vec<bool>, Ghost(p): Ghost<spec_fn(char) -> bool>) -> (r: (
    usize,
    usize,
))
    requires
        keep@.len() == s@.len(),
        forall|k: int| 0 <= k < s@.len() ==> keep@[k] == !p(s@[k]),
    ensures
        r.0 <= r.1 <= s@.len(),
        strip(s@, p) == s@.subrange(r.0 as int, r.1 as int),
{
    let mut i: usize = 0;
    while i < s.len() && !keep[i]
        invariant
            i <= s@.len(),
            keep@.len() == s@.len(),
            forall|k: int| 0 <= k < s@.len() ==> keep@[k] == !p(s@[k]),
            forall|k: int| 0 <= k < i ==> p(#[trigger] s@[k]),
        decreases s@.len() - i,
    {
        i = i + 1;
    }
    let mut j: usize = s.len();
    while j > i && !keep[j - 1]
        invariant
            i <= j <= s@.len(),
            keep@.len() == s@.len(),
            forall|k: int| 0 <= k < s@.len() ==> keep@[k] == !p(s@[k]),
            forall|k: int| j <= k < s@.len() ==> p(#[trigger] s@[k]),
        decreases j - i,
    {
        j = j - 1;
    }
    proof {
        if i == j && j < s@.len() {
            assert(p(s@[j as int]));
            assert(!p(s@[i as int]));
        }
        lemma_strip(s@, p, i as int, j as int);
    }
    (i, j)
}

/// `s` without leading and trailing white space.
pub fn trim(s: &str) -> (r: String)
    ensures
        r@ == trim_spec(s@),
{
    let chars = chars_of(s);
    let mut keep: Vec<bool> = Vec::new();
    let mut i: usize = 0;
    while i < chars.len()
        invariant
            i <= chars@.len(),
            keep@.len() == i,
            forall|k: int| 0 <= k < i ==> keep@[k] == !is_white_space(chars@[k]),
        decreases chars@.len() - i,
    {
        keep.push(!char_is_whitespace(chars[i]));
        i = i + 1;
    }
    let (a, b) = strip_bounds(&chars, &keep, Ghost(|c: char| is_white_space(c)));
    string_of_range(&chars, a, b)
}

/// `s` without `c` at either end (the result of `str::trim_matches` with a
/// character).
pub fn trim_char(s: &str, c: char) -> (r: String)
    ensures
        r@ == strip(s@, |x: char| x == c),
{
    let chars = chars_of(s);
    let mut keep: Vec<bool> = Vec::new();
    let mut i: usize = 0;
    while i < chars.len()
        invariant
            i <= chars@.len(),
            keep@.len() == i,
            forall|k: int| 0 <= k < i ==> keep@[k] == (chars@[k] != c),
        decreases chars@.len() - i,
    {
        keep.push(chars[i] != c);
        i = i + 1;
    }
    let (a, b) = strip_bounds(&chars, &keep, Ghost(|x: char| x == c));
    string_of_range(&chars, a, b)
}

/// Stripping the start leaves a suffix that does not start with a stripped
/// character.
pub proof fn lemma_strip_left_suffix(s: Seq<char>, p: spec_fn(char) -> bool)
    ensures
        exists|k: int|
            0 <= k <= s.len() && strip_left(s, p) == s.skip(k) && (k == s.len() || !p(s[k])),
    decreases s.len(),
{
    if s.len() > 0 && p(s[0]) {
        lemma_strip_left_suffix(s.drop_first(), p);
        let k = choose|k: int|
            0 <= k <= s.drop_first().len() && strip_left(s.drop_first(), p) == s.drop_first().skip(k)
                && (k == s.drop_first().len() || !p(s.drop_first()[k]));
        assert(s.drop_first().skip(k) =~= s.skip(k + 1));
        if k < s.drop_first().len() {
            assert(s.drop_first()[k] == s[k + 1]);
        }
    } else {
        assert(s.skip(0) =~= s);
    }
}

/// Stripping the end leaves a prefix that does not end with a stripped
/// character.
pub proof fn lemma_strip_right_prefix(s: Seq<char>, p: spec_fn(char) -> bool)
    ensures
        exists|k: int| 0 <= k <= s.len() && strip_right(s, p) == s.take(k) && (k == 0 || !p(s[k - 1])),
    decreases s.len(),
{
    if s.len() > 0 && p(s.last()) {
        lemma_strip_right_prefix(s.drop_last(), p);
        let k = choose|k: int|
            0 <= k <= s.drop_last().len() && strip_right(s.drop_last(), p) == s.drop_last().take(k)
                && (k == 0 || !p(s.drop_last()[k - 1]));
        assert(s.drop_last().take(k) =~= s.take(k));
        if k > 0 {
            assert(s.drop_last()[k - 1] == s[k - 1]);
        }
    } else {
        assert(s.take(s.len() as int) =~= s);
    }
}

/// Stripping both ends keeps a run of `s` that neither starts nor ends with
/// a stripped character.
pub proof fn lemma_strip_bounds(s: Seq<char>, p: spec_fn(char) -> bool)
    ensures
        exists|i: int, j: int|
            0 <= i <= j <= s.len() && strip(s, p) == s.subrange(i, j) && (i < j ==> !p(s[i]) && !p(
                s[j - 1],
            )),
{
    lemma_strip_left_suffix(s, p);
    let i = choose|k: int| 0 <= k <= s.len() && strip_left(s, p) == s.skip(k) && (k == s.len() || !p(s[k]));
    let t = s.skip(i);
    lemma_strip_right_prefix(t, p);
    let k = choose|k: int| 0 <= k <= t.len() && strip_right(t, p) == t.take(k) && (k == 0 || !p(t[k - 1]));
    assert(t.take(k) =~= s.subrange(i, i + k));
    if k > 0 {
        assert(t[k - 1] == s[i + k - 1]);
        assert(t[0] == s[i]);
    }
}

} // verus!
