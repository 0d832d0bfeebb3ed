//! Characters and strings: white space, trimming, splitting, ASCII case and
//! decimal numbers, each with the meaning std gives it.

use vstd::prelude::*;

verus! {

broadcast use vstd::string::group_string_axioms;

/// The characters of `s`, in order.
pub fn chars_of(s: &str) -> (out: Vec<char>)
    ensures
        out@ == s@,
{
    let mut out: Vec<char> = Vec::new();
    for c in it: s.chars()
        invariant
            out@.len() == it.index(),
            forall|i: int| 0 <= i < out@.len() ==> out@[i] == it.seq()[i],
    {
        out.push(c);
    }
    assert(out@ =~= s@);
    out
}

/// Appends one character to a string (`String::push`).
#[verifier::external_body]
pub(crate) fn push_char(s: &mut String, c: char)
    ensures
        final(s)@ == old(s)@.push(c),
{
    s.push(c);
}

/// A string holding the characters `chars[from..to]`.
pub fn string_of_range(chars: &Vec<char>, from: usize, to: usize) -> (out: String)
    requires
        from <= to <= chars@.len(),
    ensures
        out@ == chars@.subrange(from as int, to as int),
{
    let mut out = String::new();
    let mut i = from;
    while i < to
        invariant
            from <= i <= to <= chars@.len(),
            out@ == chars@.subrange(from as int, i as int),
        decreases to - i,
    {
        push_char(&mut out, chars[i]);
        i = i + 1;
        assert(out@ =~= chars@.subrange(from as int, i as int));
    }
    out
}

/// What `String::from_utf8_lossy` makes of `bytes`.
pub uninterp spec fn utf8_lossy(bytes: Seq<u8>) -> Seq<char>;

/// `String::from_utf8_lossy`: decodes UTF-8, putting U+FFFD in place of each
/// invalid sequence. Its documentation promises that valid UTF-8 comes back
/// unchanged, which is all that is stated of it beyond naming its result.
#[verifier::external_body]
pub(crate) fn decode_utf8_lossy(bytes: &[u8]) -> (s: String)
    ensures
        s@ == utf8_lossy(bytes@),
        vstd::utf8::valid_utf8(bytes@) ==> s@ == vstd::utf8::decode_utf8(bytes@),
{
    String::from_utf8_lossy(bytes).into_owned()
}

/// Whether two strings hold the same characters.
pub fn same_text(a: &str, b: &str) -> (r: bool)
    ensures
        r == (a@ == b@),
{
    let a1 = String::from_str(a);
    let b1 = String::from_str(b);
    a1 == b1
}

/// A string holding `chars`.
pub fn string_of_chars(chars: &Vec<char>) -> (out: String)
    ensures
        out@ == chars@,
{
    let out = string_of_range(chars, 0, chars.len());
    assert(chars@.subrange(0, chars@.len() as int) =~= chars@);
    out
}

// ---------------------------------------------------------------------------
// White space and trimming

/// White space as `char::is_whitespace` and `str::trim` define it: the
/// characters with the Unicode `White_Space` property.
pub open spec fn is_white_space(c: char) -> bool {
    let v = c as u32;
    ||| 0x9 <= v <= 0xd
    ||| v == 0x20
    ||| v == 0x85
    ||| v == 0xa0
    ||| v == 0x1680
    ||| 0x2000 <= v <= 0x200a
    ||| v == 0x2028
    ||| v == 0x2029
    ||| v == 0x202f
    ||| v == 0x205f
    ||| v == 0x3000
}

pub fn white_space(c: char) -> (b: bool)
    ensures
        b == is_white_space(c),
{
    let v = c as u32;
    (0x9 <= v && v <= 0xd) || v == 0x20 || v == 0x85 || v == 0xa0 || v == 0x1680 || (0x2000 <= v
        && v <= 0x200a) || v == 0x2028 || v == 0x2029 || v == 0x202f || v == 0x205f || v == 0x3000
}

/// Index of the first character of `s[i..j]` that is not white space (or `j`).
pub open spec fn first_non_ws(s: Seq<char>, i: int, j: int) -> int
    decreases j - i,
{
    if i < j && is_white_space(s[i]) {
        first_non_ws(s, i + 1, j)
    } else {
        i
    }
}

/// End of `s[i..j]` once trailing white space is dropped.
pub open spec fn end_non_ws(s: Seq<char>, i: int, j: int) -> int
    decreases j - i,
{
    if i < j && is_white_space(s[j - 1]) {
        end_non_ws(s, i, j - 1)
    } else {
        j
    }
}

/// `s[i..j]` with leading and trailing white space removed.
pub open spec fn trim_range(s: Seq<char>, i: int, j: int) -> Seq<char> {
    let a = first_non_ws(s, i, j);
    s.subrange(a, end_non_ws(s, a, j))
}

/// What `str::trim` gives.
pub open spec fn trim(s: Seq<char>) -> Seq<char> {
    trim_range(s, 0, s.len() as int)
}

pub proof fn lemma_first_non_ws_bounds(s: Seq<char>, i: int, j: int)
    requires
        i <= j,
    ensures
        i <= first_non_ws(s, i, j) <= j,
    decreases j - i,
{
    if i < j && is_white_space(s[i]) {
        lemma_first_non_ws_bounds(s, i + 1, j);
    }
}

pub proof fn lemma_end_non_ws_bounds(s: Seq<char>, i: int, j: int)
    requires
        i <= j,
    ensures
        i <= end_non_ws(s, i, j) <= j,
    decreases j - i,
{
    if i < j && is_white_space(s[j - 1]) {
        lemma_end_non_ws_bounds(s, i, j - 1);
    }
}

proof fn lemma_first_non_ws_shift(s: Seq<char>, lo: int, i: int, j: int)
    requires
        0 <= lo <= i <= j <= s.len(),
    ensures
        first_non_ws(s, i, j) - lo == first_non_ws(s.subrange(lo, j), i - lo, j - lo),
    decreases j - i,
{
    if i < j && is_white_space(s[i]) {
        lemma_first_non_ws_shift(s, lo, i + 1, j);
    }
}

proof fn lemma_end_non_ws_shift(s: Seq<char>, lo: int, i: int, j: int)
    requires
        0 <= lo <= i <= j <= s.len(),
    ensures
        end_non_ws(s, i, j) - lo == end_non_ws(s.subrange(lo, s.len() as int), i - lo, j - lo),
    decreases j - i,
{
    if i < j && is_white_space(s[j - 1]) {
        lemma_end_non_ws_shift(s, lo, i, j - 1);
    }
}

proof fn lemma_end_non_ws_cut(s: Seq<char>, hi: int, i: int, j: int)
    requires
        0 <= i <= j <= hi <= s.len(),
    ensures
        end_non_ws(s, i, j) == end_non_ws(s.subrange(0, hi), i, j),
    decreases j - i,
{
    if i < j && is_white_space(s[j - 1]) {
        lemma_end_non_ws_cut(s, hi, i, j - 1);
    }
}

/// Trimming a slice of `s` gives the trim of that slice taken on its own.
pub proof fn lemma_trim_range(s: Seq<char>, lo: int, hi: int)
    requires
        0 <= lo <= hi <= s.len(),
    ensures
        trim_range(s, lo, hi) == trim(s.subrange(lo, hi)),
{
    let t = s.subrange(lo, hi);
    lemma_first_non_ws_shift(s, lo, lo, hi);
    assert(s.subrange(lo, hi) == t);
    let a = first_non_ws(s, lo, hi);
    lemma_first_non_ws_bounds(s, lo, hi);
    let ta = first_non_ws(t, 0, t.len() as int);
    assert(ta == a - lo);
    lemma_end_non_ws_shift(s.subrange(0, hi), lo, a, hi);
    lemma_end_non_ws_cut(s, hi, a, hi);
    assert(s.subrange(0, hi).subrange(lo, hi) == t);
    let e = end_non_ws(s, a, hi);
    lemma_end_non_ws_bounds(s, a, hi);
    assert(end_non_ws(t, ta, t.len() as int) == e - lo);
    assert(s.subrange(a, e) =~= t.subrange(ta, e - lo));
}

/// The bounds of `chars[lo..hi]` once white space at both ends is dropped.
pub fn trim_bounds(chars: &Vec<char>, lo: usize, hi: usize) -> (r: (usize, usize))
    requires
        lo <= hi <= chars@.len(),
    ensures
        r.0 == first_non_ws(chars@, lo as int, hi as int),
        r.1 == end_non_ws(chars@, r.0 as int, hi as int),
        lo <= r.0 <= r.1 <= hi,
        chars@.subrange(r.0 as int, r.1 as int) == trim(chars@.subrange(lo as int, hi as int)),
{
    let mut a = lo;
    while a < hi && white_space(chars[a])
        invariant
            lo <= a <= hi <= chars@.len(),
            first_non_ws(chars@, lo as int, hi as int) == first_non_ws(chars@, a as int, hi as int),
        decreases hi - a,
    {
        a = a + 1;
    }
    let mut b = hi;
    while b > a && white_space(chars[b - 1])
        invariant
            lo <= a <= b <= hi <= chars@.len(),
            end_non_ws(chars@, a as int, hi as int) == end_non_ws(chars@, a as int, b as int),
        decreases b - a,
    {
        b = b - 1;
    }
    proof {
        lemma_trim_range(chars@, lo as int, hi as int);
    }
    (a, b)
}

/// A text that trimming leaves alone starts and ends with non-white space.
pub proof fn lemma_trim_fixed_ends(s: Seq<char>)
    requires
        s.len() > 0,
        trim(s) == s,
    ensures
        !is_white_space(s[0]),
        !is_white_space(s.last()),
{
    let n = s.len() as int;
    lemma_first_non_ws_bounds(s, 0, n);
    let a = first_non_ws(s, 0, n);
    lemma_end_non_ws_bounds(s, a, n);
    if is_white_space(s[0]) {
        lemma_first_non_ws_bounds(s, 1, n);
        assert(trim(s).len() < n);
    }
    if is_white_space(s[n - 1]) {
        lemma_end_non_ws_bounds(s, a, n - 1);
        assert(trim(s).len() < n);
    }
}

/// A text that starts and ends with non-white space is its own trim.
pub proof fn lemma_trim_of_clean_ends(s: Seq<char>)
    requires
        s.len() > 0,
        !is_white_space(s[0]),
        !is_white_space(s.last()),
    ensures
        trim(s) == s,
{
    let n = s.len() as int;
    assert(first_non_ws(s, 0, n) == 0);
    assert(end_non_ws(s, 0, n) == n);
    assert(s.subrange(0, n) =~= s);
}

/// The trim of a text starts and ends with non-white space.
pub proof fn lemma_trim_ends(s: Seq<char>)
    ensures
        trim(s).len() > 0 ==> !is_white_space(trim(s)[0]) && !is_white_space(trim(s).last()),
{
    let n = s.len() as int;
    lemma_first_non_ws_stops(s, 0, n);
    let a = first_non_ws(s, 0, n);
    lemma_first_non_ws_bounds(s, 0, n);
    lemma_end_non_ws_stops(s, a, n);
    lemma_end_non_ws_bounds(s, a, n);
}

proof fn lemma_first_non_ws_stops(s: Seq<char>, i: int, j: int)
    requires
        0 <= i <= j <= s.len(),
    ensures
        first_non_ws(s, i, j) < j ==> !is_white_space(s[first_non_ws(s, i, j)]),
    decreases j - i,
{
    if i < j && is_white_space(s[i]) {
        lemma_first_non_ws_stops(s, i + 1, j);
    }
}

proof fn lemma_end_non_ws_stops(s: Seq<char>, i: int, j: int)
    requires
        0 <= i <= j <= s.len(),
    ensures
        end_non_ws(s, i, j) > i ==> !is_white_space(s[end_non_ws(s, i, j) - 1]),
    decreases j - i,
{
    if i < j && is_white_space(s[j - 1]) {
        lemma_end_non_ws_stops(s, i, j - 1);
    }
}

/// `str::trim`: `s` without its leading and trailing white space.
pub fn trimmed(s: &str) -> (t: &str)
    ensures
        t@ == trim(s@),
{
    let chars = chars_of(s);
    let (a, b) = trim_bounds(&chars, 0, chars.len());
    assert(chars@.subrange(0, chars@.len() as int) == s@);
    s.substring_char(a, b)
}

// ---------------------------------------------------------------------------
// Splitting on a separator

/// The pieces of `s` between occurrences of `sep`, as `str::split` gives them:
/// one more piece than there are separators, empty pieces included.
pub open spec fn split_char(s: Seq<char>, sep: char) -> Seq<Seq<char>>
    decreases s.len(),
{
    if s.len() == 0 {
        seq![Seq::<char>::empty()]
    } else {
        let prev = split_char(s.drop_last(), sep);
        if s.last() == sep {
            prev.push(Seq::<char>::empty())
        } else {
            prev.update(prev.len() - 1, prev.last().push(s.last()))
        }
    }
}

pub proof fn lemma_split_char_len(s: Seq<char>, sep: char)
    ensures
        split_char(s, sep).len() >= 1,
    decreases s.len(),
{
    if s.len() > 0 {
        lemma_split_char_len(s.drop_last(), sep);
    }
}

/// One more character of a scan: how the pieces of `s[..i+1]` come from those
/// of `s[..i]`, where the last piece of `s[..i]` starts at `start`.
pub proof fn lemma_split_char_step(
    s: Seq<char>,
    sep: char,
    done: Seq<Seq<char>>,
    start: int,
    i: int,
)
    requires
        0 <= start <= i < s.len(),
        split_char(s.take(i), sep) == done.push(s.subrange(start, i)),
    ensures
        s[i] == sep ==> split_char(s.take(i + 1), sep) == done.push(s.subrange(start, i)).push(
            s.subrange(i + 1, i + 1),
        ),
        s[i] != sep ==> split_char(s.take(i + 1), sep) == done.push(s.subrange(start, i + 1)),
{
    assert(s.take(i + 1).drop_last() =~= s.take(i));
    assert(s.take(i + 1).last() == s[i]);
    assert(s.subrange(i + 1, i + 1) =~= Seq::<char>::empty());
    assert(s.subrange(start, i).push(s[i]) =~= s.subrange(start, i + 1));
    let prev = done.push(s.subrange(start, i));
    if s[i] != sep {
        assert(prev.update(prev.len() - 1, prev.last().push(s[i])) =~= done.push(
            s.subrange(start, i + 1),
        ));
    }
}

/// The slices of `s[lo..hi]` between occurrences of `sep`, as index ranges
/// into `s`.
pub open spec fn ranges_view(s: Seq<char>, ranges: Seq<(usize, usize)>) -> Seq<Seq<char>> {
    ranges.map_values(|r: (usize, usize)| s.subrange(r.0 as int, r.1 as int))
}

/// `str::split` of `chars[lo..hi]` on `sep`, as index ranges.
pub fn split_ranges(chars: &Vec<char>, lo: usize, hi: usize, sep: char) -> (ranges: Vec<(usize, usize)>)
    requires
        lo <= hi <= chars@.len(),
    ensures
        ranges_view(chars@, ranges@) == split_char(chars@.subrange(lo as int, hi as int), sep),
        forall|k: int|
            0 <= k < ranges@.len() ==> lo <= (#[trigger] ranges@[k]).0 <= ranges@[k].1 <= hi,
{
    let ghost t = chars@.subrange(lo as int, hi as int);
    let mut ranges: Vec<(usize, usize)> = Vec::new();
    let mut start = lo;
    let mut i = lo;
    assert(t.take(0) =~= Seq::<char>::empty());
    assert(t.subrange(0, 0) =~= Seq::<char>::empty());
    assert(split_char(t.take(0), sep) =~= ranges_view(chars@, ranges@).push(t.subrange(0, 0)));
    while i < hi
        invariant
            lo <= start <= i <= hi <= chars@.len(),
            t == chars@.subrange(lo as int, hi as int),
            split_char(t.take(i - lo), sep) == ranges_view(chars@, ranges@).push(
                t.subrange(start - lo, i - lo),
            ),
            forall|k: int|
                0 <= k < ranges@.len() ==> lo <= (#[trigger] ranges@[k]).0 <= ranges@[k].1 <= hi,
        decreases hi - i,
    {
        proof {
            lemma_split_char_step(t, sep, ranges_view(chars@, ranges@), start - lo, i - lo);
        }
        if chars[i] == sep {
            let ghost before = ranges@;
            ranges.push((start, i));
            assert(t.subrange(start - lo, i - lo) =~= chars@.subrange(start as int, i as int));
            assert(ranges_view(chars@, ranges@) =~= ranges_view(chars@, before).push(
                t.subrange(start - lo, i - lo),
            ));
            start = i + 1;
        }
        i = i + 1;
    }
    let ghost before = ranges@;
    ranges.push((start, hi));
    assert(t.subrange(start - lo, hi - lo) =~= chars@.subrange(start as int, hi as int));
    assert(ranges_view(chars@, ranges@) =~= ranges_view(chars@, before).push(
        t.subrange(start - lo, hi - lo),
    ));
    assert(t.take(hi - lo) =~= t);
    ranges
}

pub proof fn lemma_split_char_no_sep(b: Seq<char>, sep: char)
    requires
        !b.contains(sep),
    ensures
        split_char(b, sep) == seq![b],
    decreases b.len(),
{
    if b.len() == 0 {
        assert(b =~= Seq::<char>::empty());
    } else {
        assert(!b.drop_last().contains(sep)) by {
            if b.drop_last().contains(sep) {
                let k = choose|k: int| 0 <= k < b.drop_last().len() && b.drop_last()[k] == sep;
                assert(b[k] == sep);
            }
        }
        lemma_split_char_no_sep(b.drop_last(), sep);
        assert(b.last() != sep) by {
            assert(b[b.len() - 1] == b.last());
        }
        assert(b.drop_last().push(b.last()) =~= b);
    }
}

/// Appending text without a separator extends the last piece.
pub proof fn lemma_split_char_append(s: Seq<char>, sep: char, b: Seq<char>)
    requires
        !b.contains(sep),
    ensures
        split_char(s + b, sep) == split_char(s, sep).update(
            split_char(s, sep).len() - 1,
            split_char(s, sep).last() + b,
        ),
    decreases b.len(),
{
    let p = split_char(s, sep);
    lemma_split_char_len(s, sep);
    if b.len() == 0 {
        assert(s + b =~= s);
        assert(p.last() + b =~= p.last());
        assert(p.update(p.len() - 1, p.last()) =~= p);
    } else {
        let b1 = b.drop_last();
        assert(!b1.contains(sep)) by {
            if b1.contains(sep) {
                let k = choose|k: int| 0 <= k < b1.len() && b1[k] == sep;
                assert(b[k] == sep);
            }
        }
        lemma_split_char_append(s, sep, b1);
        assert((s + b).drop_last() =~= s + b1);
        assert((s + b).last() == b.last());
        assert(b.last() != sep) by {
            assert(b[b.len() - 1] == b.last());
        }
        let prev = p.update(p.len() - 1, p.last() + b1);
        assert((p.last() + b1).push(b.last()) =~= p.last() + b);
        assert(prev.update(prev.len() - 1, prev.last().push(b.last())) =~= p.update(
            p.len() - 1,
            p.last() + b,
        ));
    }
}

/// Splitting text joined at a separator splits each side on its own.
pub proof fn lemma_split_char_concat(s: Seq<char>, sep: char, b: Seq<char>)
    ensures
        split_char(s + seq![sep] + b, sep) == split_char(s, sep) + split_char(b, sep),
    decreases b.len(),
{
    lemma_split_char_len(s, sep);
    if b.len() == 0 {
        assert((s + seq![sep] + b).drop_last() =~= s);
        assert(split_char(b, sep) =~= seq![Seq::<char>::empty()]);
        assert(split_char(s, sep).push(Seq::<char>::empty()) =~= split_char(s, sep) + seq![
            Seq::<char>::empty(),
        ]);
    } else {
        let b1 = b.drop_last();
        lemma_split_char_concat(s, sep, b1);
        lemma_split_char_len(b1, sep);
        let whole = s + seq![sep] + b;
        assert(whole.drop_last() =~= s + seq![sep] + b1);
        assert(whole.last() == b.last());
        let left = split_char(s, sep);
        let right = split_char(b1, sep);
        if b.last() == sep {
            assert((left + right).push(Seq::<char>::empty()) =~= left + right.push(
                Seq::<char>::empty(),
            ));
        } else {
            let joined = left + right;
            assert(joined.update(joined.len() - 1, joined.last().push(b.last())) =~= left
                + right.update(right.len() - 1, right.last().push(b.last())));
        }
    }
}

/// Splitting a text with one separator in it.
pub proof fn lemma_split_char_two(a: Seq<char>, sep: char, b: Seq<char>)
    requires
        !a.contains(sep),
        !b.contains(sep),
    ensures
        split_char(a + seq![sep] + b, sep) == seq![a, b],
{
    lemma_split_char_concat(a, sep, b);
    lemma_split_char_no_sep(a, sep);
    lemma_split_char_no_sep(b, sep);
    assert(seq![a] + seq![b] =~= seq![a, b]);
}

// ---------------------------------------------------------------------------
// ASCII case

pub open spec fn ascii_upper(c: char) -> char {
    if 'a' <= c <= 'z' {
        ((c as u32) - 32) as char
    } else {
        c
    }
}

pub open spec fn ascii_lower(c: char) -> char {
    if 'A' <= c <= 'Z' {
        ((c as u32) + 32) as char
    } else {
        c
    }
}

/// `char::to_ascii_uppercase`.
pub fn to_ascii_upper(c: char) -> (r: char)
    ensures
        r == ascii_upper(c),
{
    if 'a' <= c && c <= 'z' {
        ((c as u8) - 32) as char
    } else {
        c
    }
}

/// `char::to_ascii_lowercase`.
pub fn to_ascii_lower(c: char) -> (r: char)
    ensures
        r == ascii_lower(c),
{
    if 'A' <= c && c <= 'Z' {
        ((c as u8) + 32) as char
    } else {
        c
    }
}

// ---------------------------------------------------------------------------
// Decimal numbers

pub open spec fn is_digit(c: char) -> bool {
    '0' <= c <= '9'
}

pub open spec fn digit_value(c: char) -> nat {
    ((c as u32) - 48) as nat
}

pub open spec fn digit_char(d: nat) -> char {
    (d + 48) as char
}

pub open spec fn all_digits(s: Seq<char>) -> bool {
    forall|i: int| 0 <= i < s.len() ==> is_digit(#[trigger] s[i])
}

/// The number that a string of decimal digits denotes.
pub open spec fn digits_value(s: Seq<char>) -> nat
    decreases s.len(),
{
    if s.len() == 0 {
        0
    } else {
        digits_value(s.drop_last()) * 10 + digit_value(s.last())
    }
}

/// What `str::parse::<u64>` accepts and gives: an optional `+`, then at least
/// one ASCII digit and nothing else, denoting at most `u64::MAX`.
pub open spec fn parse_u64_spec(s: Seq<char>) -> Option<u64> {
    let body = if s.len() > 0 && s[0] == '+' {
        s.drop_first()
    } else {
        s
    };
    if body.len() == 0 || !all_digits(body) || digits_value(body) > u64::MAX {
        None
    } else {
        Some(digits_value(body) as u64)
    }
}

/// The decimal digits of `n`, most significant first, without leading zeros.
pub open spec fn decimal(n: nat) -> Seq<char>
    decreases n,
{
    if n < 10 {
        seq![digit_char(n)]
    } else {
        decimal(n / 10).push(digit_char(n % 10))
    }
}

proof fn lemma_digits_value_grows(s: Seq<char>, i: int, j: int)
    requires
        0 <= i <= j <= s.len(),
    ensures
        digits_value(s.take(i)) <= digits_value(s.take(j)),
    decreases j - i,
{
    if i < j {
        lemma_digits_value_grows(s, i, j - 1);
        assert(s.take(j).drop_last() =~= s.take(j - 1));
    }
}

/// `str::parse::<u64>` on `chars[lo..hi]`.
pub fn parse_u64(chars: &Vec<char>, lo: usize, hi: usize) -> (r: Option<u64>)
    requires
        lo <= hi <= chars@.len(),
    ensures
        r == parse_u64_spec(chars@.subrange(lo as int, hi as int)),
{
    let ghost s = chars@.subrange(lo as int, hi as int);
    let mut start = lo;
    if lo < hi && chars[lo] == '+' {
        start = lo + 1;
    }
    let ghost body = chars@.subrange(start as int, hi as int);
    assert(body =~= (if s.len() > 0 && s[0] == '+' { s.drop_first() } else { s }));
    if start == hi {
        return None;
    }
    let mut value: u64 = 0;
    let mut i = start;
    while i < hi
        invariant
            lo <= start <= i <= hi <= chars@.len(),
            s == chars@.subrange(lo as int, hi as int),
            body == chars@.subrange(start as int, hi as int),
            body == (if s.len() > 0 && s[0] == '+' { s.drop_first() } else { s }),
            body.len() > 0,
            all_digits(body.take(i - start)),
            value == digits_value(body.take(i - start)),
        decreases hi - i,
    {
        let c = chars[i];
        if !('0' <= c && c <= '9') {
            assert(body[i - start] == c);
            assert(!is_digit(body[i - start]));
            return None;
        }
        let d = (c as u8 - 48) as u64;
        assert(body.take(i - start + 1).drop_last() =~= body.take(i - start));
        if value > (u64::MAX - d) / 10 {
            proof {
                assert(value * 10 + d > u64::MAX) by (nonlinear_arith)
                    requires
                        value > (u64::MAX - d) / 10,
                        d <= 9,
                ;
                assert(digits_value(body.take(i - start + 1)) == value * 10 + d);
                lemma_digits_value_grows(body, i - start + 1, body.len() as int);
                assert(body.take(body.len() as int) =~= body);
            }
            return None;
        }
        value = value * 10 + d;
        i = i + 1;
    }
    assert(body.take(body.len() as int) =~= body);
    Some(value)
}

pub proof fn lemma_decimal_digits(n: nat)
    ensures
        decimal(n).len() >= 1,
        all_digits(decimal(n)),
        digits_value(decimal(n)) == n,
    decreases n,
{
    if n < 10 {
        assert(decimal(n).drop_last() =~= Seq::<char>::empty());
        assert(digit_value(digit_char(n)) == n);
        assert(digits_value(Seq::<char>::empty()) == 0);
        assert(digits_value(decimal(n)) == digits_value(decimal(n).drop_last()) * 10 + digit_value(decimal(n).last()));
    } else {
        lemma_decimal_digits(n / 10);
        let d = decimal(n);
        assert(d.drop_last() =~= decimal(n / 10));
        assert(d.last() == digit_char(n % 10));
        assert(digit_value(digit_char(n % 10)) == n % 10);
        assert(n == (n / 10) * 10 + n % 10);
        assert(digits_value(d) == digits_value(d.drop_last()) * 10 + digit_value(d.last()));
    }
}

/// Law: reading back the decimal digits of a `u64` gives the number.
pub proof fn law_parse_u64_of_decimal(n: u64)
    ensures
        parse_u64_spec(decimal(n as nat)) == Some(n),
{
    lemma_decimal_digits(n as nat);
}

/// Appends the decimal digits of `n` (`n.to_string()`).
pub fn push_decimal(out: &mut String, n: u64)
    ensures
        final(out)@ == old(out)@ + decimal(n as nat),
    decreases n,
{
    if n >= 10 {
        push_decimal(out, n / 10);
    }
    let d = ((n % 10) as u8 + 48) as char;
    push_char(out, d);
    assert(decimal(n as nat) =~= (if n < 10 {
        seq![digit_char(n as nat)]
    } else {
        decimal((n / 10) as nat).push(digit_char((n % 10) as nat))
    }));
}

} // verus!
