//! Text as sequences of characters.
//!
//! Every contract of the crate speaks of a string by its view, a `Seq<char>`.
//! The functions here take strings apart and put them together, and each
//! states its result over that view.

use vstd::prelude::*;
use vstd::string::*;
use vstd::utf8::*;

verus! {

/// `String::push` appends one character.
pub assume_specification[ String::push ](s: &mut String, c: char)
    ensures
        final(s)@ == old(s)@.push(c),
;

/// The views of a sequence of values.
pub open spec fn views<T: View>(v: Seq<T>) -> Seq<T::V> {
    Seq::new(v.len(), |i: int| v[i]@)
}

/// The view of an optional string.
pub open spec fn opt_view(o: Option<String>) -> Option<Seq<char>> {
    match o {
        Some(s) => Some(s@),
        None => None,
    }
}

// ---------------------------------------------------------------------------
// Characters of a string
// ---------------------------------------------------------------------------

/// The characters of `s`, in order.
pub fn chars_of(s: &str) -> (v: Vec<char>)
    ensures
        v@ == s@,
{
    let mut v: Vec<char> = Vec::new();
    for c in it: s.chars()
        invariant
            it.seq() == s@,
            v@ == s@.take(it.index() as int),
    {
        v.push(c);
        assert(v@ =~= s@.take(it.index() + 1));
    }
    assert(s@.take(s@.len() as int) =~= s@);
    v
}

/// The string whose characters are `v[from..to]`.
pub fn string_from(v: &Vec<char>, from: usize, to: usize) -> (s: String)
    requires
        from <= to <= v.len(),
    ensures
        s@ == v@.subrange(from as int, to as int),
{
    let mut s = String::new();
    let mut i: usize = from;
    while i < to
        invariant
            from <= i <= to <= v.len(),
            s@ == v@.subrange(from as int, i as int),
        decreases to - i,
    {
        s.push(v[i]);
        i = i + 1;
        assert(s@ =~= v@.subrange(from as int, i as int));
    }
    s
}

/// Two strings of equal encoding hold the same characters.
proof fn lemma_encode_injective(a: Seq<char>, b: Seq<char>)
    requires
        encode_utf8(a) == encode_utf8(b),
    ensures
        a == b,
{
    encode_utf8_decode_utf8(a);
    encode_utf8_decode_utf8(b);
}

/// Whether two strings hold the same characters.
pub fn same(a: &str, b: &str) -> (r: bool)
    ensures
        r == (a@ == b@),
{
    let x = a.as_bytes();
    let y = b.as_bytes();
    if x.len() != y.len() {
        return false;
    }
    let mut i: usize = 0;
    while i < x.len()
        invariant
            i <= x.len() == y.len(),
            x@ == encode_utf8(a@),
            y@ == encode_utf8(b@),
            forall|j: int| 0 <= j < i ==> x@[j] == y@[j],
        decreases x.len() - i,
    {
        if x[i] != y[i] {
            return false;
        }
        i = i + 1;
    }
    proof {
        assert(x@ =~= y@);
        lemma_encode_injective(a@, b@);
    }
    true
}

// ---------------------------------------------------------------------------
// Numbers
// ---------------------------------------------------------------------------

/// The character of a decimal digit.
pub open spec fn digit(d: int) -> char {
    ('0' as int + d) as char
}

/// The decimal digits of `n`, without leading zeros.
pub open spec fn dec(n: nat) -> Seq<char>
    decreases n,
{
    if n < 10 {
        seq![digit(n as int)]
    } else {
        dec(n / 10).push(digit((n % 10) as int))
    }
}

/// `dec(n)` filled up with zeros on the left to `width` characters.
pub open spec fn dec_padded(n: nat, width: nat) -> Seq<char> {
    let d = dec(n);
    if d.len() >= width {
        d
    } else {
        Seq::new((width - d.len()) as nat, |i: int| '0') + d
    }
}

fn digit_char(d: u64) -> (c: char)
    requires
        d < 10,
    ensures
        c == digit(d as int),
{
    (48u8 + d as u8) as char
}

/// Appends the decimal digits of `n` to `s`.
pub fn push_dec(s: &mut String, n: u64)
    ensures
        final(s)@ == old(s)@ + dec(n as nat),
    decreases n,
{
    if n >= 10 {
        push_dec(s, n / 10);
    }
    s.push(digit_char(n % 10));
    assert(s@ =~= old(s)@ + dec(n as nat));
}

/// The decimal form of `n`.
pub fn dec_string(n: u64) -> (s: String)
    ensures
        s@ == dec(n as nat),
{
    let mut s = String::new();
    push_dec(&mut s, n);
    assert(s@ =~= dec(n as nat));
    s
}

/// The decimal form of `n`, filled up with zeros on the left.
pub fn dec_padded_string(n: u64, width: usize) -> (s: String)
    ensures
        s@ == dec_padded(n as nat, width as nat),
{
    let d = dec_string(n);
    let len: usize = d.as_str().unicode_len();
    if len >= width {
        return d;
    }
    let mut s = String::new();
    let mut i: usize = 0;
    while i < width - len
        invariant
            len < width,
            i <= width - len,
            s@ == Seq::new(i as nat, |j: int| '0'),
        decreases width - len - i,
    {
        s.push('0');
        i = i + 1;
        assert(s@ =~= Seq::new(i as nat, |j: int| '0'));
    }
    s.append(d.as_str());
    s
}

/// The value of a run of decimal digits, or `None` where a character is no digit.
pub open spec fn digits_value(s: Seq<char>) -> Option<nat>
    decreases s.len(),
{
    if s.len() == 0 {
        Some(0nat)
    } else {
        match digits_value(s.drop_last()) {
            Some(n) => if '0' <= s.last() <= '9' {
                Some((n * 10 + (s.last() as int - '0' as int)) as nat)
            } else {
                None
            },
            None => None,
        }
    }
}

/// The value of a decimal integer with an optional sign, or `None` where `s` is no such
/// integer or lies outside the range of `i64`.
pub open spec fn int_value(s: Seq<char>) -> Option<int> {
    let signed = s.len() > 0 && (s[0] == '-' || s[0] == '+');
    let digits = if signed {
        s.skip(1)
    } else {
        s
    };
    if digits.len() == 0 {
        None
    } else {
        match digits_value(digits) {
            None => None,
            Some(n) => {
                let v: int = if signed && s[0] == '-' {
                    -(n as int)
                } else {
                    n as int
                };
                if i64::MIN <= v <= i64::MAX {
                    Some(v)
                } else {
                    None
                }
            },
        }
    }
}

proof fn lemma_digits_value_grows(s: Seq<char>, i: int)
    requires
        0 <= i <= s.len(),
    ensures
        digits_value(s.take(i)) is None ==> digits_value(s) is None,
        digits_value(s) is Some ==> digits_value(s)->0 >= digits_value(s.take(i))->0,
    decreases s.len() - i,
{
    if i == s.len() {
        assert(s.take(i) =~= s);
    } else {
        assert(s.take(i + 1).drop_last() =~= s.take(i));
        lemma_digits_value_grows(s, i + 1);
    }
}

/// Reads a decimal integer with an optional sign.
pub fn parse_int(s: &str) -> (r: Option<i64>)
    ensures
        match r {
            Some(v) => int_value(s@) == Some(v as int),
            None => int_value(s@) is None,
        },
{
    let v = chars_of(s);
    let signed = v.len() > 0 && (v[0] == '-' || v[0] == '+');
    let negative = v.len() > 0 && v[0] == '-';
    let from: usize = if signed {
        1
    } else {
        0
    };
    let ghost digits = v@.skip(from as int);
    assert(v@.skip(0) =~= v@);
    if from == v.len() {
        return None;
    }
    let mut acc: i128 = 0;
    let mut i: usize = from;
    while i < v.len()
        invariant
            from <= i <= v.len(),
            digits == v@.skip(from as int),
            0 <= acc <= 10 * (i64::MAX as int + 1) + 9,
            digits_value(digits.take(i - from)) == Some(acc as nat),
            negative ==> signed,
            signed == (v@.len() > 0 && (v@[0] == '-' || v@[0] == '+')),
            negative == (v@.len() > 0 && v@[0] == '-'),
            from == if signed { 1int } else { 0int },
            v@ == s@,
            from < v.len(),
            digits == (if signed { s@.skip(1) } else { s@ }),
        decreases v.len() - i,
    {
        let c = v[i];
        proof {
            assert(digits.take(i - from + 1).drop_last() =~= digits.take(i - from));
            lemma_digits_value_grows(digits, i - from + 1);
            lemma_digits_value_grows(digits, i - from);
        }
        if acc > i64::MAX as i128 + 1 {
            return None;
        }
        if c < '0' || c > '9' {
            return None;
        }
        let d: u32 = c as u32 - 48u32;
        acc = acc * 10 + d as i128;
        i = i + 1;
    }
    assert(digits.take(digits.len() as int) =~= digits);
    let value: i128 = if negative {
        -acc
    } else {
        acc
    };
    if value < i64::MIN as i128 || value > i64::MAX as i128 {
        return None;
    }
    Some(value as i64)
}

// ---------------------------------------------------------------------------
// White space
// ---------------------------------------------------------------------------

/// The characters with the Unicode property White_Space.
pub open spec fn is_white(c: char) -> bool {
    ||| '\u{9}' <= c <= '\u{d}'
    ||| c == ' '
    ||| c == '\u{85}'
    ||| c == '\u{a0}'
    ||| c == '\u{1680}'
    ||| '\u{2000}' <= c <= '\u{200a}'
    ||| c == '\u{2028}'
    ||| c == '\u{2029}'
    ||| c == '\u{202f}'
    ||| c == '\u{205f}'
    ||| c == '\u{3000}'
}

/// Whether `c` is white space.
pub fn white(c: char) -> (r: bool)
    ensures
        r == is_white(c),
{
    ('\u{9}' <= c && c <= '\u{d}') || c == ' ' || c == '\u{85}' || c == '\u{a0}' || c
        == '\u{1680}' || ('\u{2000}' <= c && c <= '\u{200a}') || c == '\u{2028}' || c
        == '\u{2029}' || c == '\u{202f}' || c == '\u{205f}' || c == '\u{3000}'
}

/// `s` without the white space at its start.
pub open spec fn trim_start(s: Seq<char>) -> Seq<char>
    decreases s.len(),
{
    if s.len() > 0 && is_white(s[0]) {
        trim_start(s.skip(1))
    } else {
        s
    }
}

/// `s` without the white space at its end.
pub open spec fn trim_end(s: Seq<char>) -> Seq<char>
    decreases s.len(),
{
    if s.len() > 0 && is_white(s.last()) {
        trim_end(s.drop_last())
    } else {
        s
    }
}

/// `s` without the white space at its ends.
pub open spec fn trim(s: Seq<char>) -> Seq<char> {
    trim_end(trim_start(s))
}

/// `s` without the characters `c` at its end.
pub open spec fn trim_end_char(s: Seq<char>, c: char) -> Seq<char>
    decreases s.len(),
{
    if s.len() > 0 && s.last() == c {
        trim_end_char(s.drop_last(), c)
    } else {
        s
    }
}

fn skip_white(v: &Vec<char>) -> (i: usize)
    ensures
        i <= v.len(),
        trim_start(v@) == v@.skip(i as int),
{
    let mut i: usize = 0;
    assert(v@.skip(0) =~= v@);
    while i < v.len() && white(v[i])
        invariant
            i <= v.len(),
            trim_start(v@) == trim_start(v@.skip(i as int)),
        decreases v.len() - i,
    {
        assert(v@.skip(i as int).skip(1) =~= v@.skip(i + 1));
        i = i + 1;
    }
    i
}

fn drop_white(v: &Vec<char>, from: usize) -> (j: usize)
    requires
        from <= v.len(),
    ensures
        from <= j <= v.len(),
        trim_end(v@.skip(from as int)) == v@.subrange(from as int, j as int),
{
    let mut j: usize = v.len();
    assert(v@.skip(from as int) =~= v@.subrange(from as int, j as int));
    while j > from && white(v[j - 1])
        invariant
            from <= j <= v.len(),
            trim_end(v@.skip(from as int)) == trim_end(v@.subrange(from as int, j as int)),
        decreases j,
    {
        assert(v@.subrange(from as int, j as int).drop_last() =~= v@.subrange(
            from as int,
            j - 1,
        ));
        j = j - 1;
    }
    j
}

/// `s` without the white space at its ends.
pub fn trimmed(s: &str) -> (r: String)
    ensures
        r@ == trim(s@),
{
    let v = chars_of(s);
    let i: usize = skip_white(&v);
    let j: usize = drop_white(&v, i);
    string_from(&v, i, j)
}

/// `s` without the white space at its end.
pub fn trimmed_end(s: &str) -> (r: String)
    ensures
        r@ == trim_end(s@),
{
    let v = chars_of(s);
    assert(v@.skip(0) =~= v@);
    let j: usize = drop_white(&v, 0);
    string_from(&v, 0, j)
}

/// `s` without the characters `c` at its end.
pub fn trimmed_end_char(s: &str, c: char) -> (r: String)
    ensures
        r@ == trim_end_char(s@, c),
{
    let v = chars_of(s);
    let mut j: usize = v.len();
    assert(v@ =~= v@.subrange(0, j as int));
    while j > 0 && v[j - 1] == c
        invariant
            j <= v.len(),
            trim_end_char(v@, c) == trim_end_char(v@.subrange(0, j as int), c),
        decreases j,
    {
        assert(v@.subrange(0, j as int).drop_last() =~= v@.subrange(0, j - 1));
        j = j - 1;
    }
    string_from(&v, 0, j)
}

// ---------------------------------------------------------------------------
// Searching
// ---------------------------------------------------------------------------

/// Whether `p` stands in `s` at index `i`.
pub open spec fn found_at(s: Seq<char>, p: Seq<char>, i: int) -> bool {
    0 <= i && i + p.len() <= s.len() && s.subrange(i, i + p.len()) == p
}

/// The first index from `i` on at which `p` stands in `s`.
pub open spec fn find_from(s: Seq<char>, p: Seq<char>, i: int) -> Option<int>
    decreases s.len() + 1 - i,
{
    if i + p.len() > s.len() {
        None
    } else if found_at(s, p, i) {
        Some(i)
    } else {
        find_from(s, p, i + 1)
    }
}

/// The first index at which `p` stands in `s`.
pub open spec fn find(s: Seq<char>, p: Seq<char>) -> Option<int> {
    find_from(s, p, 0)
}

/// Whether `p` stands somewhere in `s`.
pub open spec fn has(s: Seq<char>, p: Seq<char>) -> bool {
    find(s, p) is Some
}

/// Whether `s` begins with `p`.
pub open spec fn begins(s: Seq<char>, p: Seq<char>) -> bool {
    found_at(s, p, 0)
}

/// Whether `s` ends with `p`.
pub open spec fn ends(s: Seq<char>, p: Seq<char>) -> bool {
    found_at(s, p, s.len() - p.len())
}

fn match_at(v: &Vec<char>, p: &Vec<char>, i: usize) -> (r: bool)
    requires
        i + p.len() <= v.len(),
    ensures
        r == found_at(v@, p@, i as int),
{
    let mut j: usize = 0;
    while j < p.len()
        invariant
            j <= p.len(),
            i + p.len() <= v.len(),
            forall|k: int| 0 <= k < j ==> v@[i + k] == p@[k],
        decreases p.len() - j,
    {
        if v[i + j] != p[j] {
            assert(v@.subrange(i as int, i + p@.len())[j as int] != p@[j as int]);
            return false;
        }
        j = j + 1;
    }
    assert(v@.subrange(i as int, i + p@.len()) =~= p@);
    true
}

fn find_in(v: &Vec<char>, p: &Vec<char>) -> (r: Option<usize>)
    ensures
        match r {
            Some(i) => find(v@, p@) == Some(i as int) && i + p.len() <= v.len(),
            None => find(v@, p@) is None,
        },
{
    if p.len() > v.len() {
        return None;
    }
    let mut i: usize = 0;
    while i <= v.len() - p.len()
        invariant
            p.len() <= v.len(),
            i <= v.len() - p.len() + 1,
            find(v@, p@) == find_from(v@, p@, i as int),
        decreases v.len() - i,
    {
        if match_at(v, p, i) {
            return Some(i);
        }
        if i == v.len() - p.len() {
            assert(find_from(v@, p@, i + 1) is None);
            return None;
        }
        i = i + 1;
    }
    None
}

/// Whether `p` stands somewhere in `s`.
pub fn contains(s: &str, p: &str) -> (r: bool)
    ensures
        r == has(s@, p@),
{
    find_in(&chars_of(s), &chars_of(p)).is_some()
}

/// Whether `s` begins with `p`.
pub fn starts_with(s: &str, p: &str) -> (r: bool)
    ensures
        r == begins(s@, p@),
{
    let v = chars_of(s);
    let w = chars_of(p);
    w.len() <= v.len() && match_at(&v, &w, 0)
}

/// Whether `s` ends with `p`.
pub fn ends_with(s: &str, p: &str) -> (r: bool)
    ensures
        r == ends(s@, p@),
{
    let v = chars_of(s);
    let w = chars_of(p);
    w.len() <= v.len() && match_at(&v, &w, v.len() - w.len())
}

/// What follows `p` where `s` begins with it.
pub open spec fn after_prefix(s: Seq<char>, p: Seq<char>) -> Option<Seq<char>> {
    if begins(s, p) {
        Some(s.skip(p.len() as int))
    } else {
        None
    }
}

/// What precedes `p` where `s` ends with it.
pub open spec fn before_suffix(s: Seq<char>, p: Seq<char>) -> Option<Seq<char>> {
    if ends(s, p) {
        Some(s.take(s.len() - p.len()))
    } else {
        None
    }
}

/// What stands before and after the first `p` in `s`.
pub open spec fn cut(s: Seq<char>, p: Seq<char>) -> Option<(Seq<char>, Seq<char>)> {
    match find(s, p) {
        Some(i) => Some((s.take(i), s.skip(i + p.len()))),
        None => None,
    }
}

/// What follows `p` where `s` begins with it.
pub fn strip_prefix(s: &str, p: &str) -> (r: Option<String>)
    ensures
        opt_view(r) == after_prefix(s@, p@),
{
    let v = chars_of(s);
    let w = chars_of(p);
    if w.len() <= v.len() && match_at(&v, &w, 0) {
        let t = string_from(&v, w.len(), v.len());
        assert(t@ =~= s@.skip(w@.len() as int));
        Some(t)
    } else {
        None
    }
}

/// What precedes `p` where `s` ends with it.
pub fn strip_suffix(s: &str, p: &str) -> (r: Option<String>)
    ensures
        opt_view(r) == before_suffix(s@, p@),
{
    let v = chars_of(s);
    let w = chars_of(p);
    if w.len() <= v.len() && match_at(&v, &w, v.len() - w.len()) {
        let t = string_from(&v, 0, v.len() - w.len());
        assert(t@ =~= s@.take(s@.len() - w@.len()));
        Some(t)
    } else {
        None
    }
}

/// What stands before and after the first `p` in `s`.
pub fn split_once(s: &str, p: &str) -> (r: Option<(String, String)>)
    ensures
        match r {
            Some((a, b)) => cut(s@, p@) == Some((a@, b@)),
            None => cut(s@, p@) is None,
        },
{
    let v = chars_of(s);
    let w = chars_of(p);
    match find_in(&v, &w) {
        Some(i) => {
            let a = string_from(&v, 0, i);
            let b = string_from(&v, i + w.len(), v.len());
            assert(a@ =~= s@.take(i as int));
            assert(b@ =~= s@.skip(i + w@.len()));
            Some((a, b))
        },
        None => None,
    }
}

// ---------------------------------------------------------------------------
// Lines and pieces
// ---------------------------------------------------------------------------

/// The index of the first `c` in `s` from `i` on, or the length of `s`.
pub open spec fn index_from(s: Seq<char>, c: char, i: int) -> int
    decreases s.len() - i,
{
    if i >= s.len() {
        s.len() as int
    } else if s[i] == c {
        i
    } else {
        index_from(s, c, i + 1)
    }
}

/// The pieces of `s` from `i` on that the character `c` separates.
pub open spec fn pieces_from(s: Seq<char>, c: char, i: int) -> Seq<Seq<char>>
    recommends
        0 <= i <= s.len(),
    decreases s.len() - i,
    when 0 <= i <= s.len()
    via pieces_from_decreases
{
    let e = index_from(s, c, i);
    if e >= s.len() {
        seq![s.subrange(i, s.len() as int)]
    } else {
        seq![s.subrange(i, e)] + pieces_from(s, c, e + 1)
    }
}

#[via_fn]
proof fn pieces_from_decreases(s: Seq<char>, c: char, i: int) {
    lemma_index_from(s, c, i);
}

/// The pieces of `s` that the character `c` separates: one more than there are `c`.
pub open spec fn pieces(s: Seq<char>, c: char) -> Seq<Seq<char>> {
    pieces_from(s, c, 0)
}

proof fn lemma_index_from(s: Seq<char>, c: char, i: int)
    requires
        0 <= i <= s.len(),
    ensures
        i <= index_from(s, c, i) <= s.len(),
        index_from(s, c, i) < s.len() ==> s[index_from(s, c, i)] == c,
        forall|j: int| i <= j < index_from(s, c, i) ==> s[j] != c,
    decreases s.len() - i,
{
    if i < s.len() && s[i] != c {
        lemma_index_from(s, c, i + 1);
    }
}

proof fn lemma_index_shift(a: Seq<char>, c: char, b: Seq<char>, j: int)
    requires
        0 <= j <= b.len(),
    ensures
        index_from(a + b, c, a.len() + j) == a.len() + index_from(b, c, j),
    decreases b.len() - j,
{
    if j < b.len() && b[j] != c {
        lemma_index_shift(a, c, b, j + 1);
    }
}

proof fn lemma_index_before(a: Seq<char>, c: char, b: Seq<char>, i: int)
    requires
        0 <= i <= a.len(),
    ensures
        index_from(a + seq![c] + b, c, i) == index_from(a, c, i),
    decreases a.len() - i,
{
    if i < a.len() && a[i] != c {
        lemma_index_before(a, c, b, i + 1);
    }
}

proof fn lemma_pieces_shift(a: Seq<char>, c: char, b: Seq<char>, j: int)
    requires
        0 <= j <= b.len(),
    ensures
        pieces_from(a + b, c, a.len() + j) == pieces_from(b, c, j),
    decreases b.len() - j,
{
    let s = a + b;
    let e = index_from(b, c, j);
    lemma_index_from(b, c, j);
    lemma_index_shift(a, c, b, j);
    assert(s.subrange(a.len() + j, a.len() + e) =~= b.subrange(j, e));
    if e < b.len() {
        lemma_pieces_shift(a, c, b, e + 1);
    }
}

proof fn lemma_pieces_from_concat(a: Seq<char>, c: char, b: Seq<char>, i: int)
    requires
        0 <= i <= a.len(),
    ensures
        pieces_from(a + seq![c] + b, c, i) == pieces_from(a, c, i) + pieces(b, c),
    decreases a.len() - i,
{
    let s = a + seq![c] + b;
    let e = index_from(a, c, i);
    lemma_index_from(a, c, i);
    lemma_index_before(a, c, b, i);
    assert(s.subrange(i, e) =~= a.subrange(i, e));
    if e < a.len() {
        lemma_pieces_from_concat(a, c, b, e + 1);
        assert(seq![a.subrange(i, e)] + (pieces_from(a, c, e + 1) + pieces(b, c)) =~= seq![
            a.subrange(i, e),
        ] + pieces_from(a, c, e + 1) + pieces(b, c));
    } else {
        lemma_pieces_shift(a + seq![c], c, b, 0);
    }
}

/// The pieces of two texts with the separator between them are those of the one and those of
/// the other.
pub proof fn lemma_pieces_concat(a: Seq<char>, c: char, b: Seq<char>)
    ensures
        pieces(a + seq![c] + b, c) == pieces(a, c) + pieces(b, c),
        pieces(a, c).len() > 0,
{
    lemma_pieces_from_concat(a, c, b, 0);
}

/// A text without the separator is one piece.
pub proof fn lemma_one_piece(s: Seq<char>, c: char)
    requires
        !s.contains(c),
    ensures
        pieces(s, c) == seq![s],
{
    lemma_index_from(s, c, 0);
    let e = index_from(s, c, 0);
    if e < s.len() {
        assert(s.contains(s[e]));
    }
    assert(s.subrange(0, s.len() as int) =~= s);
}

/// The lines of `s` from `i` on: what newlines end, each without a carriage return
/// directly before its newline; an empty rest is no line.
pub open spec fn lines_from(s: Seq<char>, i: int) -> Seq<Seq<char>>
    recommends
        0 <= i <= s.len(),
    decreases s.len() - i,
    when 0 <= i <= s.len()
    via lines_from_decreases
{
    let e = index_from(s, '\n', i);
    if i == s.len() {
        Seq::empty()
    } else if e >= s.len() {
        seq![s.subrange(i, s.len() as int)]
    } else {
        seq![without_cr(s.subrange(i, e))] + lines_from(s, e + 1)
    }
}

#[via_fn]
proof fn lines_from_decreases(s: Seq<char>, i: int) {
    lemma_index_from(s, '\n', i);
}

/// `s` without one carriage return at its end.
pub open spec fn without_cr(s: Seq<char>) -> Seq<char> {
    if s.len() > 0 && s.last() == '\r' {
        s.drop_last()
    } else {
        s
    }
}

/// The lines of `s`.
pub open spec fn lines(s: Seq<char>) -> Seq<Seq<char>> {
    lines_from(s, 0)
}

fn index_of(v: &Vec<char>, c: char, from: usize) -> (e: usize)
    requires
        from <= v.len(),
    ensures
        e == index_from(v@, c, from as int),
        from <= e <= v.len(),
{
    let mut i: usize = from;
    while i < v.len() && v[i] != c
        invariant
            from <= i <= v.len(),
            index_from(v@, c, from as int) == index_from(v@, c, i as int),
        decreases v.len() - i,
    {
        i = i + 1;
    }
    i
}

/// The pieces of `s` that the character `c` separates.
pub fn split(s: &str, c: char) -> (r: Vec<String>)
    ensures
        views(r@) == pieces(s@, c),
        r.len() > 0,
{
    let v = chars_of(s);
    let mut r: Vec<String> = Vec::new();
    let mut i: usize = 0;
    assert(views(r@) + pieces_from(v@, c, 0) =~= pieces(v@, c));
    loop
        invariant
            i <= v.len(),
            views(r@) + pieces_from(v@, c, i as int) == pieces(v@, c),
            v@ == s@,
        decreases v.len() - i,
    {
        let e: usize = index_of(&v, c, i);
        let piece = string_from(&v, i, e);
        let ghost before = r@;
        r.push(piece);
        assert(views(r@) =~= views(before).push(piece@));
        if e >= v.len() {
            assert(views(r@) =~= views(before) + pieces_from(v@, c, i as int));
            return r;
        }
        assert(views(r@) + pieces_from(v@, c, e + 1) =~= views(before) + pieces_from(
            v@,
            c,
            i as int,
        ));
        i = e + 1;
    }
}

/// The lines of `s`.
pub fn lines_of(s: &str) -> (r: Vec<String>)
    ensures
        views(r@) == lines(s@),
{
    let v = chars_of(s);
    let mut r: Vec<String> = Vec::new();
    let mut i: usize = 0;
    assert(views(r@) + lines_from(v@, 0) =~= lines(v@));
    while i < v.len()
        invariant
            i <= v.len(),
            views(r@) + lines_from(v@, i as int) == lines(v@),
            v@ == s@,
        decreases v.len() - i,
    {
        let e: usize = index_of(&v, '\n', i);
        let ghost before = r@;
        if e >= v.len() {
            let piece = string_from(&v, i, e);
            r.push(piece);
            assert(views(r@) =~= views(before).push(piece@));
            assert(views(r@) =~= views(before) + lines_from(v@, i as int));
            return r;
        }
        let cr = e > i && v[e - 1] == '\r';
        let piece = string_from(
            &v,
            i,
            if cr {
                e - 1
            } else {
                e
            },
        );
        assert(piece@ =~= without_cr(v@.subrange(i as int, e as int)));
        r.push(piece);
        assert(views(r@) =~= views(before).push(piece@));
        assert(views(r@) + lines_from(v@, e + 1) =~= views(before) + lines_from(v@, i as int));
        i = e + 1;
    }
    assert(views(r@) + lines_from(v@, v@.len() as int) =~= views(r@));
    r
}

/// `parts` one after the other, with `sep` between them.
pub open spec fn join(parts: Seq<Seq<char>>, sep: Seq<char>) -> Seq<char>
    decreases parts.len(),
{
    if parts.len() == 0 {
        Seq::empty()
    } else if parts.len() == 1 {
        parts[0]
    } else {
        join(parts.drop_last(), sep) + sep + parts.last()
    }
}

/// `parts` one after the other, with `sep` between them.
pub fn joined(parts: &Vec<String>, sep: &str) -> (s: String)
    ensures
        s@ == join(views(parts@), sep@),
{
    let mut s = String::new();
    let mut i: usize = 0;
    assert(views(parts@).take(0) =~= Seq::empty());
    while i < parts.len()
        invariant
            i <= parts.len(),
            s@ == join(views(parts@).take(i as int), sep@),
        decreases parts.len() - i,
    {
        if i > 0 {
            s.append(sep);
        }
        s.append(parts[i].as_str());
        proof {
            let before = views(parts@).take(i as int);
            let after = views(parts@).take(i + 1);
            assert(after.drop_last() =~= before);
            if i == 0 {
                assert(s@ =~= join(after, sep@));
            }
        }
        i = i + 1;
    }
    assert(views(parts@).take(parts@.len() as int) =~= views(parts@));
    s
}

// ---------------------------------------------------------------------------
// Letters
// ---------------------------------------------------------------------------

/// `c` with an ASCII capital made small.
pub open spec fn ascii_lower(c: char) -> char {
    if 'A' <= c <= 'Z' {
        (c as int + 32) as char
    } else {
        c
    }
}

/// Whether two strings differ at most in the case of ASCII letters.
pub open spec fn same_ascii(a: Seq<char>, b: Seq<char>) -> bool {
    a.len() == b.len() && forall|i: int|
        0 <= i < a.len() ==> ascii_lower(#[trigger] a[i]) == ascii_lower(b[i])
}

pub fn lower_char(c: char) -> (r: char)
    ensures
        r == ascii_lower(c),
{
    if 'A' <= c && c <= 'Z' {
        let n: u8 = (c as u32) as u8;
        (n + 32) as char
    } else {
        c
    }
}

/// Whether two strings differ at most in the case of ASCII letters.
pub fn same_ignoring_ascii_case(a: &str, b: &str) -> (r: bool)
    ensures
        r == same_ascii(a@, b@),
{
    let v = chars_of(a);
    let w = chars_of(b);
    if v.len() != w.len() {
        return false;
    }
    let mut i: usize = 0;
    while i < v.len()
        invariant
            i <= v.len() == w.len(),
            v@ == a@,
            w@ == b@,
            forall|j: int| 0 <= j < i ==> ascii_lower(#[trigger] v@[j]) == ascii_lower(w@[j]),
        decreases v.len() - i,
    {
        if lower_char(v[i]) != lower_char(w[i]) {
            assert(ascii_lower(a@[i as int]) != ascii_lower(b@[i as int]));
            return false;
        }
        i = i + 1;
    }
    true
}

/// What `str::to_lowercase` makes of a string: the Unicode lower-case form.
pub uninterp spec fn lowercase(s: Seq<char>) -> Seq<char>;

/// `str::to_lowercase`. The result is a function of the string alone, named `lowercase`;
/// nothing else is claimed of it.
#[verifier::external_body]
pub(crate) fn to_lowercase(s: &str) -> (r: String)
    ensures
        r@ == lowercase(s@),
{
    s.to_lowercase()
}

/// What `str::to_uppercase` makes of a string: the Unicode upper-case form.
pub uninterp spec fn uppercase(s: Seq<char>) -> Seq<char>;

/// `str::to_uppercase`. The result is a function of the string alone, named `uppercase`;
/// nothing else is claimed of it.
#[verifier::external_body]
pub(crate) fn to_uppercase(s: &str) -> (r: String)
    ensures
        r@ == uppercase(s@),
{
    s.to_uppercase()
}

/// `a` before `b` in the order of their characters, compared one by one.
pub open spec fn before_text(a: Seq<char>, b: Seq<char>) -> bool
    decreases a.len(),
{
    if b.len() == 0 {
        false
    } else if a.len() == 0 {
        true
    } else if a[0] != b[0] {
        a[0] < b[0]
    } else {
        before_text(a.skip(1), b.skip(1))
    }
}

/// Whether `a` stands before `b` in the order of their characters.
pub fn text_before(a: &str, b: &str) -> (r: bool)
    ensures
        r == before_text(a@, b@),
{
    let v = chars_of(a);
    let w = chars_of(b);
    let mut i: usize = 0;
    assert(v@.skip(0) =~= v@);
    assert(w@.skip(0) =~= w@);
    while i < v.len() && i < w.len()
        invariant
            i <= v.len(),
            i <= w.len(),
            v@ == a@,
            w@ == b@,
            before_text(a@, b@) == before_text(v@.skip(i as int), w@.skip(i as int)),
        decreases v.len() - i,
    {
        if v[i] != w[i] {
            return v[i] < w[i];
        }
        assert(v@.skip(i as int).skip(1) =~= v@.skip(i + 1));
        assert(w@.skip(i as int).skip(1) =~= w@.skip(i + 1));
        i = i + 1;
    }
    i < w.len()
}

/// The order of text is total and strict.
pub proof fn text_order_is_strict_and_total(a: Seq<char>, b: Seq<char>)
    ensures
        !before_text(a, a),
        before_text(a, b) ==> !before_text(b, a),
        a == b || before_text(a, b) || before_text(b, a),
    decreases a.len(),
{
    if a.len() > 0 {
        text_order_is_strict_and_total(a.skip(1), a.skip(1));
    }
    if a.len() > 0 && b.len() > 0 && a[0] == b[0] {
        text_order_is_strict_and_total(a.skip(1), b.skip(1));
        if a.skip(1) == b.skip(1) {
            assert(a =~= seq![a[0]] + a.skip(1));
            assert(b =~= seq![b[0]] + b.skip(1));
        }
    }
    if a.len() == 0 && b.len() == 0 {
        assert(a =~= b);
    }
}

/// The order of text is transitive.
pub proof fn text_order_is_transitive(a: Seq<char>, b: Seq<char>, c: Seq<char>)
    requires
        before_text(a, b),
        before_text(b, c),
    ensures
        before_text(a, c),
    decreases a.len(),
{
    if a.len() > 0 && b.len() > 0 && c.len() > 0 && a[0] == b[0] && b[0] == c[0] {
        text_order_is_transitive(a.skip(1), b.skip(1), c.skip(1));
    }
}

/// Texts of which none precedes the other are the same, and that carries over.
pub proof fn lemma_text_order(a: Seq<char>, b: Seq<char>, c: Seq<char>)
    ensures
        !before_text(a, a),
        before_text(a, b) ==> !before_text(b, a),
        !before_text(b, a) && !before_text(c, b) ==> !before_text(c, a),
{
    text_order_is_strict_and_total(a, b);
    text_order_is_strict_and_total(b, c);
    text_order_is_strict_and_total(a, c);
    if !before_text(b, a) && !before_text(c, b) && before_text(c, a) {
        if a != b && b != c {
            text_order_is_transitive(a, b, c);
        }
    }
}

/// A common beginning does not change the order of what follows it.
pub proof fn lemma_common_beginning(p: Seq<char>, a: Seq<char>, b: Seq<char>)
    ensures
        before_text(p + a, p + b) == before_text(a, b),
    decreases p.len(),
{
    if p.len() == 0 {
        assert(p + a =~= a);
        assert(p + b =~= b);
    } else {
        lemma_common_beginning(p.skip(1), a, b);
        assert((p + a).skip(1) =~= p.skip(1) + a);
        assert((p + b).skip(1) =~= p.skip(1) + b);
    }
}

/// Where texts of one length are in order, what follows them does not change that.
pub proof fn lemma_what_follows(a: Seq<char>, b: Seq<char>, s: Seq<char>, t: Seq<char>)
    requires
        a.len() == b.len(),
        before_text(a, b),
    ensures
        before_text(a + s, b + t),
    decreases a.len(),
{
    assert((a + s)[0] == a[0]);
    assert((b + t)[0] == b[0]);
    if a[0] == b[0] {
        lemma_what_follows(a.skip(1), b.skip(1), s, t);
        assert((a + s).skip(1) =~= a.skip(1) + s);
        assert((b + t).skip(1) =~= b.skip(1) + t);
    }
}

/// A number of at most two digits, in two places.
proof fn lemma_two_places(n: nat)
    requires
        n < 100,
    ensures
        dec_padded(n, 2) == seq![digit((n / 10) as int), digit((n % 10) as int)],
{
    reveal_with_fuel(dec, 3);
    assert(dec_padded(n, 2) =~= seq![digit((n / 10) as int), digit((n % 10) as int)]);
}

/// A number of at most four digits, in four places.
proof fn lemma_four_places(n: nat)
    requires
        n < 10000,
    ensures
        dec_padded(n, 4) == dec_padded(n / 100, 2) + dec_padded(n % 100, 2),
{
    lemma_two_places(n / 100);
    lemma_two_places(n % 100);
    reveal_with_fuel(dec, 5);
    assert(n % 100 / 10 == n / 10 % 10);
    assert(n % 100 % 10 == n % 10);
    assert(dec_padded(n, 4) =~= dec_padded(n / 100, 2) + dec_padded(n % 100, 2));
}

/// Numbers that are written in two places are in the order of their texts.
pub proof fn lemma_order_in_two_places(m: nat, n: nat)
    requires
        m < 100,
        n < 100,
    ensures
        dec_padded(m, 2).len() == 2,
        dec_padded(n, 2).len() == 2,
        before_text(dec_padded(m, 2), dec_padded(n, 2)) == (m < n),
{
    lemma_two_places(m);
    lemma_two_places(n);
    reveal_with_fuel(before_text, 3);
    let a = dec_padded(m, 2);
    let b = dec_padded(n, 2);
    assert(a.skip(1)[0] == a[1]);
    assert(b.skip(1)[0] == b[1]);
    assert(a.skip(1).skip(1).len() == 0 && b.skip(1).skip(1).len() == 0);
}

/// Numbers that are written in four places are in the order of their texts.
pub proof fn lemma_order_in_four_places(m: nat, n: nat)
    requires
        m < 10000,
        n < 10000,
    ensures
        dec_padded(m, 4).len() == 4,
        dec_padded(n, 4).len() == 4,
        before_text(dec_padded(m, 4), dec_padded(n, 4)) == (m < n),
{
    lemma_four_places(m);
    lemma_four_places(n);
    lemma_order_in_two_places(m / 100, n / 100);
    lemma_order_in_two_places(n / 100, m / 100);
    lemma_order_in_two_places(m % 100, n % 100);
    let a = dec_padded(m / 100, 2);
    let b = dec_padded(n / 100, 2);
    let s = dec_padded(m % 100, 2);
    let t = dec_padded(n % 100, 2);
    if m / 100 < n / 100 {
        lemma_what_follows(a, b, s, t);
    } else if m / 100 > n / 100 {
        lemma_what_follows(b, a, t, s);
        text_order_is_strict_and_total(b + t, a + s);
    } else {
        lemma_common_beginning(a, s, t);
    }
}

// ---------------------------------------------------------------------------
// Bytes
// ---------------------------------------------------------------------------

/// How many bytes the encoding of `c` takes.
pub open spec fn width(c: char) -> nat {
    if '\u{80}' > c {
        1
    } else if '\u{800}' > c {
        2
    } else if '\u{10000}' > c {
        3
    } else {
        4
    }
}

/// How many bytes the encoding of `s` takes.
pub open spec fn byte_len(s: Seq<char>) -> nat
    decreases s.len(),
{
    if s.len() == 0 {
        0
    } else {
        byte_len(s.drop_last()) + width(s.last())
    }
}

proof fn lemma_encode_push(s: Seq<char>, c: char)
    ensures
        encode_utf8(s.push(c)) == encode_utf8(s) + encode_scalar(c as u32),
    decreases s.len(),
{
    let t = s.push(c);
    if s.len() == 0 {
        assert(t.drop_first() =~= Seq::<char>::empty());
        assert(s =~= Seq::<char>::empty());
        assert(encode_utf8(s) =~= Seq::<u8>::empty());
        assert(t[0] == c);
        assert(encode_utf8(t) =~= encode_utf8(s) + encode_scalar(c as u32));
    } else {
        assert(t.drop_first() =~= s.drop_first().push(c));
        lemma_encode_push(s.drop_first(), c);
        assert(encode_utf8(t) =~= encode_utf8(s) + encode_scalar(c as u32));
    }
}

proof fn lemma_width(c: char)
    ensures
        encode_scalar(c as u32).len() == width(c),
{
    char_is_scalar(c);
    let v = c as u32;
    assert(v as int == c as int);
}

/// `byte_len` is the length of the encoding.
pub proof fn lemma_byte_len(s: Seq<char>)
    ensures
        byte_len(s) == encode_utf8(s).len(),
    decreases s.len(),
{
    if s.len() > 0 {
        lemma_byte_len(s.drop_last());
        lemma_encode_push(s.drop_last(), s.last());
        lemma_width(s.last());
        assert(s.drop_last().push(s.last()) =~= s);
    }
}

/// The bytes of a text are those of its parts.
pub proof fn lemma_byte_len_concat(a: Seq<char>, b: Seq<char>)
    ensures
        byte_len(a + b) == byte_len(a) + byte_len(b),
    decreases b.len(),
{
    if b.len() == 0 {
        assert(a + b =~= a);
    } else {
        assert((a + b).drop_last() =~= a + b.drop_last());
        lemma_byte_len_concat(a, b.drop_last());
    }
}

/// How many bytes the encoding of `s` takes.
pub fn bytes_in(s: &str) -> (n: usize)
    ensures
        n == byte_len(s@),
{
    proof {
        lemma_byte_len(s@);
    }
    s.as_bytes().len()
}

/// How many bytes the encoding of `c` takes.
pub fn width_of(c: char) -> (n: usize)
    ensures
        n == width(c),
{
    if '\u{80}' > c {
        1
    } else if '\u{800}' > c {
        2
    } else if '\u{10000}' > c {
        3
    } else {
        4
    }
}

/// How many characters the first `n` bytes of `s` are, counted from the `i`-th character
/// on, or `None` where no character ends there.
pub open spec fn chars_in_bytes(s: Seq<char>, n: int, i: int) -> Option<int>
    decreases s.len() - i,
{
    if n == 0 {
        Some(i)
    } else if n < 0 || i >= s.len() || i < 0 {
        None
    } else {
        chars_in_bytes(s, n - width(s[i]), i + 1)
    }
}

/// Whether `s` can be cut after its first `n` bytes.
pub open spec fn cuts_at(s: Seq<char>, n: nat) -> bool {
    chars_in_bytes(s, n as int, 0) is Some
}

/// The first `n` bytes of `s`.
pub open spec fn first_bytes(s: Seq<char>, n: nat) -> Seq<char> {
    s.take(chars_in_bytes(s, n as int, 0)->0)
}

proof fn lemma_chars_in_bytes(s: Seq<char>, n: int, i: int)
    requires
        0 <= i <= s.len(),
        chars_in_bytes(s, n, i) is Some,
    ensures
        i <= chars_in_bytes(s, n, i)->0 <= s.len(),
        byte_len(s.take(chars_in_bytes(s, n, i)->0)) == byte_len(s.take(i)) + n,
    decreases s.len() - i,
{
    if n != 0 {
        assert(s.take(i + 1).drop_last() =~= s.take(i));
        lemma_chars_in_bytes(s, n - width(s[i]), i + 1);
    }
}

/// What stands in the first `n` bytes has that many bytes and begins `s`.
pub proof fn first_bytes_is_a_prefix(s: Seq<char>, n: nat)
    requires
        cuts_at(s, n),
    ensures
        byte_len(first_bytes(s, n)) == n,
        begins(s, first_bytes(s, n)),
{
    lemma_chars_in_bytes(s, n as int, 0);
    assert(s.take(0) =~= Seq::empty());
    let p = first_bytes(s, n);
    assert(s.subrange(0, p.len() as int) =~= p);
}

/// Whether `s` can be cut after its first `n` bytes.
pub fn can_cut(s: &str, n: usize) -> (r: bool)
    ensures
        r == cuts_at(s@, n as nat),
{
    let v = chars_of(s);
    let mut left: usize = n;
    let mut i: usize = 0;
    while left > 0
        invariant
            i <= v.len(),
            v@ == s@,
            chars_in_bytes(s@, left as int, i as int) == chars_in_bytes(s@, n as int, 0),
        decreases left,
    {
        if i >= v.len() {
            return false;
        }
        let w: usize = width_of(v[i]);
        if left < w {
            assert(chars_in_bytes(s@, left - w, i + 1) is None);
            return false;
        }
        left = left - w;
        i = i + 1;
    }
    true
}

/// The first `n` bytes of `s`.
pub fn take_bytes(s: &str, n: usize) -> (r: String)
    requires
        cuts_at(s@, n as nat),
    ensures
        r@ == first_bytes(s@, n as nat),
{
    let v = chars_of(s);
    let mut left: usize = n;
    let mut i: usize = 0;
    while left > 0
        invariant
            i <= v.len(),
            v@ == s@,
            cuts_at(s@, n as nat),
            chars_in_bytes(s@, left as int, i as int) == chars_in_bytes(s@, n as int, 0),
        decreases left,
    {
        proof {
            if i < v.len() && left < width(v@[i as int]) {
                assert(chars_in_bytes(s@, left - width(v@[i as int]), i + 1) is None);
            }
        }
        left = left - width_of(v[i]);
        i = i + 1;
    }
    let r = string_from(&v, 0, i);
    assert(r@ =~= s@.take(i as int));
    r
}

/// Taking a character off the end of a text takes all of them that stand there, and nothing
/// else.
pub proof fn lemma_trim_end_char(s: Seq<char>, c: char, n: nat)
    requires
        s.len() == 0 || s.last() != c,
    ensures
        trim_end_char(s + Seq::new(n, |i: int| c), c) == s,
    decreases n,
{
    let t = s + Seq::new(n, |i: int| c);
    if n == 0 {
        assert(t =~= s);
    } else {
        lemma_trim_end_char(s, c, (n - 1) as nat);
        assert(t.drop_last() =~= s + Seq::new((n - 1) as nat, |i: int| c));
    }
}

/// Taking characters off the end does not make a text longer.
pub proof fn lemma_trim_end_char_shorter(s: Seq<char>, c: char)
    ensures
        encode_utf8(trim_end_char(s, c)).len() <= encode_utf8(s).len(),
    decreases s.len(),
{
    if s.len() > 0 && s.last() == c {
        lemma_trim_end_char_shorter(s.drop_last(), c);
        lemma_encode_push(s.drop_last(), s.last());
        assert(s.drop_last().push(s.last()) =~= s);
    }
}

/// Taking white space off the end makes no text longer.
pub proof fn lemma_trim_end_shorter(s: Seq<char>)
    ensures
        byte_len(trim_end(s)) <= byte_len(s),
    decreases s.len(),
{
    if s.len() > 0 && is_white(s.last()) {
        lemma_trim_end_shorter(s.drop_last());
    }
}

/// Numbers are read back from their decimal form, which begins with a zero only where it is
/// that zero alone.
pub proof fn digits_are_read_back(n: nat)
    ensures
        digits_value(dec(n)) == Some(n),
        dec(n).len() > 0,
        dec(n).len() > 1 ==> dec(n)[0] != '0',
    decreases n,
{
    if n < 10 {
        assert(dec(n).drop_last() =~= Seq::empty());
        assert(digits_value(Seq::<char>::empty()) == Some(0nat));
        assert(dec(n).last() == digit(n as int));
    } else {
        digits_are_read_back(n / 10);
        assert(dec(n).drop_last() =~= dec(n / 10));
        assert(dec(n).last() == digit((n % 10) as int));
        if dec(n / 10).len() == 1 {
            if n / 10 >= 10 {
                digits_are_read_back(n / 10 / 10);
            }
            assert(dec(n)[0] == digit((n / 10) as int));
        } else {
            assert(dec(n)[0] == dec(n / 10)[0]);
        }
    }
}

proof fn lemma_zeros_in_front(k: nat, s: Seq<char>)
    ensures
        digits_value(Seq::new(k, |i: int| '0') + s) == digits_value(s),
    decreases k + s.len(),
{
    let zeros = Seq::new(k, |i: int| '0');
    if s.len() > 0 {
        lemma_zeros_in_front(k, s.drop_last());
        assert((zeros + s).drop_last() =~= zeros + s.drop_last());
        assert((zeros + s).last() == s.last());
    } else if k > 0 {
        lemma_zeros_in_front((k - 1) as nat, s);
        assert((zeros + s).drop_last() =~= Seq::new((k - 1) as nat, |i: int| '0') + s);
    } else {
        assert(zeros + s =~= s);
    }
}

/// A number that is filled up with zeros is read back as well, and is as wide as was asked
/// for, or as wide as its digits.
pub proof fn padded_digits_are_read_back(n: nat, width: nat)
    ensures
        digits_value(dec_padded(n, width)) == Some(n),
        dec_padded(n, width).len() == if dec(n).len() > width {
            dec(n).len()
        } else {
            width
        },
{
    digits_are_read_back(n);
    if dec(n).len() < width {
        lemma_zeros_in_front((width - dec(n).len()) as nat, dec(n));
    }
}

proof fn lemma_dec_is_digits(n: nat)
    ensures
        forall|i: int| 0 <= i < dec(n).len() ==> '0' <= #[trigger] dec(n)[i] <= '9',
    decreases n,
{
    if n >= 10 {
        lemma_dec_is_digits(n / 10);
        assert forall|i: int| 0 <= i < dec(n).len() implies '0' <= #[trigger] dec(n)[i] <= '9' by {
            if i < dec(n / 10).len() {
                assert(dec(n)[i] == dec(n / 10)[i]);
            }
        }
    }
}

/// Every integer of the machine is read from its decimal form, with a sign or, where it is
/// not negative, without; one that is out of range is not read.
pub proof fn integers_are_read(n: nat)
    ensures
        int_value(dec(n)) == (if n <= i64::MAX {
            Some(n as int)
        } else {
            None
        }),
        int_value(seq!['+'] + dec(n)) == int_value(dec(n)),
        int_value(seq!['-'] + dec(n)) == (if n <= i64::MAX as int + 1 {
            Some(-(n as int))
        } else {
            None
        }),
{
    digits_are_read_back(n);
    lemma_dec_is_digits(n);
    assert('0' <= dec(n)[0] <= '9');
    assert((seq!['+'] + dec(n)).skip(1) =~= dec(n));
    assert((seq!['-'] + dec(n)).skip(1) =~= dec(n));
}

proof fn lemma_trim_start(s: Seq<char>)
    ensures
        ({
            let r = trim_start(s);
            let k = s.len() - r.len();
            &&& 0 <= k
            &&& r == s.skip(k)
            &&& forall|i: int| 0 <= i < k ==> is_white(#[trigger] s[i])
            &&& r.len() > 0 ==> !is_white(r[0])
        }),
    decreases s.len(),
{
    if s.len() > 0 && is_white(s[0]) {
        let t = s.skip(1);
        lemma_trim_start(t);
        let k = s.len() - trim_start(s).len();
        assert(t.skip(k - 1) =~= s.skip(k));
        assert forall|i: int| 0 <= i < k implies is_white(#[trigger] s[i]) by {
            if i > 0 {
                assert(s[i] == t[i - 1]);
            }
        }
    } else {
        assert(s.skip(0) =~= s);
    }
}

proof fn lemma_trim_end(s: Seq<char>)
    ensures
        ({
            let r = trim_end(s);
            &&& r.len() <= s.len()
            &&& r == s.take(r.len() as int)
            &&& forall|i: int| r.len() <= i < s.len() ==> is_white(#[trigger] s[i])
            &&& r.len() > 0 ==> !is_white(r.last())
        }),
    decreases s.len(),
{
    if s.len() > 0 && is_white(s.last()) {
        let t = s.drop_last();
        lemma_trim_end(t);
        let n = trim_end(s).len() as int;
        assert(t.take(n) =~= s.take(n));
        assert forall|i: int| n <= i < s.len() implies is_white(#[trigger] s[i]) by {
            if i < t.len() {
                assert(s[i] == t[i]);
            }
        }
    } else {
        assert(s.take(s.len() as int) =~= s);
    }
}

/// Trimming takes white space from both ends, all of it, and nothing else: what is left stands
/// between white space, and neither begins nor ends with any.
pub proof fn trimming_takes_white_space_only(s: Seq<char>)
    ensures
        exists|i: int, j: int|
            0 <= i <= j <= s.len() && trim(s) == #[trigger] s.subrange(i, j) && (forall|k: int|
                0 <= k < i || j <= k < s.len() ==> is_white(#[trigger] s[k])),
        trim(s).len() > 0 ==> !is_white(trim(s)[0]) && !is_white(trim(s).last()),
{
    let a = trim_start(s);
    let r = trim(s);
    lemma_trim_start(s);
    lemma_trim_end(a);
    let i = s.len() - a.len();
    let j = i + r.len();
    assert(r =~= s.subrange(i, j));
    assert forall|k: int| 0 <= k < i || j <= k < s.len() implies is_white(#[trigger] s[k]) by {
        if k >= j {
            assert(s[k] == a[k - i]);
        }
    }
    if r.len() > 0 {
        assert(r[0] == a[0]);
    }
}

/// What is printed with ink is no white space: no letter, digit or mark of ASCII counts, and the
/// blank, the tabulator, the newline and the carriage return do.
pub proof fn ink_is_not_white(c: char)
    ensures
        '!' <= c <= '~' ==> !is_white(c),
        c == ' ' || c == '\t' || c == '\n' || c == '\r' ==> is_white(c),
{
}

proof fn lemma_find_from(s: Seq<char>, p: Seq<char>, i: int)
    requires
        0 <= i,
    ensures
        match find_from(s, p, i) {
            Some(at) => i <= at && found_at(s, p, at) && forall|k: int|
                i <= k < at ==> !#[trigger] found_at(s, p, k),
            None => forall|k: int| i <= k ==> !#[trigger] found_at(s, p, k),
        },
    decreases s.len() + 1 - i,
{
    if i + p.len() <= s.len() && !found_at(s, p, i) {
        lemma_find_from(s, p, i + 1);
    }
}

/// A text is cut at the first place where the mark stands: the two parts with the mark between
/// them are the text, the mark stands nowhere before that place, and a text that cannot be cut
/// is nowhere made of something, the mark and something else.
pub proof fn cutting_parts_at_the_first_mark(s: Seq<char>, p: Seq<char>)
    ensures
        match cut(s, p) {
            Some((a, b)) => s == a + p + b && forall|c: Seq<char>, d: Seq<char>|
                s == #[trigger] (c + p + d) ==> c.len() >= a.len(),
            None => forall|c: Seq<char>, d: Seq<char>| s != #[trigger] (c + p + d),
        },
        has(s, p) <==> exists|c: Seq<char>, d: Seq<char>| s == #[trigger] (c + p + d),
{
    lemma_find_from(s, p, 0);
    assert forall|c: Seq<char>, d: Seq<char>| s == #[trigger] (c + p + d) implies found_at(
        s,
        p,
        c.len() as int,
    ) by {
        assert(s.subrange(c.len() as int, c.len() as int + p.len()) =~= p);
    }
    if let Some((a, b)) = cut(s, p) {
        let i = find(s, p)->0;
        assert(s =~= a + p + b);
    }
}

/// A text begins with another exactly where it is that and something more, and ends with it
/// exactly where it is something and that; taking the beginning or the end off leaves the rest.
pub proof fn beginnings_and_ends_are_taken_off(p: Seq<char>, s: Seq<char>)
    ensures
        after_prefix(p + s, p) == Some(s),
        before_suffix(s + p, p) == Some(s),
        after_prefix(s, p) is Some <==> exists|t: Seq<char>| s == #[trigger] (p + t),
        before_suffix(s, p) is Some <==> exists|t: Seq<char>| s == #[trigger] (t + p),
{
    assert((p + s).subrange(0, p.len() as int) =~= p);
    assert((p + s).skip(p.len() as int) =~= s);
    assert((s + p).subrange(s.len() as int, (s + p).len() as int) =~= p);
    assert((s + p).take(s.len() as int) =~= s);
    if begins(s, p) {
        assert(s =~= p + s.skip(p.len() as int));
    }
    if ends(s, p) {
        assert(s =~= s.take(s.len() - p.len()) + p);
    }
    assert forall|t: Seq<char>| s == #[trigger] (p + t) implies begins(s, p) by {
        assert(s.subrange(0, p.len() as int) =~= p);
    }
    assert forall|t: Seq<char>| s == #[trigger] (t + p) implies ends(s, p) by {
        assert(s.subrange(t.len() as int, s.len() as int) =~= p);
    }
}

proof fn lemma_join_first(parts: Seq<Seq<char>>, sep: Seq<char>)
    requires
        parts.len() > 1,
    ensures
        join(parts, sep) == parts[0] + sep + join(parts.skip(1), sep),
    decreases parts.len(),
{
    let rest = parts.skip(1);
    if parts.len() == 2 {
        assert(parts.drop_last()[0] == parts[0]);
        assert(join(parts.drop_last(), sep) == parts[0]);
        assert(rest.len() == 1 && rest[0] == parts.last());
    } else {
        lemma_join_first(parts.drop_last(), sep);
        assert(parts.drop_last().skip(1) =~= rest.drop_last());
        assert(parts.drop_last()[0] == parts[0]);
        assert(rest.last() == parts.last());
        assert(join(rest, sep) == join(rest.drop_last(), sep) + sep + rest.last());
        assert(parts[0] + sep + join(rest.drop_last(), sep) + sep + rest.last() =~= parts[0] + sep
            + (join(rest.drop_last(), sep) + sep + rest.last()));
    }
}

/// What was joined is parted again: parts without the separator in them, joined by it, are the
/// pieces of the whole.
pub proof fn joined_parts_are_the_pieces(parts: Seq<Seq<char>>, c: char)
    requires
        parts.len() > 0,
        forall|i: int| 0 <= i < parts.len() ==> !(#[trigger] parts[i]).contains(c),
    ensures
        pieces(join(parts, seq![c]), c) == parts,
    decreases parts.len(),
{
    if parts.len() == 1 {
        lemma_one_piece(parts[0], c);
        assert(seq![parts[0]] =~= parts);
    } else {
        let front = parts.drop_last();
        assert forall|i: int| 0 <= i < front.len() implies !(#[trigger] front[i]).contains(c) by {
            assert(front[i] == parts[i]);
        }
        joined_parts_are_the_pieces(front, c);
        lemma_pieces_concat(join(front, seq![c]), c, parts.last());
        lemma_one_piece(parts.last(), c);
        assert(front + seq![parts.last()] =~= parts);
    }
}

proof fn lemma_pieces_from_are_whole(s: Seq<char>, c: char, i: int)
    requires
        0 <= i <= s.len(),
    ensures
        pieces_from(s, c, i).len() > 0,
        join(pieces_from(s, c, i), seq![c]) == s.skip(i),
        forall|k: int|
            0 <= k < pieces_from(s, c, i).len() ==> !(#[trigger] pieces_from(s, c, i)[k]).contains(
                c,
            ),
    decreases s.len() - i,
{
    let e = index_from(s, c, i);
    let all = pieces_from(s, c, i);
    lemma_index_from(s, c, i);
    if e >= s.len() {
        assert(s.subrange(i, s.len() as int) =~= s.skip(i));
    } else {
        lemma_pieces_from_are_whole(s, c, e + 1);
        lemma_join_first(all, seq![c]);
        assert(all.skip(1) =~= pieces_from(s, c, e + 1));
        assert(s.skip(i) =~= s.subrange(i, e) + seq![c] + s.skip(e + 1));
    }
    assert forall|k: int| 0 <= k < all.len() implies !(#[trigger] all[k]).contains(c) by {
        if k > 0 {
            assert(all[k] == pieces_from(s, c, e + 1)[k - 1]);
        }
    }
}

/// What was parted is joined again: the pieces of a text hold no separator, and with the
/// separator between them they are the text.
pub proof fn pieces_join_to_the_whole(s: Seq<char>, c: char)
    ensures
        join(pieces(s, c), seq![c]) == s,
        forall|k: int| 0 <= k < pieces(s, c).len() ==> !(#[trigger] pieces(s, c)[k]).contains(c),
{
    lemma_pieces_from_are_whole(s, c, 0);
    assert(s.skip(0) =~= s);
}

proof fn lemma_lines_shift(a: Seq<char>, b: Seq<char>, j: int)
    requires
        0 <= j <= b.len(),
    ensures
        lines_from(a + b, a.len() + j) == lines_from(b, j),
    decreases b.len() - j,
{
    let s = a + b;
    let e = index_from(b, '\n', j);
    lemma_index_from(b, '\n', j);
    lemma_index_shift(a, '\n', b, j);
    assert(s.subrange(a.len() + j, a.len() + e) =~= b.subrange(j, e));
    if j < b.len() && e < b.len() {
        lemma_lines_shift(a, b, e + 1);
    }
}

/// The lines of a text are what its newlines end: a line, its newline and more have that line
/// first and then the lines of the rest, and a carriage return before the newline belongs to
/// the newline. What no newline ends is a line where it is not empty.
pub proof fn lines_end_with_newlines(line: Seq<char>, rest: Seq<char>)
    requires
        !line.contains('\n'),
    ensures
        line.len() == 0 || line.last() != '\r' ==> lines(line + seq!['\n'] + rest) == seq![line]
            + lines(rest),
        lines(line + seq!['\r', '\n'] + rest) == seq![line] + lines(rest),
        lines(line) == (if line.len() == 0 {
            Seq::empty()
        } else {
            seq![line]
        }),
{
    lemma_first_line(line, rest);
    let with_return = line.push('\r');
    assert forall|i: int| 0 <= i < with_return.len() implies with_return[i] != '\n' by {
        if i < line.len() {
            assert(line.contains(line[i]));
        }
    }
    lemma_first_line(with_return, rest);
    assert(with_return + seq!['\n'] + rest =~= line + seq!['\r', '\n'] + rest);
    assert(with_return.drop_last() =~= line);
    lemma_index_from(line, '\n', 0);
    let e = index_from(line, '\n', 0);
    if e < line.len() {
        assert(line.contains(line[e]));
    }
    assert(line.subrange(0, line.len() as int) =~= line);
}

proof fn lemma_first_line(line: Seq<char>, rest: Seq<char>)
    requires
        !line.contains('\n'),
    ensures
        lines(line + seq!['\n'] + rest) == seq![without_cr(line)] + lines(rest),
{
    let s = line + seq!['\n'] + rest;
    lemma_index_before(line, '\n', rest, 0);
    lemma_index_from(line, '\n', 0);
    let e = index_from(line, '\n', 0);
    if e < line.len() {
        assert(line.contains(line[e]));
    }
    assert(s.subrange(0, e) =~= line);
    lemma_lines_shift(line + seq!['\n'], rest, 0);
}

/// ASCII letters are the same in both cases, other characters only as themselves: a character
/// is made small exactly where it is a capital, and stays within the letters.
pub proof fn capitals_are_made_small(c: char)
    ensures
        'A' <= c <= 'Z' ==> 'a' <= ascii_lower(c) <= 'z' && ascii_lower(c) as int - 'a' as int == c
            as int - 'A' as int,
        !('A' <= c <= 'Z') ==> ascii_lower(c) == c,
{
}

/// The lines of a text that goes on after a newline are its first line and the lines of what
/// follows.
pub proof fn lemma_lines_after(first: Seq<char>, rest: Seq<char>)
    requires
        !first.contains('\n'),
    ensures
        lines(first + seq!['\n'] + rest) == seq![without_cr(first)] + lines(rest),
{
    lemma_first_line(first, rest);
}

proof fn lemma_white_end(s: Seq<char>, c: char)
    requires
        is_white(c),
    ensures
        trim(s.push(c)) == trim(s),
    decreases s.len(),
{
    let t = s.push(c);
    if s.len() > 0 && is_white(s[0]) {
        assert(t.skip(1) =~= s.skip(1).push(c));
        lemma_white_end(s.skip(1), c);
        assert(trim_start(t) == trim_start(s.skip(1).push(c)));
    } else if s.len() > 0 {
        assert(t[0] == s[0]);
        assert(t.drop_last() =~= s);
    } else {
        assert(t.skip(1) =~= Seq::empty());
        assert(s =~= Seq::empty());
        assert(trim_start(t) == trim_start(Seq::empty()));
    }
}

proof fn lemma_lines_from_rejoined(s: Seq<char>, i: int)
    requires
        0 <= i <= s.len(),
        !s.contains('\r'),
    ensures
        s.skip(i) == join(lines_from(s, i), seq!['\n']) || s.skip(i) == join(
            lines_from(s, i),
            seq!['\n'],
        ).push('\n'),
    decreases s.len() - i,
{
    let e = index_from(s, '\n', i);
    let all = lines_from(s, i);
    lemma_index_from(s, '\n', i);
    if i == s.len() {
        assert(s.skip(i) =~= Seq::empty());
    } else if e >= s.len() {
        assert(s.subrange(i, s.len() as int) =~= s.skip(i));
    } else {
        let line = s.subrange(i, e);
        let rest = lines_from(s, e + 1);
        if line.len() > 0 {
            assert(line.last() == s[e - 1]);
            assert(s.contains(s[e - 1]));
        }
        lemma_lines_from_rejoined(s, e + 1);
        assert(s.skip(i) =~= line + seq!['\n'] + s.skip(e + 1));
        if rest.len() == 0 {
            assert(rest =~= Seq::empty());
            assert(all =~= seq![line]);
            if e + 1 < s.len() {
                assert(lines_from(s, e + 1).len() > 0) by {
                    lemma_index_from(s, '\n', e + 1);
                }
            }
            assert(s.skip(i) =~= line.push('\n'));
        } else {
            lemma_join_first(all, seq!['\n']);
            assert(all.skip(1) =~= rest);
            let j = join(rest, seq!['\n']);
            if s.skip(e + 1) == j.push('\n') {
                assert(s.skip(i) =~= (line + seq!['\n'] + j).push('\n'));
            }
        }
    }
}

/// The lines of a text without carriage returns, put together again, are the text but for the
/// white space around it.
pub proof fn lemma_lines_rejoined(s: Seq<char>)
    requires
        !s.contains('\r'),
    ensures
        trim(join(lines(s), "\n"@)) == trim(s),
{
    reveal_strlit("\n");
    assert("\n"@ =~= seq!['\n']);
    lemma_lines_from_rejoined(s, 0);
    assert(s.skip(0) =~= s);
    lemma_white_end(join(lines(s), seq!['\n']), '\n');
}

/// A text that neither begins nor ends with white space is left as it is by trimming.
pub proof fn lemma_nothing_to_trim(s: Seq<char>)
    requires
        s.len() > 0,
        !is_white(s[0]),
        !is_white(s.last()),
    ensures
        trim(s) == s,
{
}

/// White space in front makes no difference to a trimmed text.
pub proof fn lemma_white_begin(s: Seq<char>, c: char)
    requires
        is_white(c),
    ensures
        trim(seq![c] + s) == trim(s),
{
    assert((seq![c] + s).skip(1) =~= s);
}

/// A text is cut at the only mark of its kind before the rest.
pub proof fn lemma_cut_at_mark(a: Seq<char>, c: char, p: Seq<char>, b: Seq<char>)
    requires
        p == seq![c],
        !a.contains(c),
    ensures
        cut(a + p + b, p) == Some((a, b)),
{
    let s = a + p + b;
    cutting_parts_at_the_first_mark(s, p);
    assert(s == a + p + b);
    let (x, y) = cut(s, p)->0;
    assert(x.len() <= a.len());
    if x.len() < a.len() {
        assert((x + p + y)[x.len() as int] == c);
        assert(a[x.len() as int] == c);
        assert(a.contains(c));
    }
    assert(x =~= a) by {
        assert forall|i: int| 0 <= i < x.len() implies x[i] == a[i] by {
            assert((x + p + y)[i] == (a + p + b)[i]);
        }
    }
    assert(y =~= b) by {
        assert(y.len() == b.len());
        assert forall|i: int| 0 <= i < y.len() implies y[i] == b[i] by {
            assert((x + p + y)[x.len() + p.len() + i] == (a + p + b)[a.len() + p.len() + i]);
        }
    }
}

/// What is left of a text whose end was trimmed is its beginning.
pub proof fn lemma_trim_end_is_prefix(s: Seq<char>)
    ensures
        trim_end(s).is_prefix_of(s),
{
    lemma_trim_end(s);
}

/// White space is what Unicode says it is, by the numbers of its characters.
pub proof fn white_space_is_that_of_unicode(c: char)
    ensures
        is_white(c) <==> {
            let n = c as u32;
            ||| n == 0x20 || n == 0x85 || n == 0xa0 || n == 0x1680 || n == 0x3000
            ||| 9 <= n && n <= 13
            ||| 0x2000 <= n && n <= 0x200a
            ||| n == 0x2028 || n == 0x2029 || n == 0x202f || n == 0x205f
        },
{
}

} // verus!
