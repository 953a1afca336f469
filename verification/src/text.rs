//! Character-sequence model of text and the verified primitives that the rest
//! of the library builds on.

use vstd::prelude::*;

verus! {

/// Unicode `White_Space` property, as `char::is_whitespace` documents it.
pub open spec fn is_ws(c: char) -> bool {
    let u = c as u32;
    (0x09 <= u <= 0x0D) || u == 0x20 || u == 0x85 || u == 0xA0 || u == 0x1680
        || (0x2000 <= u <= 0x200A) || u == 0x2028 || u == 0x2029 || u == 0x202F
        || u == 0x205F || u == 0x3000
}

/// Executable `White_Space` test.
pub fn char_is_ws(c: char) -> (b: bool)
    ensures
        b == is_ws(c),
{
    let u = c as u32;
    (0x09 <= u && u <= 0x0D) || u == 0x20 || u == 0x85 || u == 0xA0 || u == 0x1680 || (0x2000
        <= u && u <= 0x200A) || u == 0x2028 || u == 0x2029 || u == 0x202F || u == 0x205F || u
        == 0x3000
}

/// Appends one character to a `String` (`String::push`).
#[verifier::external_body]
pub(crate) fn push_char(s: &mut String, c: char)
    ensures
        final(s)@ == old(s)@.push(c),
{
    s.push(c);
}

/// The characters of a string slice, in order.
pub fn chars_of(s: &str) -> (v: Vec<char>)
    ensures
        v@ == s@,
{
    let mut v: Vec<char> = Vec::new();
    for c in it: s.chars()
        invariant
            v@ == it.seq().take(it.index() as int),
    {
        v.push(c);
    }
    v
}

} // verus!

verus! {

/// `p` occurs in `s` at position `i`.
pub open spec fn match_at(s: Seq<char>, p: Seq<char>, i: int) -> bool {
    0 <= i && i + p.len() <= s.len() && s.subrange(i, i + p.len()) == p
}

/// Leftmost occurrence of `p` in `s` at or after `i` (`str::find` on a suffix).
pub open spec fn find_from(s: Seq<char>, p: Seq<char>, i: int) -> Option<int>
    decreases s.len() + 1 - i,
{
    if i < 0 || i + p.len() > s.len() {
        None
    } else if match_at(s, p, i) {
        Some(i)
    } else {
        find_from(s, p, i + 1)
    }
}

/// Leftmost occurrence of `p` in `s` (`str::find`).
pub open spec fn find(s: Seq<char>, p: Seq<char>) -> Option<int> {
    find_from(s, p, 0)
}

pub open spec fn starts_with(s: Seq<char>, p: Seq<char>) -> bool {
    p.len() <= s.len() && s.subrange(0, p.len() as int) == p
}

pub open spec fn ends_with(s: Seq<char>, p: Seq<char>) -> bool {
    p.len() <= s.len() && s.subrange(s.len() - p.len(), s.len() as int) == p
}

/// `s` with leading white space removed (`str::trim_start`).
pub open spec fn trim_start(s: Seq<char>) -> Seq<char>
    decreases s.len(),
{
    if s.len() > 0 && is_ws(s[0]) {
        trim_start(s.drop_first())
    } else {
        s
    }
}

/// `s` with trailing white space removed (`str::trim_end`).
pub open spec fn trim_end(s: Seq<char>) -> Seq<char>
    decreases s.len(),
{
    if s.len() > 0 && is_ws(s.last()) {
        trim_end(s.drop_last())
    } else {
        s
    }
}

/// `s` with white space removed at both ends (`str::trim`).
pub open spec fn trim(s: Seq<char>) -> Seq<char> {
    trim_end(trim_start(s))
}

/// Does `p` occur at position `i` of `s`?
pub fn matches_at(s: &[char], p: &[char], i: usize) -> (b: bool)
    ensures
        b == match_at(s@, p@, i as int),
{
    if i > s.len() || p.len() > s.len() - i {
        return false;
    }
    let mut k: usize = 0;
    while k < p.len()
        invariant
            i + p.len() <= s.len(),
            k <= p.len(),
            forall|j: int| 0 <= j < k ==> s@[i + j] == p@[j],
        decreases p.len() - k,
    {
        if s[i + k] != p[k] {
            assert(s@.subrange(i as int, i + p.len())[k as int] != p@[k as int]);
            return false;
        }
        k = k + 1;
    }
    assert(s@.subrange(i as int, i + p.len()) =~= p@);
    true
}

/// Leftmost occurrence of `p` in `s` at or after `from`.
pub fn find_chars(s: &[char], p: &[char], from: usize) -> (r: Option<usize>)
    ensures
        r matches Some(i) ==> find_from(s@, p@, from as int) == Some(i as int),
        r is None ==> find_from(s@, p@, from as int) is None,
        r matches Some(i) ==> from <= i && i + p.len() <= s.len(),
{
    if p.len() > s.len() || from > s.len() - p.len() {
        return None;
    }
    let last = s.len() - p.len();
    let mut i = from;
    while i <= last
        invariant
            from <= i,
            last + p.len() == s.len(),
            find_from(s@, p@, from as int) == find_from(s@, p@, i as int),
        decreases last + 1 - i,
    {
        if matches_at(s, p, i) {
            return Some(i);
        }
        if i == last {
            assert(find_from(s@, p@, i + 1) is None);
            return None;
        }
        i = i + 1;
    }
    None
}

/// `s` starts with `p`.
pub fn has_prefix(s: &[char], p: &[char]) -> (b: bool)
    ensures
        b == starts_with(s@, p@),
{
    matches_at(s, p, 0)
}

/// `s` ends with `p`.
pub fn has_suffix(s: &[char], p: &[char]) -> (b: bool)
    ensures
        b == ends_with(s@, p@),
{
    if p.len() > s.len() {
        false
    } else {
        matches_at(s, p, s.len() - p.len())
    }
}

/// The characters `s[a..b]` as a new vector.
pub fn slice_chars(s: &[char], a: usize, b: usize) -> (v: Vec<char>)
    requires
        a <= b <= s.len(),
    ensures
        v@ == s@.subrange(a as int, b as int),
{
    let mut v: Vec<char> = Vec::new();
    let mut i = a;
    while i < b
        invariant
            a <= i <= b <= s.len(),
            v@ == s@.subrange(a as int, i as int),
        decreases b - i,
    {
        v.push(s[i]);
        i = i + 1;
        assert(v@ =~= s@.subrange(a as int, i as int));
    }
    v
}

/// A `String` holding exactly the characters `s`.
pub fn string_of(s: &[char]) -> (r: String)
    ensures
        r@ == s@,
{
    let mut r = String::new();
    let mut i: usize = 0;
    while i < s.len()
        invariant
            i <= s.len(),
            r@ == s@.subrange(0, i as int),
        decreases s.len() - i,
    {
        push_char(&mut r, s[i]);
        i = i + 1;
        assert(r@ =~= s@.subrange(0, i as int));
    }
    assert(r@ =~= s@);
    r
}

/// Appends the characters `t` to `v`.
pub fn extend_chars(v: &mut Vec<char>, t: &[char])
    ensures
        final(v)@ == old(v)@ + t@,
{
    let mut i: usize = 0;
    while i < t.len()
        invariant
            i <= t.len(),
            v@ == old(v)@ + t@.subrange(0, i as int),
        decreases t.len() - i,
    {
        v.push(t[i]);
        i = i + 1;
        assert(v@ =~= old(v)@ + t@.subrange(0, i as int));
    }
    assert(t@.subrange(0, t.len() as int) =~= t@);
}

proof fn lemma_trim_start_step(s: Seq<char>, i: int)
    requires
        0 <= i < s.len(),
        is_ws(s[i]),
    ensures
        trim_start(s.subrange(i, s.len() as int)) == trim_start(s.subrange(i + 1, s.len() as int)),
{
    assert(s.subrange(i, s.len() as int).drop_first() =~= s.subrange(i + 1, s.len() as int));
}

proof fn lemma_trim_end_step(s: Seq<char>, j: int)
    requires
        0 < j <= s.len(),
        is_ws(s[j - 1]),
    ensures
        trim_end(s.subrange(0, j)) == trim_end(s.subrange(0, j - 1)),
{
    assert(s.subrange(0, j).drop_last() =~= s.subrange(0, j - 1));
}

/// Bounds `(a, b)` of `s` without leading white space.
pub fn trim_start_index(s: &[char]) -> (a: usize)
    ensures
        a <= s.len(),
        s@.subrange(a as int, s.len() as int) == trim_start(s@),
{
    let mut i: usize = 0;
    assert(s@.subrange(0, s.len() as int) =~= s@);
    while i < s.len() && char_is_ws(s[i])
        invariant
            i <= s.len(),
            trim_start(s@.subrange(i as int, s.len() as int)) == trim_start(s@),
        decreases s.len() - i,
    {
        proof {
            lemma_trim_start_step(s@, i as int);
        }
        i = i + 1;
    }
    i
}

/// End bound of `s[..b]` without trailing white space.
pub fn trim_end_index(s: &[char], b: usize) -> (e: usize)
    requires
        b <= s.len(),
    ensures
        e <= b,
        s@.subrange(0, e as int) == trim_end(s@.subrange(0, b as int)),
{
    let mut j: usize = b;
    while j > 0 && char_is_ws(s[j - 1])
        invariant
            j <= b <= s.len(),
            trim_end(s@.subrange(0, j as int)) == trim_end(s@.subrange(0, b as int)),
        decreases j,
    {
        proof {
            lemma_trim_end_step(s@, j as int);
        }
        j = j - 1;
    }
    j
}

/// `trim` of `s` as a new vector.
pub fn trim_chars(s: &[char]) -> (v: Vec<char>)
    ensures
        v@ == trim(s@),
{
    let a = trim_start_index(s);
    let rest = slice_chars(s, a, s.len());
    let e = trim_end_index(&rest, rest.len());
    assert(rest@.subrange(0, rest@.len() as int) =~= rest@);
    slice_chars(&rest, 0, e)
}

/// `trim_start` of `s` as a new vector.
pub fn trim_start_chars(s: &[char]) -> (v: Vec<char>)
    ensures
        v@ == trim_start(s@),
{
    let a = trim_start_index(s);
    slice_chars(s, a, s.len())
}

/// `trim_end` of `s` as a new vector.
pub fn trim_end_chars(s: &[char]) -> (v: Vec<char>)
    ensures
        v@ == trim_end(s@),
{
    let e = trim_end_index(s, s.len());
    assert(s@.subrange(0, s@.len() as int) =~= s@);
    slice_chars(s, 0, e)
}

} // verus!

verus! {

/// The result of `str::to_lowercase` on a string with characters `s`.
pub uninterp spec fn lower(s: Seq<char>) -> Seq<char>;

/// `str::to_lowercase`: the full Unicode lowercase mapping of `s`.
#[verifier::external_body]
pub(crate) fn to_lowercase_string(s: &str) -> (r: String)
    ensures
        r@ == lower(s@),
{
    s.to_lowercase()
}

/// The lowercase form of the characters `s`, as `str::to_lowercase` gives it.
pub fn lower_chars(s: &[char]) -> (v: Vec<char>)
    ensures
        v@ == lower(s@),
{
    let st = string_of(s);
    let lo = to_lowercase_string(st.as_str());
    chars_of(lo.as_str())
}

/// Whether `char::is_alphanumeric` holds of `c`.
pub uninterp spec fn is_alnum(c: char) -> bool;

/// `char::is_alphanumeric`: alphabetic or numeric in the Unicode sense.
#[verifier::external_body]
pub(crate) fn char_is_alnum(c: char) -> (b: bool)
    ensures
        b == is_alnum(c),
{
    c.is_alphanumeric()
}

/// Number of bytes of the UTF-8 encoding of `c`.
pub open spec fn char_width(c: char) -> nat {
    let u = c as u32;
    if u <= 0x7F {
        1
    } else if u <= 0x7FF {
        2
    } else if u <= 0xFFFF {
        3
    } else {
        4
    }
}

/// Number of bytes of the UTF-8 encoding of `s` (`str::len`).
pub open spec fn byte_len(s: Seq<char>) -> nat
    decreases s.len(),
{
    if s.len() == 0 {
        0
    } else {
        char_width(s[0]) + byte_len(s.drop_first())
    }
}

pub proof fn lemma_byte_len_push(s: Seq<char>, c: char)
    ensures
        byte_len(s.push(c)) == byte_len(s) + char_width(c),
    decreases s.len(),
{
    if s.len() == 0 {
        assert(s.push(c)[0] == c);
        assert(s.push(c).drop_first() =~= Seq::<char>::empty());
        assert(byte_len(s.push(c).drop_first()) == 0);
        assert(byte_len(s) == 0);
    } else {
        assert(s.push(c)[0] == s[0]);
        assert(s.push(c).drop_first() =~= s.drop_first().push(c));
        lemma_byte_len_push(s.drop_first(), c);
    }
}

pub proof fn lemma_byte_len_ge_len(s: Seq<char>)
    ensures
        byte_len(s) >= s.len(),
    decreases s.len(),
{
    if s.len() > 0 {
        lemma_byte_len_ge_len(s.drop_first());
    }
}

/// `char::len_utf8`.
pub fn char_len_utf8(c: char) -> (n: usize)
    ensures
        n == char_width(c),
{
    let u = c as u32;
    if u <= 0x7F {
        1
    } else if u <= 0x7FF {
        2
    } else if u <= 0xFFFF {
        3
    } else {
        4
    }
}

/// Decimal digit character for `d < 10`.
pub open spec fn digit_char(d: nat) -> char {
    if d == 0 { '0' }
    else if d == 1 { '1' }
    else if d == 2 { '2' }
    else if d == 3 { '3' }
    else if d == 4 { '4' }
    else if d == 5 { '5' }
    else if d == 6 { '6' }
    else if d == 7 { '7' }
    else if d == 8 { '8' }
    else { '9' }
}

/// Decimal representation of `n` without sign or leading zeros (`to_string`).
pub open spec fn dec(n: nat) -> Seq<char>
    decreases n,
{
    if n < 10 {
        seq![digit_char(n)]
    } else {
        dec(n / 10).push(digit_char(n % 10))
    }
}

pub fn digit_of(d: u64) -> (c: char)
    requires
        d < 10,
    ensures
        c == digit_char(d as nat),
{
    if d == 0 { '0' }
    else if d == 1 { '1' }
    else if d == 2 { '2' }
    else if d == 3 { '3' }
    else if d == 4 { '4' }
    else if d == 5 { '5' }
    else if d == 6 { '6' }
    else if d == 7 { '7' }
    else if d == 8 { '8' }
    else { '9' }
}

/// Decimal digits of `n` (`u64::to_string`).
pub fn dec_chars(n: u64) -> (v: Vec<char>)
    ensures
        v@ == dec(n as nat),
    decreases n,
{
    if n < 10 {
        let mut v: Vec<char> = Vec::new();
        v.push(digit_of(n));
        assert(v@ =~= seq![digit_char(n as nat)]);
        v
    } else {
        let mut v = dec_chars(n / 10);
        v.push(digit_of(n % 10));
        v
    }
}

pub proof fn lemma_dec_len_pos(n: nat)
    ensures
        dec(n).len() >= 1,
    decreases n,
{
    if n >= 10 {
        lemma_dec_len_pos(n / 10);
    }
}

/// Value of a decimal digit character, if it is one.
pub open spec fn digit_value(c: char) -> Option<nat> {
    if '0' <= c && c <= '9' {
        Some((c as u32 - '0' as u32) as nat)
    } else {
        None
    }
}

/// Value of a non-empty run of decimal digits read left to right.
pub open spec fn digits_value(s: Seq<char>) -> Option<nat>
    decreases s.len(),
{
    if s.len() == 0 {
        None
    } else if s.len() == 1 {
        digit_value(s[0])
    } else {
        match (digits_value(s.drop_last()), digit_value(s.last())) {
            (Some(a), Some(d)) => Some(a * 10 + d),
            _ => None,
        }
    }
}

/// `str::parse::<u64>`: an optional `+`, then one or more decimal digits,
/// whose value fits in 64 bits.
pub open spec fn parse_u64(s: Seq<char>) -> Option<u64> {
    let body = if s.len() > 0 && s[0] == '+' { s.drop_first() } else { s };
    match digits_value(body) {
        Some(v) => if v <= u64::MAX { Some(v as u64) } else { None },
        None => None,
    }
}

proof fn lemma_digit_roundtrip(d: nat)
    requires
        d < 10,
    ensures
        digit_value(digit_char(d)) == Some(d),
{
}

proof fn lemma_dec_digits(n: nat)
    ensures
        digits_value(dec(n)) == Some(n),
        dec(n)[0] != '+',
        dec(n).len() >= 1,
    decreases n,
{
    if n < 10 {
        lemma_digit_roundtrip(n);
    } else {
        lemma_dec_digits(n / 10);
        lemma_digit_roundtrip(n % 10);
        let s = dec(n);
        assert(s.drop_last() =~= dec(n / 10));
        assert(s[0] == dec(n / 10)[0]);
    }
}

/// Reading back a number's decimal digits gives the number.
pub proof fn lemma_parse_dec(n: nat)
    requires
        n <= u64::MAX,
    ensures
        parse_u64(dec(n)) == Some(n as u64),
{
    lemma_dec_digits(n);
}

proof fn lemma_digits_value_prefix(s: Seq<char>, i: int)
    requires
        1 <= i < s.len(),
    ensures
        s.subrange(0, i + 1).drop_last() == s.subrange(0, i),
        s.subrange(0, i + 1).last() == s[i],
{
    assert(s.subrange(0, i + 1).drop_last() =~= s.subrange(0, i));
}

proof fn lemma_digits_value_mono(s: Seq<char>, i: int)
    requires
        1 <= i <= s.len(),
        digits_value(s) is Some,
    ensures
        digits_value(s.subrange(0, i)) is Some,
        digits_value(s.subrange(0, i))->0 <= digits_value(s)->0,
    decreases s.len() - i,
{
    if i < s.len() {
        assert(s.subrange(0, s.len() as int) =~= s);
        lemma_digits_value_mono(s, i + 1);
        lemma_digits_value_prefix(s, i);
    } else {
        assert(s.subrange(0, i) =~= s);
    }
}

proof fn lemma_digits_none_at(s: Seq<char>, k: int)
    requires
        0 <= k < s.len(),
        digit_value(s[k]) is None,
    ensures
        digits_value(s) is None,
{
    if digits_value(s) is Some {
        lemma_digits_value_mono(s, k + 1);
        if k >= 1 {
            lemma_digits_value_prefix(s, k);
        }
    }
}

proof fn lemma_digits_prefix_step(s: Seq<char>, k: int, a: nat, d: nat)
    requires
        1 <= k < s.len(),
        digits_value(s.subrange(0, k)) == Some(a),
        digit_value(s[k]) == Some(d),
    ensures
        digits_value(s.subrange(0, k + 1)) == Some(a * 10 + d),
{
    lemma_digits_value_prefix(s, k);
}

/// `str::parse::<u64>` on the characters `s`.
pub fn parse_u64_chars(s: &[char]) -> (r: Option<u64>)
    ensures
        r == parse_u64(s@),
{
    let start: usize = if s.len() > 0 && s[0] == '+' { 1 } else { 0 };
    let ghost body = if s@.len() > 0 && s@[0] == '+' { s@.drop_first() } else { s@ };
    assert(body =~= s@.subrange(start as int, s@.len() as int));
    if start >= s.len() {
        return None;
    }
    let mut acc: u64 = 0;
    let mut i = start;
    while i < s.len()
        invariant
            start < s.len(),
            start <= i <= s.len(),
            body == s@.subrange(start as int, s@.len() as int),
            body == (if s@.len() > 0 && s@[0] == '+' { s@.drop_first() } else { s@ }),
            i > start ==> digits_value(body.subrange(0, i - start)) == Some(acc as nat),
            i == start ==> acc == 0,
        decreases s.len() - i,
    {
        let c = s[i];
        assert(body[i - start] == s@[i as int]);
        if !('0' <= c && c <= '9') {
            proof {
                lemma_digits_none_at(body, i - start);
            }
            return None;
        }
        let d = (c as u32 - '0' as u32) as u64;
        assert(digit_value(body[i - start]) == Some(d as nat));
        if acc > (u64::MAX - d) / 10 {
            proof {
                assert(acc * 10 + d > u64::MAX) by (nonlinear_arith)
                    requires
                        acc > (u64::MAX - d) / 10,
                        d < 10,
                ;
                lemma_digits_prefix_step(body, i - start, acc as nat, d as nat);
                if digits_value(body) is Some {
                    lemma_digits_value_mono(body, i - start + 1);
                }
            }
            return None;
        }
        proof {
            if i > start {
                lemma_digits_prefix_step(body, i - start, acc as nat, d as nat);
            } else {
                assert(body.subrange(0, 1)[0] == body[0]);
            }
            assert(acc * 10 + d <= u64::MAX) by (nonlinear_arith)
                requires
                    acc <= (u64::MAX - d) / 10,
                    d < 10,
            ;
        }
        acc = acc * 10 + d;
        i = i + 1;
    }
    assert(body.subrange(0, body.len() as int) =~= body);
    Some(acc)
}

} // verus!

verus! {

/// Number of non-overlapping occurrences of a non-empty `p` in `s` from `i` on,
/// scanning left to right (`str::matches(..).count()`).
pub open spec fn count_from(s: Seq<char>, p: Seq<char>, i: int) -> nat
    decreases s.len() + 1 - i,
{
    if p.len() == 0 || i < 0 || i + p.len() > s.len() {
        0
    } else if match_at(s, p, i) {
        1 + count_from(s, p, i + p.len())
    } else {
        count_from(s, p, i + 1)
    }
}

pub open spec fn count_matches(s: Seq<char>, p: Seq<char>) -> nat {
    count_from(s, p, 0)
}

/// Number of occurrences of the non-empty pattern `p` in `s`.
pub fn count_chars(s: &[char], p: &[char]) -> (n: usize)
    requires
        p.len() > 0,
    ensures
        n == count_matches(s@, p@),
{
    let mut n: usize = 0;
    let mut i: usize = 0;
    while i < s.len() && p.len() <= s.len() - i
        invariant
            p.len() > 0,
            i <= s.len(),
            n + count_from(s@, p@, i as int) == count_matches(s@, p@),
            n <= i,
        decreases s.len() - i,
    {
        if matches_at(s, p, i) {
            n = n + 1;
            i = i + p.len();
        } else {
            i = i + 1;
        }
    }
    n
}

/// Every non-overlapping occurrence of a non-empty `p` in `s[i..]`, scanning left
/// to right, replaced by `r` (`str::replace` on a suffix).
pub open spec fn replace_from(s: Seq<char>, p: Seq<char>, r: Seq<char>, i: int) -> Seq<char>
    decreases s.len() - i,
{
    if i < 0 || i >= s.len() {
        Seq::empty()
    } else if p.len() > 0 && match_at(s, p, i) {
        r + replace_from(s, p, r, i + p.len())
    } else {
        seq![s[i]] + replace_from(s, p, r, i + 1)
    }
}

/// `str::replace(p, r)` for a non-empty pattern.
pub open spec fn replace_all(s: Seq<char>, p: Seq<char>, r: Seq<char>) -> Seq<char> {
    replace_from(s, p, r, 0)
}

/// Replaces every occurrence of the non-empty pattern `p` in `s` by `r`.
pub fn replace_chars(s: &[char], p: &[char], r: &[char]) -> (v: Vec<char>)
    requires
        p.len() > 0,
    ensures
        v@ == replace_all(s@, p@, r@),
{
    let mut v: Vec<char> = Vec::new();
    let mut i: usize = 0;
    while i < s.len()
        invariant
            p.len() > 0,
            i <= s.len(),
            v@ + replace_from(s@, p@, r@, i as int) == replace_all(s@, p@, r@),
        decreases s.len() - i,
    {
        if matches_at(s, p, i) {
            let ghost before = v@;
            extend_chars(&mut v, r);
            assert(v@ + replace_from(s@, p@, r@, i + p.len()) =~= before + replace_from(
                s@,
                p@,
                r@,
                i as int,
            ));
            i = i + p.len();
        } else {
            let ghost before = v@;
            v.push(s[i]);
            assert(v@ + replace_from(s@, p@, r@, i + 1) =~= before + replace_from(
                s@,
                p@,
                r@,
                i as int,
            ));
            i = i + 1;
        }
    }
    assert(replace_from(s@, p@, r@, i as int) =~= Seq::<char>::empty());
    assert(v@ =~= replace_all(s@, p@, r@));
    v
}

/// The view of each element of a vector of character vectors.
pub open spec fn views(v: Seq<Vec<char>>) -> Seq<Seq<char>> {
    v.map_values(|x: Vec<char>| x@)
}

/// Pieces of `s` between occurrences of `c` (`str::split(c)`): always at least one.
pub open spec fn split_on(s: Seq<char>, c: char) -> Seq<Seq<char>>
    decreases s.len(),
{
    match find(s, seq![c]) {
        None => seq![s],
        Some(k) => if 0 <= k < s.len() {
            seq![s.subrange(0, k)] + split_on(s.subrange(k + 1, s.len() as int), c)
        } else {
            seq![s]
        },
    }
}

/// `x` without one trailing carriage return.
pub open spec fn strip_cr(x: Seq<char>) -> Seq<char> {
    if x.len() > 0 && x.last() == '\r' {
        x.drop_last()
    } else {
        x
    }
}

/// Lines of `s` (`str::lines`): split at `\n`, each line without a trailing
/// `\r` before the `\n`; a final line ending adds no empty line.
pub open spec fn lines(s: Seq<char>) -> Seq<Seq<char>>
    decreases s.len(),
{
    if s.len() == 0 {
        Seq::empty()
    } else {
        match find(s, seq!['\n']) {
            None => seq![s],
            Some(k) => if 0 <= k < s.len() {
                seq![strip_cr(s.subrange(0, k))] + lines(s.subrange(k + 1, s.len() as int))
            } else {
                seq![s]
            },
        }
    }
}

pub proof fn lemma_find_from_bounds(s: Seq<char>, p: Seq<char>, i: int)
    requires
        0 <= i,
    ensures
        find_from(s, p, i) matches Some(k) ==> i <= k && k + p.len() <= s.len() && match_at(s, p, k),
        find_from(s, p, i) is None ==> forall|j: int| i <= j ==> !#[trigger] match_at(s, p, j),
    decreases s.len() + 1 - i,
{
    if !(i < 0 || i + p.len() > s.len()) && !match_at(s, p, i) {
        lemma_find_from_bounds(s, p, i + 1);
    }
}

} // verus!

verus! {

/// The first match at or after `i` is at `k` when `p` occurs at `k` and
/// nowhere in between.
pub proof fn lemma_find_from_first(s: Seq<char>, p: Seq<char>, i: int, k: int)
    requires
        0 <= i <= k,
        match_at(s, p, k),
        forall|j: int| i <= j < k ==> !#[trigger] match_at(s, p, j),
    ensures
        find_from(s, p, i) == Some(k),
    decreases k - i,
{
    if i < k {
        lemma_find_from_first(s, p, i + 1, k);
    }
}

/// No match at or after `i` means none is found.
pub proof fn lemma_find_from_none(s: Seq<char>, p: Seq<char>, i: int)
    requires
        0 <= i,
        forall|j: int| i <= j ==> !#[trigger] match_at(s, p, j),
    ensures
        find_from(s, p, i) is None,
    decreases s.len() + 1 - i,
{
    if !(i < 0 || i + p.len() > s.len()) {
        lemma_find_from_none(s, p, i + 1);
    }
}

pub proof fn lemma_find_shift(s: Seq<char>, p: Seq<char>, i: int, j: int)
    requires
        0 <= i <= s.len(),
        0 <= j,
    ensures
        find_from(s, p, i + j) == (match find_from(s.subrange(i, s.len() as int), p, j) {
            Some(k) => Some(k + i),
            None => None::<int>,
        }),
    decreases s.len() + 1 - (i + j),
{
    let sub = s.subrange(i, s.len() as int);
    if i + j + p.len() <= s.len() {
        assert(sub.subrange(j, j + p.len()) =~= s.subrange(i + j, i + j + p.len()));
        if !match_at(s, p, i + j) {
            lemma_find_shift(s, p, i, j + 1);
        }
    }
}

/// A one-character pattern.
pub fn single(c: char) -> (v: Vec<char>)
    ensures
        v@ == seq![c],
{
    let mut v: Vec<char> = Vec::new();
    v.push(c);
    assert(v@ =~= seq![c]);
    v
}

/// `x` without one trailing carriage return.
pub fn strip_cr_chars(x: &[char]) -> (v: Vec<char>)
    ensures
        v@ == strip_cr(x@),
{
    if x.len() > 0 && x[x.len() - 1] == '\r' {
        slice_chars(x, 0, x.len() - 1)
    } else {
        slice_chars(x, 0, x.len())
    }
}

/// The lines of `s`, as `str::lines` yields them.
pub fn lines_chars(s: &[char]) -> (v: Vec<Vec<char>>)
    ensures
        views(v@) == lines(s@),
{
    let nl = single('\n');
    let mut out: Vec<Vec<char>> = Vec::new();
    let mut i: usize = 0;
    assert(s@.subrange(0, s@.len() as int) =~= s@);
    while i < s.len()
        invariant
            i <= s.len(),
            nl@ == seq!['\n'],
            views(out@) + lines(s@.subrange(i as int, s@.len() as int)) == lines(s@),
        decreases s.len() - i,
    {
        let ghost sub = s@.subrange(i as int, s@.len() as int);
        proof {
            lemma_find_shift(s@, seq!['\n'], i as int, 0);
        }
        match find_chars(s, &nl, i) {
            None => {
                let piece = slice_chars(s, i, s.len());
                let ghost before = out@;
                out.push(piece);
                assert(views(out@) =~= views(before) + seq![sub]);
                assert(lines(s@.subrange(s@.len() as int, s@.len() as int)) =~= Seq::<Seq<char>>::empty());
                i = s.len();
                assert(views(out@) + lines(s@.subrange(i as int, s@.len() as int)) =~= lines(s@));
            },
            Some(k) => {
                let piece0 = slice_chars(s, i, k);
                let piece = strip_cr_chars(&piece0);
                let ghost before = out@;
                assert(find(sub, seq!['\n']) == Some(k - i));
                assert(lines(sub) == seq![strip_cr(sub.subrange(0, k - i))] + lines(
                    sub.subrange(k - i + 1, sub.len() as int),
                ));
                out.push(piece);
                assert(sub.subrange(0, k - i) =~= s@.subrange(i as int, k as int));
                assert(sub.subrange(k - i + 1, sub.len() as int) =~= s@.subrange(k + 1, s@.len() as int));
                assert(views(out@) =~= views(before) + seq![strip_cr(s@.subrange(i as int, k as int))]);
                i = k + 1;
                assert(views(out@) + lines(s@.subrange(i as int, s@.len() as int)) =~= lines(s@));
            },
        }
    }
    assert(lines(s@.subrange(i as int, s@.len() as int)) =~= Seq::<Seq<char>>::empty());
    assert(views(out@) =~= lines(s@));
    out
}

/// The pieces of `s` between occurrences of `c`, as `str::split(c)` yields them.
pub fn split_chars(s: &[char], c: char) -> (v: Vec<Vec<char>>)
    ensures
        views(v@) == split_on(s@, c),
{
    let pat = single(c);
    let mut out: Vec<Vec<char>> = Vec::new();
    let mut i: usize = 0;
    assert(s@.subrange(0, s@.len() as int) =~= s@);
    loop
        invariant
            i <= s.len(),
            pat@ == seq![c],
            views(out@) + split_on(s@.subrange(i as int, s@.len() as int), c) == split_on(s@, c),
        decreases s.len() - i,
    {
        let ghost sub = s@.subrange(i as int, s@.len() as int);
        proof {
            lemma_find_shift(s@, seq![c], i as int, 0);
        }
        match find_chars(s, &pat, i) {
            None => {
                let piece = slice_chars(s, i, s.len());
                let ghost before = out@;
                out.push(piece);
                assert(views(out@) =~= views(before) + seq![sub]);
                assert(views(out@) =~= split_on(s@, c));
                return out;
            },
            Some(k) => {
                let piece = slice_chars(s, i, k);
                let ghost before = out@;
                assert(find(sub, seq![c]) == Some(k - i));
                assert(split_on(sub, c) == seq![sub.subrange(0, k - i)] + split_on(
                    sub.subrange(k - i + 1, sub.len() as int),
                    c,
                ));
                out.push(piece);
                assert(sub.subrange(0, k - i) =~= s@.subrange(i as int, k as int));
                assert(sub.subrange(k - i + 1, sub.len() as int) =~= s@.subrange(k + 1, s@.len() as int));
                assert(views(out@) =~= views(before) + seq![s@.subrange(i as int, k as int)]);
                i = k + 1;
                assert(views(out@) + split_on(s@.subrange(i as int, s@.len() as int), c) =~= split_on(s@, c));
            },
        }
    }
}

} // verus!

verus! {

/// `cur` as a token list: empty when `cur` is empty.
pub open spec fn emit(cur: Seq<char>) -> Seq<Seq<char>> {
    if cur.len() > 0 {
        seq![cur]
    } else {
        Seq::empty()
    }
}

/// Maximal runs of characters that satisfy `keep`, continuing a run `cur`
/// (`str::split(|c| !keep(c))` with empty pieces dropped).
pub open spec fn runs_acc(s: Seq<char>, keep: spec_fn(char) -> bool, cur: Seq<char>) -> Seq<
    Seq<char>,
>
    decreases s.len(),
{
    if s.len() == 0 {
        emit(cur)
    } else if keep(s[0]) {
        runs_acc(s.drop_first(), keep, cur.push(s[0]))
    } else {
        emit(cur) + runs_acc(s.drop_first(), keep, Seq::empty())
    }
}

pub open spec fn runs(s: Seq<char>, keep: spec_fn(char) -> bool) -> Seq<Seq<char>> {
    runs_acc(s, keep, Seq::empty())
}

pub proof fn lemma_suffix_step<T>(s: Seq<T>, i: int)
    requires
        0 <= i < s.len(),
    ensures
        s.subrange(i, s.len() as int).drop_first() == s.subrange(i + 1, s.len() as int),
        s.subrange(i, s.len() as int)[0] == s[i],
        s.subrange(i, s.len() as int).len() > 0,
{
    assert(s.subrange(i, s.len() as int).drop_first() =~= s.subrange(i + 1, s.len() as int));
}

/// The views of a sequence of `String`s.
pub open spec fn strs(v: Seq<String>) -> Seq<Seq<char>> {
    v.map_values(|x: String| x@)
}

/// Character-wise equality.
pub fn eq_chars(a: &[char], b: &[char]) -> (r: bool)
    ensures
        r == (a@ == b@),
{
    if a.len() != b.len() {
        return false;
    }
    let r = matches_at(a, b, 0);
    assert(a@.subrange(0, b@.len() as int) =~= a@);
    r
}

/// Is `k` among the vectors of `list`?
pub fn contains_chars(list: &Vec<Vec<char>>, k: &[char]) -> (r: bool)
    ensures
        r == views(list@).contains(k@),
{
    let mut j: usize = 0;
    while j < list.len()
        invariant
            j <= list.len(),
            forall|t: int| 0 <= t < j ==> list@[t]@ != k@,
        decreases list.len() - j,
    {
        if eq_chars(&list[j], k) {
            assert(views(list@)[j as int] == k@);
            return true;
        }
        j = j + 1;
    }
    assert(!views(list@).contains(k@)) by {
        if views(list@).contains(k@) {
            let t = choose|t: int| 0 <= t < views(list@).len() && views(list@)[t] == k@;
            assert(list@[t]@ == k@);
        }
    }
    false
}

/// `Vec<Vec<char>>` to `Vec<String>`.
pub fn to_strings(list: &Vec<Vec<char>>) -> (r: Vec<String>)
    ensures
        strs(r@) == views(list@),
{
    let mut r: Vec<String> = Vec::new();
    let mut j: usize = 0;
    while j < list.len()
        invariant
            j <= list.len(),
            strs(r@) == views(list@).subrange(0, j as int),
        decreases list.len() - j,
    {
        let s = string_of(&list[j]);
        let ghost before = r@;
        r.push(s);
        assert(r@ == before.push(s));
        assert(strs(r@) =~= strs(before).push(s@));
        assert(views(list@).subrange(0, j + 1) =~= views(list@).subrange(0, j as int).push(
            list@[j as int]@,
        ));
        j = j + 1;
    }
    assert(views(list@).subrange(0, j as int) =~= views(list@));
    r
}

} // verus!

verus! {

pub proof fn lemma_count_from_le(s: Seq<char>, p: Seq<char>, i: int)
    requires
        0 <= i <= s.len(),
    ensures
        count_from(s, p, i) <= s.len() - i,
    decreases s.len() + 1 - i,
{
    if p.len() == 0 || i + p.len() > s.len() {
    } else if match_at(s, p, i) {
        lemma_count_from_le(s, p, i + p.len());
    } else {
        lemma_count_from_le(s, p, i + 1);
    }
}

pub proof fn lemma_count_le_len(s: Seq<char>, p: Seq<char>)
    ensures
        count_matches(s, p) <= s.len(),
{
    lemma_count_from_le(s, p, 0);
}

} // verus!

verus! {

pub proof fn lemma_split_on_nonempty(s: Seq<char>, c: char)
    ensures
        split_on(s, c).len() >= 1,
    decreases s.len(),
{
    match find(s, seq![c]) {
        None => {},
        Some(k) => {
            if 0 <= k < s.len() {
                lemma_split_on_nonempty(s.subrange(k + 1, s.len() as int), c);
            }
        },
    }
}

} // verus!

verus! {

/// `n` spaces.
pub open spec fn spaces(n: nat) -> Seq<char> {
    Seq::new(n, |i: int| ' ')
}

/// `s` right-aligned in a field of `width` characters (`format!("{s:>width$}")`).
pub open spec fn pad_left(s: Seq<char>, width: nat) -> Seq<char> {
    if s.len() >= width {
        s
    } else {
        spaces((width - s.len()) as nat) + s
    }
}

/// `s` right-aligned in a field of `width` characters.
pub fn pad_left_chars(s: &[char], width: usize) -> (v: Vec<char>)
    ensures
        v@ == pad_left(s@, width as nat),
{
    let mut v: Vec<char> = Vec::new();
    if s.len() < width {
        let k = width - s.len();
        let mut i: usize = 0;
        while i < k
            invariant
                i <= k,
                v@ == spaces(i as nat),
            decreases k - i,
        {
            v.push(' ');
            i = i + 1;
            assert(v@ =~= spaces(i as nat));
        }
    }
    extend_chars(&mut v, s);
    proof {
        if s@.len() >= width {
            assert(v@ =~= s@);
        }
    }
    v
}

/// `a` followed by `b`.
pub fn str_cat(a: &str, b: &str) -> (r: String)
    ensures
        r@ == a@ + b@,
{
    let mut v = chars_of(a);
    let bc = chars_of(b);
    extend_chars(&mut v, &bc);
    string_of(&v)
}

/// `a`, `b` and `c` one after the other.
pub fn str_cat3(a: &str, b: &str, c: &str) -> (r: String)
    ensures
        r@ == a@ + b@ + c@,
{
    let ab = str_cat(a, b);
    str_cat(ab.as_str(), c)
}

} // verus!

verus! {

pub proof fn lemma_byte_len_prefix_step(s: Seq<char>, i: int)
    requires
        0 <= i < s.len(),
    ensures
        byte_len(s.subrange(0, i + 1)) == byte_len(s.subrange(0, i)) + char_width(s[i]),
{
    assert(s.subrange(0, i + 1) =~= s.subrange(0, i).push(s[i]));
    lemma_byte_len_push(s.subrange(0, i), s[i]);
}

pub proof fn lemma_byte_len_prefix_mono(s: Seq<char>, j: int, k: int)
    requires
        0 <= j <= k <= s.len(),
    ensures
        byte_len(s.subrange(0, j)) <= byte_len(s.subrange(0, k)),
    decreases k - j,
{
    if j < k {
        lemma_byte_len_prefix_step(s, k - 1);
        lemma_byte_len_prefix_mono(s, j, k - 1);
    }
}

} // verus!
