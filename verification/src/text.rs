//! Text helpers: comparing, trimming, lower-casing, and reading and writing
//! decimal numbers, each stated over the characters of the text.

use vstd::prelude::*;
use vstd::string::*;

verus! {

// ---------------------------------------------------------------------------
// what the standard library supplies
// ---------------------------------------------------------------------------

/// Whether a character has the Unicode `White_Space` property.
pub open spec fn is_space(c: char) -> bool {
    let n = c as u32;
    ||| 0x0009 <= n <= 0x000d
    ||| n == 0x0020
    ||| n == 0x0085
    ||| n == 0x00a0
    ||| n == 0x1680
    ||| 0x2000 <= n <= 0x200a
    ||| n == 0x2028
    ||| n == 0x2029
    ||| n == 0x202f
    ||| n == 0x205f
    ||| n == 0x3000
}

/// `char::is_whitespace` tells whether a character has the Unicode
/// `White_Space` property, which the Unicode Character Database lists.
pub assume_specification[ char::is_whitespace ](c: char) -> (b: bool)
    ensures
        b == is_space(c),
;

/// `String::push` appends one character.
pub assume_specification[ String::push ](s: &mut String, c: char)
    ensures
        final(s)@ == old(s)@.push(c),
;

// ---------------------------------------------------------------------------
// comparing
// ---------------------------------------------------------------------------

/// Whether two texts hold the same characters.
pub fn same_text(a: &str, b: &str) -> (same: bool)
    ensures
        same == (a@ == b@),
{
    broadcast use vstd::utf8::encode_utf8_decode_utf8;

    let x = a.as_bytes();
    let y = b.as_bytes();
    if x.len() != y.len() {
        return false;
    }
    let mut i: usize = 0;
    while i < x.len()
        invariant
            i <= x.len(),
            x.len() == y.len(),
            x@ == a.spec_bytes(),
            y@ == b.spec_bytes(),
            forall|j: int| 0 <= j < i ==> x@[j] == y@[j],
        decreases x.len() - i,
    {
        if x[i] != y[i] {
            return false;
        }
        i = i + 1;
    }
    assert(x@ =~= y@);
    assert(vstd::utf8::decode_utf8(vstd::utf8::encode_utf8(a@)) == a@);
    assert(vstd::utf8::decode_utf8(vstd::utf8::encode_utf8(b@)) == b@);
    true
}

/// The characters of a text.
pub fn chars_of(s: &str) -> (v: Vec<char>)
    ensures
        v@ == s@,
{
    let mut v: Vec<char> = Vec::new();
    for c in it: s.chars()
        invariant
            it.seq() == s@,
            v@ == s@.take(it.index() as int),
    {
        v.push(c);
        assert(v@ =~= s@.take(it.index() as int + 1));
    }
    assert(v@ =~= s@);
    v
}

/// The text made of the given characters.
pub fn text_of(v: &Vec<char>) -> (s: String)
    ensures
        s@ == v@,
{
    let mut s = String::new();
    let mut i: usize = 0;
    while i < v.len()
        invariant
            i <= v.len(),
            s@ == v@.take(i as int),
        decreases v.len() - i,
    {
        s.push(v[i]);
        i = i + 1;
        assert(s@ =~= v@.take(i as int));
    }
    assert(s@ =~= v@);
    s
}

/// The two texts one after the other.
pub fn joined(a: &str, b: &str) -> (s: String)
    ensures
        s@ == a@ + b@,
{
    let mut s = a.to_owned();
    s.append(b);
    s
}

/// The three texts one after the other.
pub fn joined3(a: &str, b: &str, c: &str) -> (s: String)
    ensures
        s@ == a@ + b@ + c@,
{
    let mut s = a.to_owned();
    s.append(b);
    s.append(c);
    s
}

/// Whether a text begins with the given characters.
pub open spec fn begins_with(s: Seq<char>, prefix: Seq<char>) -> bool {
    prefix.len() <= s.len() && s.take(prefix.len() as int) == prefix
}

/// What is left of a text behind `prefix`, if it begins with it.
pub fn strip_prefix(s: &str, prefix: &str) -> (rest: Option<String>)
    ensures
        rest is Some <==> begins_with(s@, prefix@),
        rest matches Some(r) ==> r@ == s@.skip(prefix@.len() as int),
{
    let n = s.unicode_len();
    let k = prefix.unicode_len();
    if k > n {
        return None;
    }
    let head = s.substring_char(0, k);
    assert(head@ =~= s@.take(k as int));
    if !same_text(head, prefix) {
        return None;
    }
    let tail = s.substring_char(k, n);
    assert(tail@ =~= s@.skip(k as int));
    Some(tail.to_owned())
}

/// Whether a text begins with `prefix`.
pub fn starts_with(s: &str, prefix: &str) -> (b: bool)
    ensures
        b == begins_with(s@, prefix@),
{
    let n = s.unicode_len();
    let k = prefix.unicode_len();
    if k > n {
        return false;
    }
    let head = s.substring_char(0, k);
    assert(head@ =~= s@.take(k as int));
    same_text(head, prefix)
}

/// Lexicographic order of texts: by the first character that differs, and the
/// shorter text first where one continues the other.
pub open spec fn text_less(a: Seq<char>, b: Seq<char>) -> bool {
    ||| a.len() < b.len() && b.take(a.len() as int) == a
    ||| exists|i: int|
        #![trigger a[i]]
        0 <= i < a.len() && i < b.len() && a.take(i) == b.take(i) && a[i] < b[i]
}

/// Whether `a` comes before `b` in the order of texts.
pub fn comes_before(a: &str, b: &str) -> (less: bool)
    ensures
        less == text_less(a@, b@),
{
    let x = chars_of(a);
    let y = chars_of(b);
    let mut i: usize = 0;
    while i < x.len() && i < y.len()
        invariant
            i <= x.len(),
            i <= y.len(),
            x@ == a@,
            y@ == b@,
            a@.take(i as int) == b@.take(i as int),
        decreases x.len() - i,
    {
        let p = x[i];
        let q = y[i];
        if p != q {
            proof {
                lemma_first_difference(a@, b@, i as int);
            }
            return p < q;
        }
        assert(a@.take(i as int + 1) =~= a@.take(i as int).push(a@[i as int]));
        assert(b@.take(i as int + 1) =~= b@.take(i as int).push(b@[i as int]));
        i = i + 1;
    }
    proof {
        assert(a@.take(i as int) =~= b@.take(i as int));
        if i == x.len() && i < y.len() {
            assert(a@.take(i as int) =~= a@);
        } else {
            assert(b@.take(i as int) =~= b@);
            if text_less(a@, b@) {
                if a@.len() < b@.len() && b@.take(a@.len() as int) == a@ {
                } else {
                    let k = choose|k: int|
                        #![trigger a@[k]]
                        0 <= k < a@.len() && k < b@.len() && a@.take(k) == b@.take(k) && a@[k] < b@[k];
                    assert(a@.take(i as int)[k] == a@[k]);
                    assert(b@.take(i as int)[k] == b@[k]);
                }
            }
        }
    }
    i == x.len() && i < y.len()
}

/// Where two texts agree up to `i` and differ at `i`, the characters at `i`
/// decide their order.
proof fn lemma_first_difference(a: Seq<char>, b: Seq<char>, i: int)
    requires
        0 <= i < a.len(),
        i < b.len(),
        a.take(i) == b.take(i),
        a[i] != b[i],
    ensures
        text_less(a, b) <==> a[i] < b[i],
{
    if text_less(a, b) {
        if a.len() < b.len() && b.take(a.len() as int) == a {
            assert(b.take(a.len() as int)[i] == b[i]);
        } else {
            let k = choose|k: int|
                #![trigger a[k]]
                0 <= k < a.len() && k < b.len() && a.take(k) == b.take(k) && a[k] < b[k];
            if k < i {
                assert(a.take(i)[k] == a[k]);
                assert(b.take(i)[k] == b[k]);
            } else if k > i {
                assert(a.take(k)[i] == a[i]);
                assert(b.take(k)[i] == b[i]);
            }
        }
    }
}

/// Two texts are equal, or one comes before the other, and never both.
pub proof fn lemma_text_order_is_total(a: Seq<char>, b: Seq<char>)
    ensures
        a == b || text_less(a, b) || text_less(b, a),
        text_less(a, b) ==> a != b && !text_less(b, a),
{
    let d = first_difference(a, b, 0);
    assert(a.take(0) =~= b.take(0));
    lemma_first_difference_found(a, b, 0);
    if d < a.len() && d < b.len() {
        lemma_first_difference(a, b, d);
        lemma_first_difference(b, a, d);
    } else {
        assert(a.take(d) == b.take(d));
        if d == a.len() {
            assert(a.take(d) =~= a);
        }
        if d == b.len() {
            assert(b.take(d) =~= b);
        }
        if text_less(a, b) && !(a.len() < b.len() && b.take(a.len() as int) == a) {
            let k = choose|k: int|
                #![trigger a[k]]
                0 <= k < a.len() && k < b.len() && a.take(k) == b.take(k) && a[k] < b[k];
            assert(a.take(d)[k] == a[k]);
            assert(b.take(d)[k] == b[k]);
        }
        if text_less(b, a) && !(b.len() < a.len() && a.take(b.len() as int) == b) {
            let k = choose|k: int|
                #![trigger b[k]]
                0 <= k < b.len() && k < a.len() && b.take(k) == a.take(k) && b[k] < a[k];
            assert(a.take(d)[k] == a[k]);
            assert(b.take(d)[k] == b[k]);
        }
    }
}

/// The first place at or behind `i` where two texts differ or one ends.
spec fn first_difference(a: Seq<char>, b: Seq<char>, i: int) -> int
    decreases a.len() - i,
{
    if 0 <= i < a.len() && i < b.len() && a[i] == b[i] {
        first_difference(a, b, i + 1)
    } else {
        i
    }
}

proof fn lemma_first_difference_found(a: Seq<char>, b: Seq<char>, i: int)
    requires
        0 <= i <= a.len(),
        i <= b.len(),
        a.take(i) == b.take(i),
    ensures
        ({
            let d = first_difference(a, b, i);
            &&& i <= d <= a.len()
            &&& d <= b.len()
            &&& a.take(d) == b.take(d)
            &&& d < a.len() && d < b.len() ==> a[d] != b[d]
        }),
    decreases a.len() - i,
{
    if i < a.len() && i < b.len() && a[i] == b[i] {
        assert(a.take(i + 1) =~= a.take(i).push(a[i]));
        assert(b.take(i + 1) =~= b.take(i).push(b[i]));
        lemma_first_difference_found(a, b, i + 1);
    }
}

/// The order of texts is transitive.
pub proof fn lemma_text_order_is_transitive(a: Seq<char>, b: Seq<char>, c: Seq<char>)
    requires
        text_less(a, b),
        text_less(b, c),
    ensures
        text_less(a, c),
{
    lemma_text_order_is_total(a, b);
    lemma_text_order_is_total(b, c);
    let d = first_difference(a, b, 0);
    let e = first_difference(b, c, 0);
    assert(a.take(0) =~= b.take(0));
    assert(b.take(0) =~= c.take(0));
    lemma_first_difference_found(a, b, 0);
    lemma_first_difference_found(b, c, 0);
    let m = if d < e { d } else { e };
    assert(a.take(m) =~= a.take(d).take(m));
    assert(b.take(m) =~= b.take(d).take(m));
    assert(b.take(m) =~= b.take(e).take(m));
    assert(c.take(m) =~= c.take(e).take(m));
    assert(d < b.len()) by {
        if d == b.len() {
            assert(b.take(d) =~= b);
            if d == a.len() {
                assert(a.take(d) =~= a);
            } else {
                assert(text_less(b, a));
            }
        }
    }
    assert(e < c.len()) by {
        if e == c.len() {
            assert(c.take(e) =~= c);
            if e == b.len() {
                assert(b.take(e) =~= b);
            } else {
                assert(text_less(c, b));
            }
        }
    }
    if d < a.len() {
        lemma_first_difference(a, b, d);
    } else {
        assert(a.take(d) =~= a);
    }
    if e < b.len() {
        lemma_first_difference(b, c, e);
    }
    if d < e {
        assert(b.take(e)[d] == b[d]);
        assert(c.take(e)[d] == c[d]);
        if d < a.len() {
            assert(a[d] <= c[d]);
        }
    } else if e < d {
        assert(a.take(d)[e] == a[e]);
        assert(b.take(d)[e] == b[e]);
    }
    assert(m < c.len());
    if m < a.len() {
        assert(a[m] < c[m]);
    } else {
        assert(a.take(m) =~= a);
    }
}

// ---------------------------------------------------------------------------
// trimming and lower-casing
// ---------------------------------------------------------------------------

/// A text without its leading whitespace.
pub open spec fn without_leading_space(s: Seq<char>) -> Seq<char>
    decreases s.len(),
{
    if s.len() > 0 && is_space(s[0]) {
        without_leading_space(s.drop_first())
    } else {
        s
    }
}

/// A text without its trailing whitespace.
pub open spec fn without_trailing_space(s: Seq<char>) -> Seq<char>
    decreases s.len(),
{
    if s.len() > 0 && is_space(s.last()) {
        without_trailing_space(s.drop_last())
    } else {
        s
    }
}

/// A text without the whitespace at its ends.
pub open spec fn trimmed(s: Seq<char>) -> Seq<char> {
    without_trailing_space(without_leading_space(s))
}

/// Removes the whitespace at both ends.
pub fn trim(s: &str) -> (t: &str)
    ensures
        t@ == trimmed(s@),
{
    let v = chars_of(s);
    let mut from: usize = 0;
    assert(s@.skip(0) =~= s@);
    while from < v.len() && v[from].is_whitespace()
        invariant
            from <= v.len(),
            v@ == s@,
            without_leading_space(s@) == without_leading_space(s@.skip(from as int)),
        decreases v.len() - from,
    {
        assert(s@.skip(from as int).drop_first() =~= s@.skip(from as int + 1));
        from = from + 1;
    }
    proof {
        assert(without_leading_space(s@) =~= s@.skip(from as int));
    }
    let mut to: usize = v.len();
    assert(s@.skip(from as int) =~= s@.subrange(from as int, to as int));
    while to > from && v[to - 1].is_whitespace()
        invariant
            from <= to <= v.len(),
            v@ == s@,
            trimmed(s@) == without_trailing_space(s@.subrange(from as int, to as int)),
        decreases to,
    {
        assert(s@.subrange(from as int, to as int).drop_last() =~= s@.subrange(
            from as int,
            to as int - 1,
        ));
        to = to - 1;
    }
    s.substring_char(from, to)
}

/// The lower-case form of an ASCII capital; every other character unchanged.
pub open spec fn lower_char(c: char) -> char {
    if 'A' <= c <= 'Z' {
        ((c as u8) + 32) as char
    } else {
        c
    }
}

/// A text with its ASCII capitals in lower case.
pub open spec fn lowered(s: Seq<char>) -> Seq<char> {
    s.map_values(|c: char| lower_char(c))
}

/// Puts the ASCII capitals in lower case.
pub fn lower(s: &str) -> (t: String)
    ensures
        t@ == lowered(s@),
{
    let v = chars_of(s);
    let mut t = String::new();
    let mut i: usize = 0;
    while i < v.len()
        invariant
            i <= v.len(),
            v@ == s@,
            t@ == lowered(s@).take(i as int),
        decreases v.len() - i,
    {
        let c = v[i];
        let d = if 'A' <= c && c <= 'Z' {
            ((c as u8) + 32) as char
        } else {
            c
        };
        t.push(d);
        i = i + 1;
        assert(t@ =~= lowered(s@).take(i as int));
    }
    assert(t@ =~= lowered(s@));
    t
}

proof fn lemma_lower_char(a: char, b: char)
    requires
        lower_char(a) == lower_char(b),
    ensures
        is_space(a) == is_space(b),
        is_digit(a) || is_digit(b) || a == '+' || b == '+' ==> a == b,
{
}

/// Trimming and putting capitals in lower case can be done in either order, so
/// that texts which differ in the case of their letters still do so without the
/// whitespace at their ends.
pub proof fn lemma_case_survives_trimming(a: Seq<char>, b: Seq<char>)
    requires
        lowered(a) == lowered(b),
    ensures
        lowered(trimmed(a)) == lowered(trimmed(b)),
{
    lemma_case_survives_leading(a, b);
    lemma_case_survives_trailing(without_leading_space(a), without_leading_space(b));
}

proof fn lemma_case_survives_leading(a: Seq<char>, b: Seq<char>)
    requires
        lowered(a) == lowered(b),
    ensures
        lowered(without_leading_space(a)) == lowered(without_leading_space(b)),
    decreases a.len(),
{
    assert(lowered(a).len() == a.len() && lowered(b).len() == b.len());
    if a.len() > 0 {
        assert(lowered(a)[0] == lower_char(a[0]) && lowered(b)[0] == lower_char(b[0]));
        lemma_lower_char(a[0], b[0]);
        if is_space(a[0]) {
            assert(lowered(a.drop_first()) =~= lowered(a).drop_first());
            assert(lowered(b.drop_first()) =~= lowered(b).drop_first());
            lemma_case_survives_leading(a.drop_first(), b.drop_first());
        }
    }
}

proof fn lemma_case_survives_trailing(a: Seq<char>, b: Seq<char>)
    requires
        lowered(a) == lowered(b),
    ensures
        lowered(without_trailing_space(a)) == lowered(without_trailing_space(b)),
    decreases a.len(),
{
    assert(lowered(a).len() == a.len() && lowered(b).len() == b.len());
    if a.len() > 0 {
        let k = a.len() - 1;
        assert(lowered(a)[k] == lower_char(a[k]) && lowered(b)[k] == lower_char(b[k]));
        lemma_lower_char(a[k], b[k]);
        if is_space(a[k]) {
            assert(lowered(a.drop_last()) =~= lowered(a).drop_last());
            assert(lowered(b.drop_last()) =~= lowered(b).drop_last());
            lemma_case_survives_trailing(a.drop_last(), b.drop_last());
        }
    }
}

/// The case of letters does not matter for which integer a text reads as.
pub proof fn lemma_case_keeps_integers(a: Seq<char>, b: Seq<char>)
    requires
        lowered(a) == lowered(b),
    ensures
        integer_of(a) == integer_of(b),
{
    assert(lowered(a).len() == a.len() && lowered(b).len() == b.len());
    assert forall|i: int|
        0 <= i < a.len() && (is_digit(a[i]) || is_digit(b[i]) || a[i] == '+' || b[i]
            == '+') implies a[i] == b[i] by {
        assert(lowered(a)[i] == lower_char(a[i]) && lowered(b)[i] == lower_char(b[i]));
        lemma_lower_char(a[i], b[i]);
    }
    let (c, d) = (unsigned_part(a), unsigned_part(b));
    if all_digits(c) || all_digits(d) {
        assert forall|i: int| 0 <= i < c.len() implies c[i] == d[i] by {
            let k = if a.len() > 0 && a[0] == '+' { i + 1 } else { i };
            assert(c[i] == a[k] && d[i] == b[k]);
        }
        assert(c =~= d);
    }
}

// ---------------------------------------------------------------------------
// decimal numbers
// ---------------------------------------------------------------------------

pub open spec fn is_digit(c: char) -> bool {
    '0' <= c <= '9'
}

/// The number that a run of decimal digits denotes.
pub open spec fn decimal_value(s: Seq<char>) -> nat
    decreases s.len(),
{
    if s.len() == 0 {
        0
    } else {
        decimal_value(s.drop_last()) * 10 + (s.last() as nat - '0' as nat) as nat
    }
}

pub open spec fn all_digits(s: Seq<char>) -> bool {
    forall|i: int| 0 <= i < s.len() ==> is_digit(#[trigger] s[i])
}

/// A text with one leading plus sign taken off.
pub open spec fn unsigned_part(s: Seq<char>) -> Seq<char> {
    if s.len() > 0 && s[0] == '+' {
        s.drop_first()
    } else {
        s
    }
}

/// What a text reads as where an unsigned 64-bit integer is expected: an
/// optional plus sign, then one or more decimal digits, in range.
pub open spec fn integer_of(s: Seq<char>) -> Option<u64> {
    let d = unsigned_part(s);
    if d.len() > 0 && all_digits(d) && decimal_value(d) <= u64::MAX {
        Some(decimal_value(d) as u64)
    } else {
        None
    }
}

proof fn lemma_decimal_value_grows(s: Seq<char>, i: int)
    requires
        0 <= i <= s.len(),
        all_digits(s),
    ensures
        decimal_value(s.take(i)) <= decimal_value(s),
    decreases s.len() - i,
{
    if i < s.len() {
        lemma_decimal_value_grows(s, i + 1);
        assert(s.take(i + 1).drop_last() =~= s.take(i));
        assert(is_digit(s[i]));
    } else {
        assert(s.take(i) =~= s);
    }
}

/// Reads an unsigned 64-bit integer.
pub fn read_integer(s: &str) -> (n: Option<u64>)
    ensures
        n == integer_of(s@),
{
    let v = chars_of(s);
    let mut from: usize = 0;
    if v.len() > 0 && v[0] == '+' {
        from = 1;
    }
    let ghost d = unsigned_part(s@);
    assert(d =~= s@.skip(from as int));
    if from == v.len() {
        return None;
    }
    let mut n: u64 = 0;
    let mut i: usize = from;
    while i < v.len()
        invariant
            from <= i <= v.len(),
            v@ == s@,
            d == unsigned_part(s@),
            d == s@.skip(from as int),
            d.len() > 0,
            n == decimal_value(d.take(i - from)),
            forall|j: int| 0 <= j < i - from ==> is_digit(#[trigger] d[j]),
        decreases v.len() - i,
    {
        let c = v[i];
        assert(c == d[i - from]);
        if !('0' <= c && c <= '9') {
            assert(!is_digit(d[i - from]));
            return None;
        }
        let k: u64 = (c as u32 - '0' as u32) as u64;
        assert(d.take(i - from + 1).drop_last() =~= d.take(i - from));
        assert(decimal_value(d.take(i - from + 1)) == n * 10 + k);
        if n > (u64::MAX - k) / 10 {
            proof {
                if all_digits(d) {
                    lemma_decimal_value_grows(d, i - from + 1);
                    assert(n * 10 + k > u64::MAX);
                }
            }
            return None;
        }
        n = n * 10 + k;
        i = i + 1;
    }
    assert(d.take(i - from) =~= d);
    assert(all_digits(d));
    Some(n)
}

/// The decimal digit for a number below ten.
pub open spec fn digit_char(n: nat) -> char {
    ('0' as u8 + n) as char
}

/// The decimal digits of a number, without leading zeros.
pub open spec fn decimal_text(n: nat) -> Seq<char>
    decreases n,
{
    if n < 10 {
        seq![digit_char(n)]
    } else {
        decimal_text(n / 10).push(digit_char(n % 10))
    }
}

/// Writes a number in decimal digits.
pub fn decimal(n: u128) -> (s: String)
    ensures
        s@ == decimal_text(n as nat),
    decreases n,
{
    let d: u8 = (n % 10) as u8;
    let c: char = (48u8 + d) as char;
    let mut s = if n < 10 {
        String::new()
    } else {
        decimal(n / 10)
    };
    s.push(c);
    assert(n < 10 ==> s@ =~= seq![c]);
    s
}

/// Digits are read back as the number that they write.
pub proof fn lemma_decimal_text(n: nat)
    ensures
        decimal_text(n).len() > 0,
        all_digits(decimal_text(n)),
        decimal_value(decimal_text(n)) == n,
    decreases n,
{
    let t = decimal_text(n);
    if n < 10 {
        assert(t.drop_last() =~= Seq::empty());
        assert(decimal_value(t.drop_last()) == 0);
        assert(is_digit(digit_char(n)));
    } else {
        lemma_decimal_text(n / 10);
        assert(t.drop_last() =~= decimal_text(n / 10));
        assert(is_digit(digit_char(n % 10)));
        assert(n == (n / 10) * 10 + n % 10);
    }
}

/// A number in decimal digits is read back, and trimming leaves it alone.
pub proof fn lemma_integer_of_decimal_text(n: u64)
    ensures
        integer_of(decimal_text(n as nat)) == Some(n),
        trimmed(decimal_text(n as nat)) == decimal_text(n as nat),
{
    let t = decimal_text(n as nat);
    lemma_decimal_text(n as nat);
    assert(is_digit(t[0]));
    assert(is_digit(t.last()));
}

/// Different numbers have different digits.
pub proof fn lemma_decimal_text_is_injective(a: nat, b: nat)
    ensures
        decimal_text(a) == decimal_text(b) <==> a == b,
{
    lemma_decimal_text(a);
    lemma_decimal_text(b);
}

} // verus!
