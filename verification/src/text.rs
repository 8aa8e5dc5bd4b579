//! Strings as list elements: the lexicographic order on character
//! sequences, with its executable comparison.

use vstd::prelude::*;

use crate::elem::Elem;

verus! {

/// Lexicographic order on character sequences, by code point.
pub open spec fn lex_le(a: Seq<char>, b: Seq<char>) -> bool
    decreases a.len(),
{
    if a.len() == 0 {
        true
    } else if b.len() == 0 {
        false
    } else if a[0] == b[0] {
        lex_le(a.drop_first(), b.drop_first())
    } else {
        (a[0] as int) < (b[0] as int)
    }
}

pub proof fn lemma_lex_le_reflexive(a: Seq<char>)
    ensures
        lex_le(a, a),
    decreases a.len(),
{
    if a.len() > 0 {
        lemma_lex_le_reflexive(a.drop_first());
    }
}

pub proof fn lemma_lex_le_total(a: Seq<char>, b: Seq<char>)
    ensures
        lex_le(a, b) || lex_le(b, a),
    decreases a.len(),
{
    if a.len() > 0 && b.len() > 0 {
        if a[0] == b[0] {
            lemma_lex_le_total(a.drop_first(), b.drop_first());
        } else {
            vstd::utf8::char_u32_cast(a[0], a[0] as u32);
            vstd::utf8::char_u32_cast(b[0], b[0] as u32);
            assert(a[0] as int != b[0] as int);
        }
    }
}

pub proof fn lemma_lex_le_antisymmetric(a: Seq<char>, b: Seq<char>)
    requires
        lex_le(a, b),
        lex_le(b, a),
    ensures
        a == b,
    decreases a.len(),
{
    if a.len() == 0 {
        assert(b.len() == 0);
        assert(a =~= b);
    } else {
        assert(b.len() > 0);
        if a[0] == b[0] {
            lemma_lex_le_antisymmetric(a.drop_first(), b.drop_first());
            assert(a =~= b) by {
                assert(a.drop_first() == b.drop_first());
                assert forall|i: int| 0 <= i < a.len() implies a[i] == b[i] by {
                    if i > 0 {
                        assert(a.drop_first()[i - 1] == b.drop_first()[i - 1]);
                    }
                }
            }
        }
    }
}

pub proof fn lemma_lex_le_transitive(a: Seq<char>, b: Seq<char>, c: Seq<char>)
    requires
        lex_le(a, b),
        lex_le(b, c),
    ensures
        lex_le(a, c),
    decreases a.len(),
{
    if a.len() > 0 && b.len() > 0 && c.len() > 0 {
        if a[0] == b[0] && b[0] == c[0] {
            lemma_lex_le_transitive(a.drop_first(), b.drop_first(), c.drop_first());
        }
    }
}

/// When two sequences agree on their first `i` characters, their order is
/// decided past that point.
proof fn lemma_lex_le_skip(a: Seq<char>, b: Seq<char>, i: int)
    requires
        0 <= i <= a.len(),
        i <= b.len(),
        forall|t: int| 0 <= t < i ==> a[t] == b[t],
    ensures
        lex_le(a, b) == lex_le(a.skip(i), b.skip(i)),
    decreases i,
{
    if i > 0 {
        assert(a.len() > 0 && b.len() > 0 && a[0] == b[0]);
        assert forall|t: int| 0 <= t < i - 1 implies a.drop_first()[t] == b.drop_first()[t] by {
            assert(a[t + 1] == b[t + 1]);
        }
        lemma_lex_le_skip(a.drop_first(), b.drop_first(), i - 1);
        assert(a.drop_first().skip(i - 1) =~= a.skip(i));
        assert(b.drop_first().skip(i - 1) =~= b.skip(i));
    } else {
        assert(a.skip(0) =~= a);
        assert(b.skip(0) =~= b);
    }
}

/// Decides the lexicographic order on two strings.
fn str_lex_le(a: &str, b: &str) -> (r: bool)
    ensures
        r == lex_le(a@, b@),
{
    let n1 = a.unicode_len();
    let n2 = b.unicode_len();
    let mut i: usize = 0;
    while i < n1 && i < n2
        invariant
            n1 == a@.len(),
            n2 == b@.len(),
            i <= n1,
            i <= n2,
            forall|t: int| 0 <= t < i ==> a@[t] == b@[t],
        decreases n1 - i,
    {
        let c1 = a.get_char(i);
        let c2 = b.get_char(i);
        if c1 != c2 {
            proof {
                lemma_lex_le_skip(a@, b@, i as int);
                assert(a@.skip(i as int)[0] == c1);
                assert(b@.skip(i as int)[0] == c2);
                vstd::utf8::char_u32_cast(c1, c1 as u32);
                vstd::utf8::char_u32_cast(c2, c2 as u32);
            }
            return (c1 as u32) < (c2 as u32);
        }
        i = i + 1;
    }
    proof {
        lemma_lex_le_skip(a@, b@, if i < n1 {
            n2 as int
        } else {
            i as int
        });
    }
    n1 <= n2
}

impl Elem for String {
    type M = Seq<char>;

    open spec fn m(&self) -> Seq<char> {
        self@
    }

    open spec fn na_m() -> Seq<char> {
        Seq::empty()
    }

    open spec fn le_m(a: Seq<char>, b: Seq<char>) -> bool {
        lex_le(a, b)
    }

    proof fn le_m_reflexive(a: Seq<char>) {
        lemma_lex_le_reflexive(a);
    }

    proof fn le_m_transitive(a: Seq<char>, b: Seq<char>, c: Seq<char>) {
        lemma_lex_le_transitive(a, b, c);
    }

    proof fn le_m_antisymmetric(a: Seq<char>, b: Seq<char>) {
        lemma_lex_le_antisymmetric(a, b);
    }

    proof fn le_m_total(a: Seq<char>, b: Seq<char>) {
        lemma_lex_le_total(a, b);
    }

    fn na() -> String {
        String::new()
    }

    fn eq_elem(&self, other: &Self) -> bool {
        *self == *other
    }

    fn le_elem(&self, other: &Self) -> bool {
        str_lex_le(self.as_str(), other.as_str())
    }

    fn clone_elem(&self) -> String {
        self.clone()
    }
}

/// Relies on String::push: appends exactly one character at the end.
#[verifier::external_body]
fn string_push(s: &mut String, c: char)
    ensures
        final(s)@ == old(s)@.push(c),
{
    s.push(c)
}

/// Builds a string out of a buffer of characters.
fn chars_to_string(v: &Vec<char>) -> (r: String)
    ensures
        r@ == v@,
{
    let n = v.len();
    let mut r = String::new();
    let mut i: usize = 0;
    while i < n
        invariant
            n == v@.len(),
            i <= n,
            r@ == v@.take(i as int),
        decreases n - i,
    {
        string_push(&mut r, v[i]);
        proof {
            assert(r@ =~= v@.take(i + 1));
        }
        i = i + 1;
    }
    proof {
        assert(v@.take(n as int) =~= v@);
    }
    r
}

/// The character of one decimal digit.
pub open spec fn digit_char(d: nat) -> char {
    if d == 0 {
        '0'
    } else if d == 1 {
        '1'
    } else if d == 2 {
        '2'
    } else if d == 3 {
        '3'
    } else if d == 4 {
        '4'
    } else if d == 5 {
        '5'
    } else if d == 6 {
        '6'
    } else if d == 7 {
        '7'
    } else if d == 8 {
        '8'
    } else {
        '9'
    }
}

/// The canonical decimal digits of a natural number, most significant
/// first, without leading zeros.
pub open spec fn dec_digits(n: nat) -> Seq<char>
    decreases n,
{
    if n < 10 {
        seq![digit_char(n)]
    } else {
        dec_digits(n / 10).push(digit_char(n % 10))
    }
}

/// The canonical decimal text of an integer: a minus sign for negative
/// values, then the digits.
pub open spec fn dec_str(v: int) -> Seq<char> {
    if v < 0 {
        seq!['-'] + dec_digits((-v) as nat)
    } else {
        dec_digits(v as nat)
    }
}

fn digit_to_char(d: u64) -> (r: char)
    requires
        d < 10,
    ensures
        r == digit_char(d as nat),
{
    if d == 0 {
        '0'
    } else if d == 1 {
        '1'
    } else if d == 2 {
        '2'
    } else if d == 3 {
        '3'
    } else if d == 4 {
        '4'
    } else if d == 5 {
        '5'
    } else if d == 6 {
        '6'
    } else if d == 7 {
        '7'
    } else if d == 8 {
        '8'
    } else {
        '9'
    }
}

/// The decimal digits of a natural number, as characters.
fn u64_dec_digits(u: u64) -> (r: Vec<char>)
    ensures
        r@ == dec_digits(u as nat),
{
    let ghost orig = u as nat;
    let mut acc: Vec<char> = Vec::new();
    let mut x: u64 = u;
    proof {
        assert(acc@.reverse() =~= Seq::<char>::empty());
        assert(dec_digits(x as nat) + acc@.reverse() =~= dec_digits(orig));
    }
    while x >= 10
        invariant
            dec_digits(orig) == dec_digits(x as nat) + acc@.reverse(),
        decreases x,
    {
        let ghost pre = acc@;
        let ghost xpre = x as nat;
        let d = x % 10;
        acc.push(digit_to_char(d));
        x = x / 10;
        proof {
            assert(dec_digits(xpre) == dec_digits(x as nat).push(digit_char(d as nat)));
            assert(acc@.reverse() =~= seq![digit_char(d as nat)] + pre.reverse());
            assert(dec_digits(x as nat) + acc@.reverse() =~= (dec_digits(x as nat).push(
                digit_char(d as nat),
            )) + pre.reverse());
            assert(dec_digits(orig) == dec_digits(x as nat) + acc@.reverse());
        }
    }
    let ghost pre = acc@;
    acc.push(digit_to_char(x));
    proof {
        assert(acc@.reverse() =~= seq![digit_char(x as nat)] + pre.reverse());
        assert(dec_digits(x as nat) + pre.reverse() =~= acc@.reverse());
        assert(dec_digits(orig) == acc@.reverse());
    }
    let n = acc.len();
    let mut r: Vec<char> = Vec::new();
    let mut i: usize = n;
    while i > 0
        invariant
            n == acc@.len(),
            i <= n,
            r@ == acc@.reverse().take((n - i) as int),
        decreases i,
    {
        i = i - 1;
        r.push(acc[i]);
        proof {
            assert(acc@.reverse()[(n - i - 1) as int] == acc@[i as int]);
            assert(r@ =~= acc@.reverse().take((n - i) as int));
        }
    }
    proof {
        assert(acc@.reverse().take(n as int) =~= acc@.reverse());
    }
    r
}

/// The canonical decimal text of an integer.
pub fn i64_to_dec_string(v: i64) -> (r: String)
    ensures
        r@ == dec_str(v as int),
{
    if v >= 0 {
        let digs = u64_dec_digits(v as u64);
        chars_to_string(&digs)
    } else {
        let wide: i128 = v as i128;
        let mag: u64 = (-wide) as u64;
        proof {
            assert(mag as int == -(v as int));
        }
        let digs = u64_dec_digits(mag);
        let mut r = String::new();
        string_push(&mut r, '-');
        let n = digs.len();
        let mut i: usize = 0;
        while i < n
            invariant
                n == digs@.len(),
                i <= n,
                r@ == seq!['-'] + digs@.take(i as int),
            decreases n - i,
        {
            string_push(&mut r, digs[i]);
            proof {
                assert(r@ =~= seq!['-'] + digs@.take(i + 1));
            }
            i = i + 1;
        }
        proof {
            assert(digs@.take(n as int) =~= digs@);
        }
        r
    }
}

/// Whether a character is a decimal digit.
pub open spec fn is_digit(c: char) -> bool {
    48 <= c as int <= 57
}

/// The value of one decimal digit character.
pub open spec fn digit_val(c: char) -> int {
    c as int - 48
}

/// The value of a run of decimal digit characters.
pub open spec fn digits_val(s: Seq<char>) -> int
    decreases s.len(),
{
    if s.len() == 0 {
        0
    } else {
        digits_val(s.drop_last()) * 10 + digit_val(s.last())
    }
}

/// Whether a character sequence is integer text: an optional single sign,
/// then one or more decimal digits and nothing else.
pub open spec fn is_int_text(s: Seq<char>) -> bool {
    if s.len() == 0 {
        false
    } else if s[0] == '-' || s[0] == '+' {
        s.len() >= 2 && forall|t: int| 1 <= t < s.len() ==> is_digit(#[trigger] s[t])
    } else {
        forall|t: int| 0 <= t < s.len() ==> is_digit(#[trigger] s[t])
    }
}

/// The integer an integer text denotes.
pub open spec fn int_text_val(s: Seq<char>) -> int {
    if s.len() > 0 && s[0] == '-' {
        -digits_val(s.skip(1))
    } else if s.len() > 0 && s[0] == '+' {
        digits_val(s.skip(1))
    } else {
        digits_val(s)
    }
}

proof fn lemma_digits_val_nonneg(s: Seq<char>)
    requires
        forall|t: int| 0 <= t < s.len() ==> is_digit(#[trigger] s[t]),
    ensures
        digits_val(s) >= 0,
    decreases s.len(),
{
    if s.len() > 0 {
        assert forall|t: int| 0 <= t < s.len() - 1 implies is_digit(
            #[trigger] s.drop_last()[t],
        ) by {
            assert(s[t] == s.drop_last()[t]);
        }
        lemma_digits_val_nonneg(s.drop_last());
    }
}

/// With every character a digit, a prefix never denotes more than the whole.
proof fn lemma_digits_val_prefix(s: Seq<char>, k: int)
    requires
        forall|t: int| 0 <= t < s.len() ==> is_digit(#[trigger] s[t]),
        0 <= k <= s.len(),
    ensures
        digits_val(s.take(k)) <= digits_val(s),
    decreases s.len() - k,
{
    if k == s.len() {
        assert(s.take(k) =~= s);
    } else {
        assert forall|t: int| 0 <= t < k implies is_digit(#[trigger] s.take(k)[t]) by {
            assert(s.take(k)[t] == s[t]);
        }
        lemma_digits_val_nonneg(s.take(k));
        assert(s.take(k + 1).drop_last() =~= s.take(k));
        assert(s.take(k + 1).last() == s[k]);
        assert(digits_val(s.take(k + 1)) == digits_val(s.take(k)) * 10 + digit_val(s[k]));
        assert(digits_val(s.take(k)) * 10 >= digits_val(s.take(k))) by (nonlinear_arith)
            requires
                digits_val(s.take(k)) >= 0,
        ;
        lemma_digits_val_prefix(s, k + 1);
    }
}

/// Parses integer text into a sign and a magnitude. Fails with `ParseError`
/// when the text is not integer text or its magnitude does not fit the
/// machine word.
fn parse_int_text(s: &str) -> (r: Result<(bool, u64), crate::UListError>)
    ensures
        match r {
            Ok((neg, mag)) => is_int_text(s@) && int_text_val(s@) == (if neg {
                -(mag as int)
            } else {
                mag as int
            }),
            Err(e) => e == crate::UListError::ParseError && (!is_int_text(s@) || int_text_val(s@)
                > u64::MAX as int || int_text_val(s@) < -(u64::MAX as int)),
        },
{
    let n = s.unicode_len();
    if n == 0 {
        return Err(crate::UListError::ParseError);
    }
    let c0 = s.get_char(0);
    let neg = c0 == '-';
    let signed = neg || c0 == '+';
    let start: usize = if signed {
        1
    } else {
        0
    };
    if signed && n == 1 {
        return Err(crate::UListError::ParseError);
    }
    let ghost digits = s@.skip(start as int);
    let mut mag: u64 = 0;
    let mut i: usize = start;
    proof {
        assert(s@.subrange(start as int, start as int) =~= Seq::<char>::empty());
    }
    while i < n
        invariant
            n == s@.len(),
            start <= i <= n,
            start <= 1,
            n > start,
            signed == (s@[0] == '-' || s@[0] == '+'),
            (start == 1) == signed,
            digits == s@.skip(start as int),
            forall|t: int| start <= t < i ==> is_digit(#[trigger] s@[t]),
            mag as int == digits_val(s@.subrange(start as int, i as int)),
        decreases n - i,
    {
        let c = s.get_char(i);
        let cv = c as u32;
        if cv < 48 || cv > 57 {
            proof {
                assert(!is_digit(s@[i as int]));
                assert(!is_int_text(s@));
            }
            return Err(crate::UListError::ParseError);
        }
        let d = (cv - 48) as u64;
        proof {
            assert(is_digit(s@[i as int]));
            assert(d as int == digit_val(s@[i as int]));
        }
        if mag > (u64::MAX - d) / 10 {
            proof {
                let pre = s@.subrange(start as int, i as int);
                assert(mag as int * 10 + d as int > u64::MAX as int) by (nonlinear_arith)
                    requires
                        mag as int > (u64::MAX as int - d as int) / 10,
                        0 <= d as int <= 9,
                        mag as int >= 0,
                ;
                if is_int_text(s@) {
                    assert forall|t: int| 0 <= t < digits.len() implies is_digit(
                        #[trigger] digits[t],
                    ) by {
                        assert(digits[t] == s@[t + start]);
                    }
                    assert(digits.take(i - start + 1).drop_last() =~= digits.take(i - start));
                    assert(digits.take(i - start) =~= s@.subrange(start as int, i as int));
                    assert(digits.take(i - start + 1).last() == s@[i as int]);
                    assert(digits_val(digits.take(i - start + 1)) == mag as int * 10 + d as int);
                    lemma_digits_val_prefix(digits, i - start + 1);
                    assert(digits_val(digits) > u64::MAX as int);
                    assert(s@.skip(0) =~= s@);
                    if s@[0] == '-' {
                        assert(int_text_val(s@) == -digits_val(s@.skip(1)));
                        assert(s@.skip(1) == digits);
                    } else if s@[0] == '+' {
                        assert(int_text_val(s@) == digits_val(s@.skip(1)));
                        assert(s@.skip(1) == digits);
                    } else {
                        assert(int_text_val(s@) == digits_val(digits));
                    }
                    assert(int_text_val(s@) > u64::MAX as int || int_text_val(s@) < -(
                    u64::MAX as int));
                }
            }
            return Err(crate::UListError::ParseError);
        }
        proof {
            assert(mag as int * 10 + d as int <= u64::MAX as int) by (nonlinear_arith)
                requires
                    mag as int <= (u64::MAX as int - d as int) / 10,
                    0 <= d as int <= 9,
                    mag as int >= 0,
            ;
            assert(s@.subrange(start as int, i + 1).drop_last() =~= s@.subrange(
                start as int,
                i as int,
            ));
            assert(s@.subrange(start as int, i + 1).last() == s@[i as int]);
        }
        mag = mag * 10 + d;
        i = i + 1;
    }
    proof {
        assert(s@.subrange(start as int, n as int) =~= digits);
        assert(is_int_text(s@));
        assert(mag as int == digits_val(digits));
        assert(s@.skip(0) =~= s@);
        assert(neg == (s@[0] == '-'));
        if s@[0] == '-' || s@[0] == '+' {
            assert(s@.skip(1) == digits);
        } else {
            assert(digits == s@);
        }
    }
    Ok((neg, mag))
}

/// Parses the canonical integer text of a 64-bit value. Fails with
/// `ParseError` when the text is not integer text or the value does not fit.
pub fn parse_i64(s: &str) -> (r: Result<i64, crate::UListError>)
    ensures
        match r {
            Ok(v) => is_int_text(s@) && v as int == int_text_val(s@),
            Err(e) => e == crate::UListError::ParseError && (!is_int_text(s@) || int_text_val(s@)
                > i64::MAX as int || int_text_val(s@) < i64::MIN as int),
        },
{
    match parse_int_text(s) {
        Err(e) => Err(e),
        Ok((neg, mag)) => {
            if neg {
                if mag <= 9223372036854775808u64 {
                    let wide: i128 = -(mag as i128);
                    Ok(wide as i64)
                } else {
                    Err(crate::UListError::ParseError)
                }
            } else {
                if mag <= 9223372036854775807u64 {
                    Ok(mag as i64)
                } else {
                    Err(crate::UListError::ParseError)
                }
            }
        }
    }
}

/// Parses the canonical integer text of a 32-bit value. Fails with
/// `ParseError` when the text is not integer text or the value does not fit.
pub fn parse_i32(s: &str) -> (r: Result<i32, crate::UListError>)
    ensures
        match r {
            Ok(v) => is_int_text(s@) && v as int == int_text_val(s@),
            Err(e) => e == crate::UListError::ParseError && (!is_int_text(s@) || int_text_val(s@)
                > i32::MAX as int || int_text_val(s@) < i32::MIN as int),
        },
{
    match parse_int_text(s) {
        Err(e) => Err(e),
        Ok((neg, mag)) => {
            if neg {
                if mag <= 2147483648u64 {
                    let wide: i64 = -(mag as i64);
                    Ok(wide as i32)
                } else {
                    Err(crate::UListError::ParseError)
                }
            } else {
                if mag <= 2147483647u64 {
                    Ok(mag as i32)
                } else {
                    Err(crate::UListError::ParseError)
                }
            }
        }
    }
}

/// The canonical text of a boolean.
pub open spec fn bool_text(b: bool) -> Seq<char> {
    if b {
        seq!['t', 'r', 'u', 'e']
    } else {
        seq!['f', 'a', 'l', 's', 'e']
    }
}

/// The boolean a text denotes, if it is exactly `true` or `false`.
pub open spec fn bool_text_val(s: Seq<char>) -> Option<bool> {
    if s == bool_text(true) {
        Some(true)
    } else if s == bool_text(false) {
        Some(false)
    } else {
        None
    }
}

/// Parses the canonical boolean text. Fails with `ParseError` on any other
/// text.
pub fn parse_bool(s: &str) -> (r: Result<bool, crate::UListError>)
    ensures
        match r {
            Ok(b) => bool_text_val(s@) == Some(b),
            Err(e) => e == crate::UListError::ParseError && bool_text_val(s@) is None,
        },
{
    let n = s.unicode_len();
    if n == 4 {
        if s.get_char(0) == 't' && s.get_char(1) == 'r' && s.get_char(2) == 'u' && s.get_char(3)
            == 'e' {
            proof {
                assert(s@ =~= bool_text(true));
            }
            Ok(true)
        } else {
            proof {
                assert(s@ != bool_text(true));
                assert(s@ != bool_text(false));
            }
            Err(crate::UListError::ParseError)
        }
    } else if n == 5 {
        if s.get_char(0) == 'f' && s.get_char(1) == 'a' && s.get_char(2) == 'l' && s.get_char(3)
            == 's' && s.get_char(4) == 'e' {
            proof {
                assert(s@ =~= bool_text(false));
            }
            Ok(false)
        } else {
            proof {
                assert(s@ != bool_text(true));
                assert(s@ != bool_text(false));
            }
            Err(crate::UListError::ParseError)
        }
    } else {
        Err(crate::UListError::ParseError)
    }
}

/// The canonical text of a boolean, as a string.
pub fn bool_to_string(b: bool) -> (r: String)
    ensures
        r@ == bool_text(b),
{
    if b {
        let r = String::from_str("true");
        proof {
            reveal_strlit("true");
            assert(r@ =~= bool_text(true));
        }
        r
    } else {
        let r = String::from_str("false");
        proof {
            reveal_strlit("false");
            assert(r@ =~= bool_text(false));
        }
        r
    }
}

/// Whether the needle occurs at the start of the haystack.
pub open spec fn has_prefix(h: Seq<char>, n: Seq<char>) -> bool {
    n.len() <= h.len() && h.take(n.len() as int) == n
}

/// Whether the needle occurs at the end of the haystack.
pub open spec fn has_suffix(h: Seq<char>, n: Seq<char>) -> bool {
    n.len() <= h.len() && h.skip(h.len() - n.len()) == n
}

/// Whether the needle occurs anywhere in the haystack.
pub open spec fn has_substring(h: Seq<char>, n: Seq<char>) -> bool {
    exists|k: int| 0 <= k <= h.len() - n.len() && #[trigger] h.subrange(k, k + n.len()) == n
}

/// Whether the needle matches the haystack at one offset.
fn str_match_at(h: &str, nd: &str, off: usize, hn: usize, nn: usize) -> (r: bool)
    requires
        hn == h@.len(),
        nn == nd@.len(),
        off + nn <= hn,
    ensures
        r == (h@.subrange(off as int, off + nd@.len()) == nd@),
{
    let mut t: usize = 0;
    while t < nn
        invariant
            hn == h@.len(),
            nn == nd@.len(),
            off + nn <= hn,
            t <= nn,
            forall|u: int| 0 <= u < t ==> h@[off + u] == nd@[u],
        decreases nn - t,
    {
        let c1 = h.get_char(off + t);
        let c2 = nd.get_char(t);
        if c1 != c2 {
            proof {
                assert(h@.subrange(off as int, off + nd@.len())[t as int] != nd@[t as int]);
            }
            return false;
        }
        t = t + 1;
    }
    proof {
        assert(h@.subrange(off as int, off + nd@.len()) =~= nd@);
    }
    true
}

/// Whether one string starts with another.
pub fn str_starts_with(h: &str, nd: &str) -> (r: bool)
    ensures
        r == has_prefix(h@, nd@),
{
    let hn = h.unicode_len();
    let nn = nd.unicode_len();
    if nn > hn {
        return false;
    }
    let r = str_match_at(h, nd, 0, hn, nn);
    proof {
        assert(h@.take(nd@.len() as int) == h@.subrange(0, nd@.len() as int));
    }
    r
}

/// Whether one string ends with another.
pub fn str_ends_with(h: &str, nd: &str) -> (r: bool)
    ensures
        r == has_suffix(h@, nd@),
{
    let hn = h.unicode_len();
    let nn = nd.unicode_len();
    if nn > hn {
        return false;
    }
    let r = str_match_at(h, nd, hn - nn, hn, nn);
    proof {
        assert(h@.skip(h@.len() - nd@.len()) =~= h@.subrange(
            h@.len() - nd@.len(),
            h@.len() - nd@.len() + nd@.len(),
        ));
    }
    r
}

/// Whether one string contains another.
pub fn str_contains(h: &str, nd: &str) -> (r: bool)
    ensures
        r == has_substring(h@, nd@),
{
    let hn = h.unicode_len();
    let nn = nd.unicode_len();
    if nn > hn {
        return false;
    }
    let mut k: usize = 0;
    while k < hn - nn
        invariant
            hn == h@.len(),
            nn == nd@.len(),
            nn <= hn,
            k <= hn - nn,
            forall|u: int| 0 <= u < k ==> #[trigger] h@.subrange(u, u + nd@.len()) != nd@,
        decreases hn - nn - k,
    {
        if str_match_at(h, nd, k, hn, nn) {
            return true;
        }
        k = k + 1;
    }
    if str_match_at(h, nd, k, hn, nn) {
        return true;
    }
    false
}
} // verus!
