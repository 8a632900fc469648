//! Decimal text of integers and the integer grammar of `str::parse`.

use vstd::prelude::*;

verus! {

/// The character of a decimal digit.
pub open spec fn digit_char(d: int) -> char {
    (d + 48) as char
}

/// The decimal text of a natural number, without sign or leading zeros.
pub open spec fn nat_to_decimal(n: nat) -> Seq<char>
    decreases n,
{
    if n < 10 {
        seq![digit_char(n as int)]
    } else {
        nat_to_decimal(n / 10).push(digit_char((n % 10) as int))
    }
}

/// The decimal text of an integer, with a leading '-' when it is negative.
pub open spec fn int_to_decimal(i: int) -> Seq<char> {
    if i < 0 {
        seq!['-'] + nat_to_decimal((-i) as nat)
    } else {
        nat_to_decimal(i as nat)
    }
}

/// The text of one decimal digit.
fn digit_str(d: u64) -> (s: &'static str)
    requires
        d < 10,
    ensures
        s@ == seq![digit_char(d as int)],
{
    if d == 0 {
        proof { reveal_strlit("0"); }
        assert("0"@ =~= seq!['0']);
        "0"
    } else if d == 1 {
        proof { reveal_strlit("1"); }
        assert("1"@ =~= seq!['1']);
        "1"
    } else if d == 2 {
        proof { reveal_strlit("2"); }
        assert("2"@ =~= seq!['2']);
        "2"
    } else if d == 3 {
        proof { reveal_strlit("3"); }
        assert("3"@ =~= seq!['3']);
        "3"
    } else if d == 4 {
        proof { reveal_strlit("4"); }
        assert("4"@ =~= seq!['4']);
        "4"
    } else if d == 5 {
        proof { reveal_strlit("5"); }
        assert("5"@ =~= seq!['5']);
        "5"
    } else if d == 6 {
        proof { reveal_strlit("6"); }
        assert("6"@ =~= seq!['6']);
        "6"
    } else if d == 7 {
        proof { reveal_strlit("7"); }
        assert("7"@ =~= seq!['7']);
        "7"
    } else if d == 8 {
        proof { reveal_strlit("8"); }
        assert("8"@ =~= seq!['8']);
        "8"
    } else {
        proof { reveal_strlit("9"); }
        assert("9"@ =~= seq!['9']);
        "9"
    }
}

/// Appends the decimal text of `n` to `out`.
pub fn push_u64(out: &mut String, n: u64)
    ensures
        final(out)@ == old(out)@ + nat_to_decimal(n as nat),
    decreases n,
{
    if n >= 10 {
        push_u64(out, n / 10);
    }
    out.append(digit_str(n % 10));
    assert(old(out)@ + nat_to_decimal(n as nat) =~= if n >= 10 {
        old(out)@ + nat_to_decimal((n / 10) as nat) + seq![digit_char((n % 10) as int)]
    } else {
        old(out)@ + seq![digit_char((n % 10) as int)]
    });
}

/// The magnitude of a signed integer, as an unsigned integer.
pub fn magnitude_i64(v: i64) -> (m: u64)
    ensures
        m as int == if v < 0 { -(v as int) } else { v as int },
{
    if v < 0 {
        let w: i128 = -(v as i128);
        w as u64
    } else {
        v as u64
    }
}

/// Appends the decimal text of `v` to `out`.
pub fn push_i64(out: &mut String, v: i64)
    ensures
        final(out)@ == old(out)@ + int_to_decimal(v as int),
{
    if v < 0 {
        proof { reveal_strlit("-"); }
        out.append("-");
        let m = magnitude_i64(v);
        push_u64(out, m);
        assert(old(out)@ + int_to_decimal(v as int) =~= old(out)@ + "-"@ + nat_to_decimal(m as nat));
    } else {
        push_u64(out, v as u64);
    }
}

/// The decimal text of `n`.
pub fn u64_to_string(n: u64) -> (s: String)
    ensures
        s@ == nat_to_decimal(n as nat),
{
    let mut s = String::new();
    push_u64(&mut s, n);
    assert(s@ =~= nat_to_decimal(n as nat));
    s
}

/// The decimal text of `v`.
pub fn i64_to_string(v: i64) -> (s: String)
    ensures
        s@ == int_to_decimal(v as int),
{
    let mut s = String::new();
    push_i64(&mut s, v);
    assert(s@ =~= int_to_decimal(v as int));
    s
}

/// The decimal text of a natural number is made of digits and is never empty.
pub proof fn lemma_nat_to_decimal_digits(n: nat)
    ensures
        nat_to_decimal(n).len() >= 1,
        all_digits(nat_to_decimal(n)),
        digits_value(nat_to_decimal(n)) == n,
    decreases n,
{
    let k = (n % 10) as int;
    assert(digit_char(k) as int == k + 48);
    assert(digit_value(digit_char(k)) == k);
    if n >= 10 {
        lemma_nat_to_decimal_digits(n / 10);
        let s = nat_to_decimal(n);
        assert(s.drop_last() =~= nat_to_decimal(n / 10));
        assert(s.last() == digit_char(k));
        assert(digits_value(s) == digits_value(s.drop_last()) * 10 + digit_value(s.last()));
        vstd::arithmetic::div_mod::lemma_fundamental_div_mod(n as int, 10);
        assert forall|i: int| 0 <= i < s.len() implies is_digit(#[trigger] s[i]) by {
            if i < s.len() - 1 {
                assert(s[i] == s.drop_last()[i]);
            }
        }
    } else {
        assert(k == n);
        let s = nat_to_decimal(n);
        assert(s.drop_last() =~= Seq::<char>::empty());
        assert(digits_value(s.drop_last()) == 0);
        assert(s.last() == digit_char(k));
        assert(digits_value(s) == digits_value(s.drop_last()) * 10 + digit_value(s.last()));
    }
}

/// Is the character an ASCII decimal digit?
pub open spec fn is_digit(c: char) -> bool {
    '0' <= c && c <= '9'
}

/// The value of a decimal digit character.
pub open spec fn digit_value(c: char) -> nat {
    (c as int - 48) as nat
}

/// Are all characters decimal digits?
pub open spec fn all_digits(s: Seq<char>) -> bool {
    forall|i: int| 0 <= i < s.len() ==> is_digit(#[trigger] s[i])
}

/// The value of a string of decimal digits.
pub open spec fn digits_value(s: Seq<char>) -> nat
    decreases s.len(),
{
    if s.len() == 0 {
        0
    } else {
        digits_value(s.drop_last()) * 10 + digit_value(s.last())
    }
}

/// Does the text start with a sign?
pub open spec fn has_sign(s: Seq<char>) -> bool {
    s.len() > 0 && (s[0] == '+' || s[0] == '-')
}

/// Does the text start with a minus sign?
pub open spec fn is_negative(s: Seq<char>) -> bool {
    s.len() > 0 && s[0] == '-'
}

/// The text after an optional leading sign.
pub open spec fn unsigned_part(s: Seq<char>) -> Seq<char> {
    if has_sign(s) {
        s.drop_first()
    } else {
        s
    }
}

/// Is the text an optional sign followed by at least one digit and nothing else?
pub open spec fn is_integer_text(s: Seq<char>) -> bool {
    unsigned_part(s).len() > 0 && all_digits(unsigned_part(s))
}

/// The integer that an integer text denotes, or nothing when the text is not one.
pub open spec fn spec_parse_int(s: Seq<char>) -> Option<int> {
    if is_integer_text(s) {
        let v = digits_value(unsigned_part(s)) as int;
        Some(if is_negative(s) { -v } else { v })
    } else {
        None
    }
}

/// The decimal text of an integer reads back as the integer, and starts and
/// ends with a character that is not whitespace.
pub proof fn lemma_parse_int_decimal(i: int)
    ensures
        spec_parse_int(int_to_decimal(i)) == Some(i),
        int_to_decimal(i).len() > 0,
        !crate::util::strings::is_white_space(int_to_decimal(i)[0]),
        !crate::util::strings::is_white_space(int_to_decimal(i).last()),
{
    let s = int_to_decimal(i);
    let n: nat = if i < 0 {
        (-i) as nat
    } else {
        i as nat
    };
    let d = nat_to_decimal(n);
    lemma_nat_to_decimal_digits(n);
    assert(is_digit(d[0]));
    assert(is_digit(d.last()));
    if i < 0 {
        assert(s == seq!['-'] + d);
        assert(s.drop_first() =~= d);
        assert(s.last() == d.last());
    } else {
        assert(s == d);
    }
}

/// A prefix of a digit string has no greater value than the whole.
pub proof fn lemma_digits_value_prefix(s: Seq<char>, i: int)
    requires
        0 <= i <= s.len(),
        all_digits(s),
    ensures
        digits_value(s.take(i)) <= digits_value(s),
    decreases s.len() - i,
{
    if i < s.len() {
        lemma_digits_value_prefix(s, i + 1);
        assert(s.take(i + 1).drop_last() =~= s.take(i));
    } else {
        assert(s.take(i) =~= s);
    }
}

/// Reads an optional sign and a run of digits; gives the sign and the
/// magnitude when the text is an integer text whose magnitude fits in a `u64`.
pub fn parse_sign_magnitude(s: &str) -> (r: Option<(bool, u64)>)
    ensures
        r matches Some((neg, m)) ==> is_integer_text(s@) && neg == is_negative(s@) && m as nat
            == digits_value(unsigned_part(s@)),
        r is None ==> !is_integer_text(s@) || digits_value(unsigned_part(s@)) > u64::MAX,
{
    let n = s.unicode_len();
    if n == 0 {
        return None;
    }
    let first = s.get_char(0);
    let neg = first == '-';
    let start: usize = if first == '+' || first == '-' { 1 } else { 0 };
    if start >= n {
        assert(unsigned_part(s@).len() == 0);
        return None;
    }
    let ghost u = unsigned_part(s@);
    assert(u =~= s@.subrange(start as int, n as int));
    let mut m: u64 = 0;
    let mut i: usize = start;
    while i < n
        invariant
            start <= i <= n,
            n == s@.len(),
            u == s@.subrange(start as int, n as int),
            u == unsigned_part(s@),
            forall|j: int| 0 <= j < i - start ==> is_digit(#[trigger] u[j]),
            m as nat == digits_value(u.take(i - start)),
        decreases n - i,
    {
        let c = s.get_char(i);
        if !('0' <= c && c <= '9') {
            assert(u[i - start] == c);
            assert(!is_digit(u[i - start]));
            assert(!all_digits(u));
            return None;
        }
        let d: u64 = (c as u32 - 48) as u64;
        assert(digit_value(c) == d);
        assert(u.take(i + 1 - start).drop_last() =~= u.take(i - start));
        assert(u.take(i + 1 - start).last() == c);
        match m.checked_mul(10) {
            Some(m10) => match m10.checked_add(d) {
                Some(m2) => {
                    m = m2;
                },
                None => {
                    proof {
                        if all_digits(u) {
                            lemma_digits_value_prefix(u, i + 1 - start);
                        }
                    }
                    return None;
                },
            },
            None => {
                proof {
                    if all_digits(u) {
                        lemma_digits_value_prefix(u, i + 1 - start);
                    }
                }
                return None;
            },
        }
        i = i + 1;
    }
    assert(u.take(n - start) =~= u);
    Some((neg, m))
}

/// `str::parse::<i32>`: an optional sign and digits whose value fits in an `i32`.
pub fn parse_i32(s: &str) -> (r: Option<i32>)
    ensures
        r == (match spec_parse_int(s@) {
            Some(v) => if i32::MIN <= v <= i32::MAX { Some(v as i32) } else { None },
            None => None,
        }),
{
    match parse_sign_magnitude(s) {
        Some((neg, m)) => {
            if neg {
                if m <= 2147483648 {
                    let v: i64 = -(m as i64);
                    Some(v as i32)
                } else {
                    None
                }
            } else {
                if m <= 2147483647 {
                    Some(m as i32)
                } else {
                    None
                }
            }
        },
        None => None,
    }
}

/// `str::parse::<i64>`: an optional sign and digits whose value fits in an `i64`.
pub fn parse_i64(s: &str) -> (r: Option<i64>)
    ensures
        r == (match spec_parse_int(s@) {
            Some(v) => if i64::MIN <= v <= i64::MAX { Some(v as i64) } else { None },
            None => None,
        }),
{
    match parse_sign_magnitude(s) {
        Some((neg, m)) => {
            if neg {
                if m <= 9223372036854775808 {
                    let v: i128 = -(m as i128);
                    Some(v as i64)
                } else {
                    None
                }
            } else {
                if m <= 9223372036854775807 {
                    Some(m as i64)
                } else {
                    None
                }
            }
        },
        None => None,
    }
}

} // verus!
