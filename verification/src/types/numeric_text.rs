//! Reading back the text of a NUMERIC value.

use vstd::prelude::*;

use crate::types::numeric::{
    NumericScan, Numeric, encode_signed, magnitude, numeric_body, numeric_scan, numeric_text, pow10,
    scaled_value, signed_value, spec_numeric_input, zero_pad,
};
use crate::types::{InputError, Tag, Type};
use crate::util::decimal::{
    all_digits, digit_value, digits_value, int_to_decimal, is_digit, is_negative, lemma_nat_to_decimal_digits,
    nat_to_decimal, unsigned_part,
};
use crate::util::strings::{is_white_space, spec_trim, trim_end, trim_start};

verus! {

/// Reading digits alone gives their value, with no point.
proof fn lemma_scan_digits(d: Seq<char>)
    requires
        all_digits(d),
    ensures
        numeric_scan(d) == (NumericScan {
            valid: true,
            value: digits_value(d) as int,
            decimals: 0,
            fraction: false,
            digit: d.len() > 0,
        }),
    decreases d.len(),
{
    if d.len() > 0 {
        assert(all_digits(d.drop_last()));
        lemma_scan_digits(d.drop_last());
        assert(is_digit(d.last()));
    }
}

/// Reading digits, a point and more digits gives the value of all the digits
/// and the number of digits after the point.
proof fn lemma_scan_fraction(a: Seq<char>, b: Seq<char>)
    requires
        all_digits(a),
        all_digits(b),
    ensures
        numeric_scan(a + seq!['.'] + b) == (NumericScan {
            valid: true,
            value: (digits_value(a) * pow10(b.len()) + digits_value(b)) as int,
            decimals: b.len(),
            fraction: true,
            digit: a.len() > 0 || b.len() > 0,
        }),
    decreases b.len(),
{
    let full = a + seq!['.'] + b;
    if b.len() == 0 {
        lemma_scan_digits(a);
        assert(full.drop_last() =~= a);
        assert(full.last() == '.');
        assert(pow10(0) == 1);
        assert(digits_value(b) == 0);
        assert(!is_digit('.'));
        let x = digits_value(a);
        assert(x * pow10(b.len()) == x) by (nonlinear_arith)
            requires
                pow10(b.len()) == 1,
        ;
        assert(numeric_scan(full).value == (digits_value(a) * pow10(b.len()) + digits_value(b)) as int);
        assert(numeric_scan(full).decimals == 0);
        assert(numeric_scan(full).fraction);
        assert(numeric_scan(full).valid);
    } else {
        let b0 = b.drop_last();
        assert(all_digits(b0));
        lemma_scan_fraction(a, b0);
        assert(full.drop_last() =~= a + seq!['.'] + b0);
        assert(full.last() == b.last());
        assert(is_digit(b.last()));
        let x: int = digits_value(a) as int;
        let y: int = digits_value(b0) as int;
        let p: int = pow10(b0.len()) as int;
        let dv: int = digit_value(b.last()) as int;
        let pr = numeric_scan(full.drop_last());
        assert(pr.value == x * p + y);
        assert(numeric_scan(full).value == pr.value * 10 + dv);
        assert(pow10(b.len()) == 10 * pow10(b0.len()));
        assert(digits_value(b) == digits_value(b0) * 10 + digit_value(b.last()));
        assert((x * p + y) * 10 + dv == x * (10 * p) + (y * 10 + dv)) by (nonlinear_arith);
        let q: int = pow10(b.len()) as int;
        assert(q == 10 * p);
        assert(x * q == x * (10 * p)) by (nonlinear_arith)
            requires
                q == 10 * p,
        ;
        assert(numeric_scan(full).value == (digits_value(a) * pow10(b.len()) + digits_value(b)) as int);
    }
}

/// Splitting digits at `k`: the value of the first part shifted by the
/// length of the second, plus the value of the second.
proof fn lemma_digits_split(d: Seq<char>, k: int)
    requires
        0 <= k <= d.len(),
    ensures
        digits_value(d.take(k)) * pow10((d.len() - k) as nat) + digits_value(d.skip(k)) == digits_value(d),
    decreases d.len(),
{
    if k == d.len() {
        assert(d.take(k) =~= d);
        assert(d.skip(k) =~= Seq::<char>::empty());
        assert(pow10(0) == 1);
        assert(digits_value(d.skip(k)) == 0);
        let x = digits_value(d);
        assert(x * pow10((d.len() - k) as nat) == x) by (nonlinear_arith)
            requires
                pow10((d.len() - k) as nat) == 1,
        ;
    } else {
        let d0 = d.drop_last();
        lemma_digits_split(d0, k);
        assert(d0.take(k) =~= d.take(k));
        assert(d.skip(k).drop_last() =~= d0.skip(k));
        assert(d.skip(k).last() == d.last());
        let x: int = digits_value(d.take(k)) as int;
        let y: int = digits_value(d0.skip(k)) as int;
        let p: int = pow10((d0.len() - k) as nat) as int;
        let dv: int = digit_value(d.last()) as int;
        assert(x * p + y == digits_value(d0));
        assert(pow10((d.len() - k) as nat) == 10 * pow10((d0.len() - k) as nat));
        assert(digits_value(d) == digits_value(d0) * 10 + digit_value(d.last()));
        assert(digits_value(d.skip(k)) == digits_value(d0.skip(k)) * 10 + digit_value(d.last()));
        assert((x * p + y) * 10 + dv == x * (10 * p) + (y * 10 + dv)) by (nonlinear_arith);
        let q: int = pow10((d.len() - k) as nat) as int;
        assert(q == 10 * p);
        assert(x * q == x * (10 * p)) by (nonlinear_arith)
            requires
                q == 10 * p,
        ;
        assert(x * q + (y * 10 + dv) == digits_value(d));
    }
}

/// Leading zeros add nothing to the value.
proof fn lemma_zeros_value(z: Seq<char>, d: Seq<char>)
    requires
        forall|i: int| 0 <= i < z.len() ==> z[i] == '0',
    ensures
        digits_value(z + d) == digits_value(d),
    decreases d.len() + z.len(),
{
    if d.len() > 0 {
        lemma_zeros_value(z, d.drop_last());
        assert((z + d).drop_last() =~= z + d.drop_last());
        assert((z + d).last() == d.last());
    } else if z.len() > 0 {
        lemma_zeros_value(z.drop_last(), d);
        assert((z + d).drop_last() =~= z.drop_last() + d);
        assert((z + d).last() == '0');
        assert(z + d =~= z);
    } else {
        assert(z + d =~= d);
    }
}

/// A number below `10^s` has at most `s` digits.
proof fn lemma_decimal_len(n: nat, s: nat)
    requires
        s >= 1,
        n < pow10(s),
    ensures
        nat_to_decimal(n).len() <= s,
    decreases n,
{
    if n >= 10 {
        assert(s >= 2) by {
            if s == 1 {
                reveal_with_fuel(pow10, 2);
            }
        }
        assert(pow10(s) == 10 * pow10((s - 1) as nat));
        assert(n / 10 < pow10((s - 1) as nat));
        lemma_decimal_len(n / 10, (s - 1) as nat);
    }
}

/// A text that starts and ends with a character that is not whitespace is
/// its own trimmed text.
proof fn lemma_trim_plain(t: Seq<char>)
    requires
        t.len() > 0,
        !is_white_space(t[0]),
        !is_white_space(t.last()),
    ensures
        spec_trim(t) == t,
{
    assert(trim_start(t) == t);
    assert(trim_end(t) == t);
}

/// Reading the text that `Numeric::output` writes for a value of the type
/// gives the value back.
#[verifier::rlimit(40)]
pub proof fn law_numeric_output_input(v: u64, ty: Type)
    requires
        ty.has_valid_tag(),
        ty.spec_tag() == Tag::Numeric,
        ty.spec_scale() <= 18,
        magnitude(v) < pow10(ty.spec_precision() as nat),
    ensures
        spec_numeric_input(numeric_text(v, ty.spec_precision() as nat, ty.spec_scale() as nat), ty) == Ok::<
            Numeric,
            InputError,
        >(Numeric { value: v }),
{
    let p = ty.spec_precision() as nat;
    let s = ty.spec_scale() as nat;
    let m = magnitude(v);
    let d = nat_to_decimal(m);
    lemma_nat_to_decimal_digits(m);
    let neg = signed_value(v) < 0;
    let sign = if neg {
        seq!['-']
    } else {
        Seq::<char>::empty()
    };
    let text = numeric_text(v, p, s);
    let body: Seq<char> = if s == 0 {
        d
    } else if s >= p || m < pow10(s) {
        seq!['0', '.'] + zero_pad(d, s)
    } else {
        d.take(d.len() - s) + seq!['.'] + d.skip(d.len() - s)
    };
    // The text is the sign and the body, which starts and ends with a digit.
    assert(text =~= sign + body);
    assert(body.len() > 0 && (is_digit(body[0]) || body[0] == '.') && is_digit(body.last())) by {
        if s != 0 {
            if s >= p || m < pow10(s) {
                assert(zero_pad(d, s).len() > 0);
                assert(body.last() == zero_pad(d, s).last());
                if d.len() < s {
                    assert(zero_pad(d, s).last() == d.last());
                }
            } else {
                crate::types::numeric::lemma_decimal_len_above(m, s);
                assert(d.skip(d.len() - s).len() > 0);
                assert(body.last() == d.last());
                if d.len() - s > 0 {
                    assert(body[0] == d[0]);
                }
            }
        }
    }
    assert(text[0] == (if neg { '-' } else { body[0] }));
    assert(text.last() == body.last());
    lemma_trim_plain(text);
    assert(unsigned_part(text) =~= body);
    assert(numeric_body(text) == body);
    assert(is_negative(text) == neg);
    // Reading the body gives the magnitude at the scale of the type.
    if s == 0 {
        lemma_scan_digits(d);
        assert(pow10(0) == 1);
        assert(scaled_value(m as int, 0, 0) == m);
    } else if s >= p || m < pow10(s) {
        // The magnitude has at most `s` digits.
        assert(d.len() <= s) by {
            if s >= p {
                crate::types::numeric::lemma_pow10_monotone(p, s);
                lemma_decimal_len(m, s);
            } else {
                lemma_decimal_len(m, s);
            }
        }
        let zp = zero_pad(d, s);
        let z = Seq::new((s - d.len()) as nat, |i: int| '0');
        if d.len() < s {
            assert(zp == z + d);
            lemma_zeros_value(z, d);
            assert(all_digits(zp)) by {
                assert forall|i: int| 0 <= i < zp.len() implies is_digit(#[trigger] zp[i]) by {
                    if i >= z.len() {
                        assert(zp[i] == d[i - z.len()]);
                    }
                }
            }
        }
        assert(zp.len() == s);
        assert(digits_value(zp) == m);
        assert(all_digits(seq!['0']));
        assert(digits_value(seq!['0']) == 0) by {
            let z = seq!['0'];
            assert(z.len() == 1);
            assert(z.drop_last() =~= Seq::<char>::empty());
            assert(z.last() == '0');
            assert(digits_value(Seq::<char>::empty()) == 0);
            assert(digit_value('0') == 0);
        }
        lemma_scan_fraction(seq!['0'], zp);
        assert(seq!['0', '.'] + zp =~= seq!['0'] + seq!['.'] + zp);
        assert(pow10((s - s) as nat) == 1);
        assert(scaled_value(m as int, s, s) == m);
    } else {
        crate::types::numeric::lemma_decimal_len_above(m, s);
        let k = d.len() - s;
        assert(all_digits(d.take(k)));
        assert(all_digits(d.skip(k)));
        lemma_scan_fraction(d.take(k), d.skip(k));
        lemma_digits_split(d, k);
        assert(pow10((s - s) as nat) == 1);
        assert(scaled_value(m as int, s, s) == m);
    }
    // The sign brings back the two's complement value.
    if neg {
        assert(vstd::wrapping::u64_specs::wrapping_sub(0, m as u64) == v);
    }
}

/// Reading the decimal text of an integer as a NUMERIC gives the integer at
/// the scale of the type, or an overflow where its magnitude at that scale
/// reaches `10^precision`.
pub proof fn lemma_integer_text_input(v: int, ty: Type)
    requires
        i64::MIN < v <= i64::MAX,
        ty.spec_precision() <= 18,
    ensures
        spec_numeric_input(int_to_decimal(v), ty) == if (if v < 0 { -v } else { v }) * pow10(
            ty.spec_scale() as nat,
        ) >= pow10(ty.spec_precision() as nat) {
            Err::<Numeric, InputError>(
                InputError::NumericOverflow { precision: ty.spec_precision(), scale: ty.spec_scale() },
            )
        } else {
            Ok(Numeric { value: encode_signed(v * pow10(ty.spec_scale() as nat)) })
        },
{
    let m: nat = (if v < 0 { -v } else { v }) as nat;
    let d = nat_to_decimal(m);
    lemma_nat_to_decimal_digits(m);
    let text = int_to_decimal(v);
    let sign = if v < 0 {
        seq!['-']
    } else {
        Seq::<char>::empty()
    };
    assert(text =~= sign + d);
    assert(is_digit(d[0]));
    assert(is_digit(d.last()));
    assert(text[0] == (if v < 0 { '-' } else { d[0] }));
    assert(text.last() == d.last());
    lemma_trim_plain(text);
    assert(unsigned_part(text) =~= d);
    assert(numeric_body(text) == d);
    assert(is_negative(text) == (v < 0));
    lemma_scan_digits(d);
    let s = ty.spec_scale() as nat;
    assert(pow10((s - 0) as nat) == pow10(s));
    assert(scaled_value(m as int, 0, s) == m * pow10(s));
    let w = m * pow10(s);
    if w < pow10(ty.spec_precision() as nat) {
        crate::types::numeric::lemma_pow10_monotone(ty.spec_precision() as nat, 18);
        assert(pow10(18) == 1000000000000000000) by {
            reveal_with_fuel(pow10, 19);
        }
        if v < 0 {
            assert(v * pow10(s) == -(m * pow10(s))) by (nonlinear_arith)
                requires
                    m == -v,
            ;
        } else {
            assert(v * pow10(s) == m * pow10(s));
        }
    }
}

} // verus!
