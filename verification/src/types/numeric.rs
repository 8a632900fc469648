//! Fixed-precision decimal numbers, stored as a scaled 64-bit integer.

use vstd::prelude::*;

use crate::types::{InputError, Tag, Type};
use crate::util::decimal::{
    digit_value, is_digit, is_negative, nat_to_decimal, u64_to_string, unsigned_part,
};
use crate::util::io::Output;
use crate::util::strings::{spec_trim, trim};

verus! {

/// Maximum precision (total digits) supported by the NUMERIC type.
pub const MAX_PRECISION_NUMERIC: u32 = 18;

/// Maximum scale (digits after the decimal point) supported by the NUMERIC type.
pub const MAX_SCALE_NUMERIC: u16 = 18;

/// Ten to the power `n`.
pub open spec fn pow10(n: nat) -> nat
    decreases n,
{
    if n == 0 {
        1
    } else {
        10 * pow10((n - 1) as nat)
    }
}

/// Powers of ten grow with the exponent.
pub proof fn lemma_pow10_monotone(a: nat, b: nat)
    requires
        a <= b,
    ensures
        1 <= pow10(a) <= pow10(b),
    decreases b,
{
    if a == b {
        lemma_pow10_positive(a);
    } else {
        lemma_pow10_monotone(a, (b - 1) as nat);
    }
}

/// Powers of ten are positive.
pub proof fn lemma_pow10_positive(a: nat)
    ensures
        pow10(a) >= 1,
    decreases a,
{
    if a > 0 {
        lemma_pow10_positive((a - 1) as nat);
    }
}

/// `10^i` for `i <= 18` (the scaling table of the NUMERIC type).
pub fn numeric_shift(i: usize) -> (r: u64)
    requires
        i <= 18,
    ensures
        r == pow10(i as nat),
        r >= 1,
{
    proof {
        reveal_with_fuel(pow10, 19);
        lemma_pow10_positive(i as nat);
        lemma_pow10_monotone(i as nat, 18);
    }
    let mut r: u64 = 1;
    let mut k: usize = 0;
    while k < i
        invariant
            k <= i <= 18,
            r == pow10(k as nat),
            pow10(i as nat) <= 1000000000000000000,
        decreases i - k,
    {
        proof {
            lemma_pow10_monotone((k + 1) as nat, i as nat);
        }
        r = r * 10;
        k = k + 1;
    }
    r
}

/// Fixed-precision decimal number: the value times `10^scale` of its type.
#[derive(Copy, Clone, Debug, Eq, Hash, PartialEq, Structural)]
pub struct Numeric {
    /// Scaled integer representation of the decimal value (two's complement when negative)
    pub value: u64,
}

/// Operations supported by the Numeric type.
#[derive(Copy, Clone, Debug, PartialEq, Eq, Structural)]
pub enum NumericOp {
    Add,
    Sub,
    Mul,
}

/// The state of reading the digits and the point of a decimal text from left to right.
pub ghost struct NumericScan {
    /// No character other than digits and one point has been seen
    pub valid: bool,
    /// The value of the digits read before the reading stopped
    pub value: int,
    /// The number of digits read after the point
    pub decimals: nat,
    /// A point has been read
    pub fraction: bool,
    /// At least one digit has been read
    pub digit: bool,
}

/// Reads digits and at most one point; the reading stops at the first other
/// character (or a second point), which makes the text invalid.
pub open spec fn numeric_scan(t: Seq<char>) -> NumericScan
    decreases t.len(),
{
    if t.len() == 0 {
        NumericScan { valid: true, value: 0, decimals: 0, fraction: false, digit: false }
    } else {
        let p = numeric_scan(t.drop_last());
        let c = t.last();
        if !p.valid {
            p
        } else if is_digit(c) {
            NumericScan {
                valid: true,
                value: p.value * 10 + digit_value(c),
                decimals: if p.fraction { p.decimals + 1 } else { p.decimals },
                fraction: p.fraction,
                digit: true,
            }
        } else if c == '.' {
            if p.fraction {
                NumericScan { valid: false, ..p }
            } else {
                NumericScan { fraction: true, ..p }
            }
        } else {
            NumericScan { valid: false, ..p }
        }
    }
}

/// The text of a NUMERIC input after trimming and without its sign.
pub open spec fn numeric_body(s: Seq<char>) -> Seq<char> {
    unsigned_part(spec_trim(s))
}

/// The digits value brought to `scale` digits after the point, rounding half up.
pub open spec fn scaled_value(v: int, decimals: nat, scale: nat) -> int {
    if decimals <= scale {
        v * pow10((scale - decimals) as nat)
    } else {
        (v + pow10((decimals - scale) as nat) / 2) / (pow10((decimals - scale) as nat) as int)
    }
}

/// A NUMERIC type whose precision and scale the scaling table covers.
pub open spec fn numeric_type_ok(ty: Type) -> bool {
    &&& ty.has_valid_tag()
    &&& ty.spec_tag() == Tag::Numeric
    &&& ty.spec_precision() <= 18
    &&& ty.spec_scale() <= 18
}

/// What reading a text as a NUMERIC of the given type gives.
pub open spec fn spec_numeric_input(s: Seq<char>, ty: Type) -> Result<Numeric, InputError> {
    if spec_trim(s).len() == 0 {
        Err(InputError::InvalidNumeric)
    } else {
        let sc = numeric_scan(numeric_body(s));
        if !sc.valid || !sc.digit {
            Err(InputError::InvalidNumeric)
        } else {
            let v = scaled_value(sc.value, sc.decimals, ty.spec_scale() as nat);
            if v >= pow10(ty.spec_precision() as nat) {
                Err(
                    InputError::NumericOverflow {
                        precision: ty.spec_precision(),
                        scale: ty.spec_scale(),
                    },
                )
            } else if is_negative(spec_trim(s)) {
                Ok(Numeric { value: vstd::wrapping::u64_specs::wrapping_sub(0, v as u64) })
            } else {
                Ok(Numeric { value: v as u64 })
            }
        }
    }
}

/// The two's complement value as a signed integer.
pub open spec fn signed_value(value: u64) -> int {
    if value <= i64::MAX {
        value as int
    } else {
        value as int - 18446744073709551616
    }
}

/// The magnitude of the signed value.
pub open spec fn magnitude(value: u64) -> nat {
    let v = signed_value(value);
    if v < 0 { (-v) as nat } else { v as nat }
}

/// The 64-bit two's complement word of a signed value.
pub open spec fn encode_signed(v: int) -> u64 {
    if v >= 0 {
        v as u64
    } else {
        (v + 18446744073709551616) as u64
    }
}

/// Division of a signed value by a positive one, rounding toward zero.
pub open spec fn signed_div(v: int, d: nat) -> int {
    if v < 0 {
        -((-v) / (d as int))
    } else {
        v / (d as int)
    }
}

/// The remainder of a signed value by a positive one, with the sign of the value.
pub open spec fn signed_mod(v: int, d: nat) -> int {
    if v < 0 {
        -((-v) % (d as int))
    } else {
        v % (d as int)
    }
}

/// The digits padded with zeros on the left to at least `w` characters.
pub open spec fn zero_pad(d: Seq<char>, w: nat) -> Seq<char> {
    if d.len() < w {
        Seq::new((w - d.len()) as nat, |i: int| '0') + d
    } else {
        d
    }
}

/// The text of a NUMERIC value of the given precision and scale.
pub open spec fn numeric_text(value: u64, precision: nat, scale: nat) -> Seq<char> {
    let sign = if signed_value(value) < 0 { seq!['-'] } else { Seq::<char>::empty() };
    let d = nat_to_decimal(magnitude(value));
    if scale == 0 {
        sign + d
    } else if scale >= precision || magnitude(value) < pow10(scale) {
        sign + seq!['0', '.'] + zero_pad(d, scale)
    } else {
        sign + d.take(d.len() - scale) + seq!['.'] + d.skip(d.len() - scale)
    }
}

impl Numeric {
    /// Creates a Numeric from a raw scaled integer value.
    pub fn new(value: u64) -> (r: Self)
        ensures
            r.value == value,
    {
        Self { value }
    }

    /// Reads a text as a Numeric of the given type: an optional sign, digits
    /// with at most one point, rounded half up to the scale of the type.
    pub fn input(s: &str, ty: Type) -> (r: Result<Self, InputError>)
        requires
            numeric_type_ok(ty),
        ensures
            r == spec_numeric_input(s@, ty),
    {
        let precision = ty.precision() as usize;
        let scale = ty.scale() as usize;
        let trimmed = trim(s);
        let n = trimmed.unicode_len();
        if n == 0 {
            return Err(InputError::InvalidNumeric);
        }
        let first = trimmed.get_char(0);
        let neg = first == '-';
        let start: usize = if first == '+' || first == '-' { 1 } else { 0 };
        let body = trimmed.substring_char(start, n);
        let ghost t = numeric_body(s@);
        assert(body@ =~= t);
        let m = body.unicode_len();
        proof {
            reveal_with_fuel(pow10, 19);
        }
        // `kept` is the value of the digits up to `scale` places after the
        // point (while it stays below 10^18); the digits after those only
        // matter through the first of them, which decides the rounding.
        let mut kept: u64 = 0;
        let mut big = false;
        let mut decimals: usize = 0;
        let mut fraction = false;
        let mut digit = false;
        let mut first_dropped: u64 = 0;
        let ghost mut a: int = 0;
        let ghost mut rest: int = 0;
        let mut i: usize = 0;
        assert(t.take(0) =~= Seq::<char>::empty());
        while i < m
            invariant
                i <= m,
                m == t.len(),
                body@ == t,
                t == numeric_body(s@),
                scale == ty.spec_scale(),
                scale <= 18,
                spec_trim(s@).len() > 0,
                numeric_scan(t.take(i as int)).valid,
                numeric_scan(t.take(i as int)).decimals == decimals,
                numeric_scan(t.take(i as int)).fraction == fraction,
                numeric_scan(t.take(i as int)).digit == digit,
                decimals <= i,
                !fraction ==> decimals == 0,
                a >= 0,
                numeric_scan(t.take(i as int)).value == a * pow10(extra_places(decimals as nat, scale as nat))
                    + rest,
                0 <= rest < pow10(extra_places(decimals as nat, scale as nat)),
                decimals > scale ==> first_dropped == rest / (pow10((decimals - scale - 1) as nat) as int),
                first_dropped <= 9,
                !big ==> kept == a && a < 1000000000000000000,
                big ==> a >= 1000000000000000000,
            decreases m - i,
        {
            let c = body.get_char(i);
            assert(t.take(i + 1).drop_last() =~= t.take(i as int));
            assert(t.take(i + 1).last() == c);
            proof {
                lemma_pow10_positive(extra_places(decimals as nat, scale as nat));
            }
            if '0' <= c && c <= '9' {
                let g: u64 = (c as u32 - 48) as u64;
                if fraction && decimals >= scale {
                    proof {
                        let e = extra_places(decimals as nat, scale as nat);
                        assert(e == decimals - scale);
                        let p = pow10(e) as int;
                        assert(pow10(e + 1) == 10 * pow10(e));
                        assert(a * p * 10 + (rest * 10 + g) == a * (10 * p) + (rest * 10 + g)) by (nonlinear_arith);
                        assert((a * p + rest) * 10 + g == a * p * 10 + (rest * 10 + g)) by (nonlinear_arith);
                        if decimals > scale {
                            lemma_pow10_positive((decimals - scale - 1) as nat);
                            assert(pow10(e) == 10 * pow10((e - 1) as nat));
                            lemma_div_shift(rest, g as int, pow10((e - 1) as nat) as int);
                        } else {
                            assert(pow10(0) == 1);
                        }
                        rest = rest * 10 + g;
                    }
                    if decimals == scale {
                        first_dropped = g;
                    }
                    decimals = decimals + 1;
                    assert(extra_places(decimals as nat, scale as nat) == extra_places((decimals - 1) as nat, scale as nat) + 1);
                    assert(numeric_scan(t.take(i + 1)).value == numeric_scan(t.take(i as int)).value * 10 + g);
                } else {
                    proof {
                        assert(extra_places(decimals as nat, scale as nat) == 0);
                        assert(pow10(0) == 1);
                        assert(rest == 0);
                        let x = pow10(extra_places(decimals as nat, scale as nat)) as int;
                        assert(x == 1);
                        assert(a * x == a) by (nonlinear_arith)
                            requires
                                x == 1,
                        ;
                        assert(numeric_scan(t.take(i as int)).value == a);
                        assert(numeric_scan(t.take(i + 1)).value == numeric_scan(t.take(i as int)).value * 10 + g);
                        a = a * 10 + g;
                    }
                    if !big {
                        if kept >= 100000000000000000 {
                            big = true;
                        } else {
                            kept = kept * 10 + g;
                        }
                    }
                    if fraction {
                        decimals = decimals + 1;
                    }
                    assert(extra_places(decimals as nat, scale as nat) == 0);
                    assert(numeric_scan(t.take(i + 1)).value == a);
                }
                digit = true;
            } else if c == '.' {
                if fraction {
                    proof {
                        lemma_numeric_scan_invalid_stays(t, i + 1);
                    }
                    return Err(InputError::InvalidNumeric);
                }
                fraction = true;
            } else {
                proof {
                    lemma_numeric_scan_invalid_stays(t, i + 1);
                }
                return Err(InputError::InvalidNumeric);
            }
            i = i + 1;
        }
        assert(t.take(m as int) =~= t);
        let ghost sc = numeric_scan(t);
        if !digit {
            return Err(InputError::InvalidNumeric);
        }
        let limit = numeric_shift(precision);
        proof {
            lemma_pow10_monotone(precision as nat, 18);
        }
        let overflow = InputError::NumericOverflow { precision: ty.precision(), scale: ty.scale() };
        let value: u64 = if decimals <= scale {
            let sh = numeric_shift(scale - decimals);
            proof {
                assert(extra_places(decimals as nat, scale as nat) == 0);
                assert(pow10(0) == 1);
                assert(sc.value == a);
                assert(scaled_value(sc.value, sc.decimals, scale as nat) == a * sh);
                assert(a * sh >= a) by (nonlinear_arith)
                    requires
                        a >= 0,
                        sh >= 1,
                ;
            }
            if big {
                return Err(overflow);
            }
            match kept.checked_mul(sh) {
                Some(x) => x,
                None => {
                    return Err(overflow);
                },
            }
        } else {
            proof {
                let k = (decimals - scale) as nat;
                assert(extra_places(decimals as nat, scale as nat) == k);
                lemma_round_half_up(a, rest, k);
                assert(scaled_value(sc.value, sc.decimals, scale as nat) == a + if first_dropped >= 5 {
                    1int
                } else {
                    0int
                });
            }
            if big {
                return Err(overflow);
            }
            if first_dropped >= 5 {
                kept + 1
            } else {
                kept
            }
        };
        assert(value == scaled_value(sc.value, sc.decimals, scale as nat));
        if value >= limit {
            return Err(overflow);
        }
        if neg {
            Ok(Self { value: 0u64.wrapping_sub(value) })
        } else {
            Ok(Self { value })
        }
    }

    /// Writes a Numeric of the given type to the output.
    pub fn output(writer: &mut Output, ty: Type, out: Self)
        requires
            ty.has_valid_tag(),
            ty.spec_tag() == Tag::Numeric,
            ty.spec_scale() <= 18,
        ensures
            final(writer)@ == old(writer)@ + numeric_text(
                out.value,
                ty.spec_precision() as nat,
                ty.spec_scale() as nat,
            ),
    {
        let precision = ty.precision() as usize;
        let scale = ty.scale() as usize;
        let neg = out.value > 9223372036854775807;
        let mag: u64 = if neg { 0u64.wrapping_sub(out.value) } else { out.value };
        assert(mag == magnitude(out.value));
        let mut result = String::new();
        if neg {
            proof { reveal_strlit("-"); }
            result.append("-");
        }
        let ghost sign = result@;
        assert(sign == if signed_value(out.value) < 0 { seq!['-'] } else { Seq::<char>::empty() });
        let s = u64_to_string(mag);
        let len = s.as_str().unicode_len();
        if scale == 0 {
            result.append(s.as_str());
        } else if scale >= precision || mag < numeric_shift(scale) {
            proof { reveal_strlit("0."); }
            result.append("0.");
            let mut k: usize = len;
            while k < scale
                invariant
                    len <= k,
                    k <= scale || k == len,
                    result@ == sign + seq!['0', '.'] + Seq::new((k - len) as nat, |i: int| '0'),
                decreases scale - k,
            {
                proof { reveal_strlit("0"); }
                result.append("0");
                assert(Seq::new((k + 1 - len) as nat, |i: int| '0') =~= Seq::new(
                    (k - len) as nat,
                    |i: int| '0',
                ) + "0"@);
                k = k + 1;
            }
            result.append(s.as_str());
            assert(result@ =~= sign + seq!['0', '.'] + zero_pad(s@, scale as nat));
        } else {
            proof {
                lemma_decimal_len_above(mag as nat, scale as nat);
            }
            let cut = len - scale;
            let head = s.as_str().substring_char(0, cut);
            let tail = s.as_str().substring_char(cut, len);
            result.append(head);
            proof { reveal_strlit("."); }
            result.append(".");
            result.append(tail);
            assert(result@ =~= sign + s@.take(s@.len() - scale) + seq!['.'] + s@.skip(
                s@.len() - scale,
            ));
        }
        assert(result@ =~= numeric_text(out.value, precision as nat, scale as nat));
        writer.write(result.as_str());
    }

    /// Casts this numeric to another precision, keeping the digits that fit: the
    /// signed value modulo `10^precision`, with its sign kept.
    pub fn cast_precision(&self, _ty: Type, new_type: Type) -> (r: Result<Numeric, InputError>)
        requires
            new_type.spec_precision() <= 18,
        ensures
            r == Ok::<Numeric, InputError>(
                Numeric {
                    value: encode_signed(
                        signed_mod(
                            signed_value(self.value),
                            pow10(new_type.spec_precision() as nat),
                        ),
                    ),
                },
            ),
    {
        let neg = self.value > 9223372036854775807;
        let mag: u64 = if neg { 0u64.wrapping_sub(self.value) } else { self.value };
        assert(mag == magnitude(self.value));
        let sh = numeric_shift(new_type.precision() as usize);
        let rest = mag % sh;
        let value = if neg { 0u64.wrapping_sub(rest) } else { rest };
        Ok(Numeric { value })
    }

    /// Casts this numeric to another scale, dropping or adding digits after the
    /// point: fewer digits divide the signed value by a power of ten, rounding
    /// toward zero; more digits multiply it.
    pub fn cast_scale(&self, ty: Type, new_type: Type) -> (r: Result<Numeric, InputError>)
        requires
            ty.spec_scale() <= 18,
            new_type.spec_scale() <= 18,
            new_type.spec_scale() >= ty.spec_scale() ==> i64::MIN <= signed_value(self.value)
                * pow10((new_type.spec_scale() - ty.spec_scale()) as nat) <= i64::MAX,
        ensures
            r == Ok::<Numeric, InputError>(
                Numeric {
                    value: encode_signed(
                        if new_type.spec_scale() < ty.spec_scale() {
                            signed_div(
                                signed_value(self.value),
                                pow10((ty.spec_scale() - new_type.spec_scale()) as nat),
                            )
                        } else {
                            signed_value(self.value) * pow10(
                                (new_type.spec_scale() - ty.spec_scale()) as nat,
                            )
                        },
                    ),
                },
            ),
    {
        let current_scale = ty.scale() as usize;
        let new_scale = new_type.scale() as usize;
        let neg = self.value > 9223372036854775807;
        let mag: u64 = if neg { 0u64.wrapping_sub(self.value) } else { self.value };
        assert(mag == magnitude(self.value));
        let m = if new_scale < current_scale {
            let sh = numeric_shift(current_scale - new_scale);
            mag / sh
        } else {
            let sh = numeric_shift(new_scale - current_scale);
            proof {
                lemma_pow10_positive((new_scale - current_scale) as nat);
                assert(mag * sh <= 9223372036854775808) by (nonlinear_arith)
                    requires
                        mag == magnitude(self.value),
                        sh >= 1,
                        i64::MIN <= signed_value(self.value) * sh <= i64::MAX,
                        signed_value(self.value) < 0 ==> mag == -signed_value(self.value),
                        signed_value(self.value) >= 0 ==> mag == signed_value(self.value),
                ;
            }
            mag * sh
        };
        let value = if neg { 0u64.wrapping_sub(m) } else { m };
        proof {
            let sv = signed_value(self.value);
            if new_scale < current_scale {
                let d = pow10((current_scale - new_scale) as nat);
                assert(m == (mag as int) / (d as int));
                assert(value == encode_signed(signed_div(sv, d)));
            } else {
                let d = pow10((new_scale - current_scale) as nat);
                assert(m == (mag as int) * (d as int));
                if neg {
                    assert(sv * d == -(mag * d)) by (nonlinear_arith)
                        requires
                            sv == -(mag as int),
                    ;
                } else {
                    assert(sv * d == mag * d);
                }
                assert(value == encode_signed(sv * d));
            }
        }
        Ok(Numeric { value })
    }

    /// The type of the result of an operation on two numerics of the given type.
    pub fn result_type(op: NumericOp, ty: Type) -> (r: Type)
        requires
            ty.spec_precision() + 1 <= 18 || op != NumericOp::Add,
            (0 < ty.spec_precision() <= 18 && ty.spec_scale() <= 18) || op != NumericOp::Sub,
            (0 < ty.spec_precision() + ty.spec_scale() <= 18 && ty.spec_scale() * 2 <= 18) || op
                != NumericOp::Mul,
            ty.spec_scale() <= 18 || op != NumericOp::Add,
        ensures
            r == (match op {
                NumericOp::Add => Type::spec_new(
                    Tag::Numeric,
                    (ty.spec_precision() + 1) as u32,
                    ty.spec_scale(),
                    false,
                ),
                NumericOp::Sub => Type::spec_new(
                    Tag::Numeric,
                    ty.spec_precision(),
                    ty.spec_scale(),
                    false,
                ),
                NumericOp::Mul => Type::spec_new(
                    Tag::Numeric,
                    (ty.spec_precision() + ty.spec_scale()) as u32,
                    (ty.spec_scale() * 2) as u16,
                    false,
                ),
            }),
    {
        let precision = ty.precision();
        let scale = ty.scale();
        match op {
            NumericOp::Add => Type::new_numeric(precision + 1, scale),
            NumericOp::Sub => Type::new_numeric(precision, scale),
            NumericOp::Mul => Type::new_numeric(precision + scale as u32, scale + scale),
        }
    }

    /// The value as a signed integer.
    pub fn signed(&self) -> (v: i64)
        ensures
            v as int == signed_value(self.value),
    {
        if self.value <= 9223372036854775807 {
            self.value as i64
        } else {
            let m: u64 = 0u64.wrapping_sub(self.value);
            if m == 9223372036854775808 {
                -9223372036854775808i64
            } else {
                -(m as i64)
            }
        }
    }

    /// Wrapping addition in place.
    pub fn add_assign(&mut self, rhs: Self)
        ensures
            final(self).value == vstd::wrapping::u64_specs::wrapping_add(old(self).value, rhs.value),
    {
        self.value = self.value.wrapping_add(rhs.value);
    }

    /// Wrapping subtraction in place.
    pub fn sub_assign(&mut self, rhs: Self)
        ensures
            final(self).value == vstd::wrapping::u64_specs::wrapping_sub(old(self).value, rhs.value),
    {
        self.value = self.value.wrapping_sub(rhs.value);
    }

    /// Wrapping multiplication in place.
    pub fn mul_assign(&mut self, rhs: Self)
        ensures
            final(self).value == vstd::wrapping::u64_specs::wrapping_mul(old(self).value, rhs.value),
    {
        self.value = self.value.wrapping_mul(rhs.value);
    }
}

/// A number of at least `10^s` has more than `s` digits.
pub proof fn lemma_decimal_len_above(n: nat, s: nat)
    requires
        n >= pow10(s),
    ensures
        nat_to_decimal(n).len() > s,
    decreases s,
{
    if s > 0 {
        assert(pow10(s) == 10 * pow10((s - 1) as nat));
        assert(n / 10 >= pow10((s - 1) as nat));
        lemma_decimal_len_above(n / 10, (s - 1) as nat);
        lemma_pow10_positive((s - 1) as nat);
    }
}

/// The number of digits read after the first `scale` places after the point.
pub open spec fn extra_places(decimals: nat, scale: nat) -> nat {
    if decimals > scale {
        (decimals - scale) as nat
    } else {
        0
    }
}

/// Appending a digit and dividing by ten times as much gives the same quotient.
pub proof fn lemma_div_shift(x: int, g: int, p: int)
    requires
        x >= 0,
        0 <= g < 10,
        p >= 1,
    ensures
        (10 * x + g) / (10 * p) == x / p,
{
    let q = x / p;
    let r = x % p;
    vstd::arithmetic::div_mod::lemma_fundamental_div_mod(x, p);
    vstd::arithmetic::div_mod::lemma_mod_pos_bound(x, p);
    assert(10 * x + g == q * (10 * p) + (10 * r + g)) by (nonlinear_arith)
        requires
            x == p * q + r,
    ;
    vstd::arithmetic::div_mod::lemma_fundamental_div_mod_converse(10 * x + g, 10 * p, q, 10 * r + g);
}

/// Rounding half up at `k` places: the digits before them, plus one where
/// the first of the places holds 5 or more.
pub proof fn lemma_round_half_up(a: int, rest: int, k: nat)
    requires
        a >= 0,
        k >= 1,
        0 <= rest < pow10(k),
    ensures
        (a * pow10(k) + rest + pow10(k) / 2) / (pow10(k) as int) == a + if rest / (pow10((k - 1) as nat) as int)
            >= 5 {
            1int
        } else {
            0int
        },
{
    let p = pow10((k - 1) as nat) as int;
    lemma_pow10_positive((k - 1) as nat);
    assert(pow10(k) == 10 * pow10((k - 1) as nat));
    let big_p = pow10(k) as int;
    assert(big_p == 10 * p);
    assert(pow10(k) / 2 == 5 * p);
    let r1 = rest / p;
    let r0 = rest % p;
    vstd::arithmetic::div_mod::lemma_fundamental_div_mod(rest, p);
    vstd::arithmetic::div_mod::lemma_mod_pos_bound(rest, p);
    assert(r1 < 10) by (nonlinear_arith)
        requires
            rest == p * r1 + r0,
            0 <= r0,
            rest < 10 * p,
            p >= 1,
    ;
    assert(r1 >= 0) by (nonlinear_arith)
        requires
            rest == p * r1 + r0,
            r0 < p,
            rest >= 0,
            p >= 1,
    ;
    let total = a * big_p + rest + 5 * p;
    if r1 >= 5 {
        assert(total == (a + 1) * (10 * p) + ((r1 - 5) * p + r0)) by (nonlinear_arith)
            requires
                total == a * big_p + rest + 5 * p,
                big_p == 10 * p,
                rest == p * r1 + r0,
        ;
        assert(0 <= (r1 - 5) * p + r0 < 10 * p) by (nonlinear_arith)
            requires
                5 <= r1 < 10,
                0 <= r0 < p,
        ;
        vstd::arithmetic::div_mod::lemma_fundamental_div_mod_converse(total, 10 * p, a + 1, (r1 - 5) * p + r0);
    } else {
        assert(total == a * (10 * p) + ((r1 + 5) * p + r0)) by (nonlinear_arith)
            requires
                total == a * big_p + rest + 5 * p,
                big_p == 10 * p,
                rest == p * r1 + r0,
        ;
        assert(0 <= (r1 + 5) * p + r0 < 10 * p) by (nonlinear_arith)
            requires
                0 <= r1 < 5,
                0 <= r0 < p,
        ;
        vstd::arithmetic::div_mod::lemma_fundamental_div_mod_converse(total, 10 * p, a, (r1 + 5) * p + r0);
    }
}

/// Once the reading has stopped on an invalid character, the rest of the text changes nothing.
pub proof fn lemma_numeric_scan_invalid_stays(t: Seq<char>, i: int)
    requires
        0 <= i <= t.len(),
        !numeric_scan(t.take(i)).valid,
    ensures
        numeric_scan(t) == numeric_scan(t.take(i)),
    decreases t.len() - i,
{
    if i < t.len() {
        assert(t.take(i + 1).drop_last() =~= t.take(i));
        lemma_numeric_scan_invalid_stays(t, i + 1);
    } else {
        assert(t.take(i) =~= t);
    }
}

impl vstd::std_specs::ops::AddSpecImpl for Numeric {
    open spec fn obeys_add_spec() -> bool {
        true
    }

    open spec fn add_req(self, rhs: Self) -> bool {
        true
    }

    open spec fn add_spec(self, rhs: Self) -> Self {
        Numeric { value: vstd::wrapping::u64_specs::wrapping_add(self.value, rhs.value) }
    }
}

impl vstd::std_specs::ops::SubSpecImpl for Numeric {
    open spec fn obeys_sub_spec() -> bool {
        true
    }

    open spec fn sub_req(self, rhs: Self) -> bool {
        true
    }

    open spec fn sub_spec(self, rhs: Self) -> Self {
        Numeric { value: vstd::wrapping::u64_specs::wrapping_sub(self.value, rhs.value) }
    }
}

impl vstd::std_specs::ops::MulSpecImpl for Numeric {
    open spec fn obeys_mul_spec() -> bool {
        true
    }

    open spec fn mul_req(self, rhs: Self) -> bool {
        true
    }

    open spec fn mul_spec(self, rhs: Self) -> Self {
        Numeric { value: vstd::wrapping::u64_specs::wrapping_mul(self.value, rhs.value) }
    }
}

impl core::ops::Add for Numeric {
    type Output = Self;

    /// Wrapping addition of the scaled values.
    fn add(self, rhs: Self) -> (r: Self)
        ensures
            r.value == vstd::wrapping::u64_specs::wrapping_add(self.value, rhs.value),
    {
        Self { value: self.value.wrapping_add(rhs.value) }
    }
}

impl core::ops::Sub for Numeric {
    type Output = Self;

    /// Wrapping subtraction of the scaled values.
    fn sub(self, rhs: Self) -> (r: Self)
        ensures
            r.value == vstd::wrapping::u64_specs::wrapping_sub(self.value, rhs.value),
    {
        Self { value: self.value.wrapping_sub(rhs.value) }
    }
}

impl core::ops::Mul for Numeric {
    type Output = Self;

    /// Wrapping multiplication of the scaled values.
    fn mul(self, rhs: Self) -> (r: Self)
        ensures
            r.value == vstd::wrapping::u64_specs::wrapping_mul(self.value, rhs.value),
    {
        Self { value: self.value.wrapping_mul(rhs.value) }
    }
}

} // verus!
