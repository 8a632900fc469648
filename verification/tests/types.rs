use std::collections::{HashMap, HashSet};
use std::hash::{DefaultHasher, Hash, Hasher};
use imlab::types::bool::Bool;
use imlab::types::integer::Integer;
use imlab::types::numeric::{Numeric, NumericOp};
use imlab::types::text::Text;
use imlab::types::timestamp::Timestamp;
use imlab::types::{InputError, Tag, Type};
use imlab::util::io::Output;

fn integer_text(i: Integer, t: Type) -> String {
    let mut out = Output::new();
    Integer::output(&mut out, t, i);
    out.into_string()
}

fn numeric_text(n: Numeric, t: Type) -> String {
    let mut out = Output::new();
    Numeric::output(&mut out, t, n);
    out.into_string()
}

fn text_text(x: &Text, t: Type) -> String {
    let mut out = Output::new();
    Text::output(&mut out, t, x);
    out.into_string()
}

fn bool_text(b: Bool, t: Type) -> String {
    let mut out = Output::new();
    Bool::output(&mut out, t, b);
    out.into_string()
}

fn timestamp_text(x: Timestamp, t: Type) -> String {
    let mut out = Output::new();
    Timestamp::output(&mut out, t, x);
    out.into_string()
}

#[test]
fn bool_test_input() {
    let t = Type::new_bool();
    let b = Bool::input("true", t).unwrap();
    assert_eq!(b.value, true);
    assert_eq!(bool_text(b, t), "true");
    let b = Bool::input("false", t).unwrap();
    assert_eq!(b.value, false);
    assert_eq!(bool_text(b, t), "false");
    Bool::input("0x10", t).unwrap_err();
}

#[test]
fn integer_test_input() {
    let t = Type::new_integer();
    let i = Integer::input("123", t).unwrap();
    assert_eq!(integer_text(i, t), "123");
    Integer::input("0x10", t).unwrap_err();
}

#[test]
fn test_empty_input_returns_minus_one() {
    let t = Type::new_integer();
    let i = Integer::input("", t).unwrap();
    assert_eq!(integer_text(i, t), "-1");
    let j = Integer::input("   ", t).unwrap();
    assert_eq!(integer_text(j, t), "-1");
}

#[test]
fn integer_test_add() {
    let t = Type::new_integer();
    let i1 = Integer::input("10", t).unwrap();
    let i2 = Integer::input("17", t).unwrap();
    assert_eq!(integer_text(i1 + i2, t), "27");
}

#[test]
fn integer_test_sub() {
    let t = Type::new_integer();
    let i1 = Integer::input("10", t).unwrap();
    let i2 = Integer::input("17", t).unwrap();
    assert_eq!(integer_text(i1 - i2, t), "-7");
}

#[test]
fn integer_test_mul() {
    let t = Type::new_integer();
    let i1 = Integer::input("10", t).unwrap();
    let i2 = Integer::input("17", t).unwrap();
    assert_eq!(integer_text(i1 * i2, t), "170");
}

#[test]
fn test_div() {
    let t = Type::new_integer();
    let i1 = Integer::input("99", t).unwrap();
    let i2 = Integer::input("11", t).unwrap();
    assert_eq!(integer_text(i1.div(i2), t), "9");
}

#[test]
fn numeric_test_input() {
    let type_5_2 = Type::new_numeric(5, 2);
    let type_3_5 = Type::new_numeric(3, 5);
    let type_1_0 = Type::new_numeric(1, 0);
    let type_2_0 = Type::new_numeric(2, 0);
    let type_4_2 = Type::new_numeric(4, 2);
    let type_7_15 = Type::new_numeric(7, 15);

    Numeric::input("123.45", type_5_2).unwrap();
    Numeric::input("+123.45", type_5_2).unwrap();
    Numeric::input("-123.45", type_5_2).unwrap();
    Numeric::input(".45", type_5_2).unwrap();
    Numeric::input("0.009", type_3_5).unwrap();
    Numeric::input("0.00123456789", type_3_5).unwrap();
    Numeric::input("1.001", type_1_0).unwrap();
    Numeric::input("  -1.001    ", type_1_0).unwrap();

    let n = Numeric::input("+123.45", type_5_2).unwrap();
    assert_eq!(n.value, 12345);
    assert_eq!(numeric_text(n, type_5_2), "123.45");

    let n = Numeric::input("-123.45", type_5_2).unwrap();
    assert_eq!(n.value, !(12345 - 1));
    assert_eq!(numeric_text(n, type_5_2), "-123.45");

    let n = Numeric::input("0.009", type_3_5).unwrap();
    assert_eq!(n.value, 900);
    assert_eq!(numeric_text(n, type_3_5), "0.00900");

    let n = Numeric::input("0.00123456789", type_3_5).unwrap();
    assert_eq!(n.value, 123);
    assert_eq!(numeric_text(n, type_3_5), "0.00123");

    let n = Numeric::input("0.00123499999", type_3_5).unwrap();
    assert_eq!(n.value, 123);
    assert_eq!(numeric_text(n, type_3_5), "0.00123");

    let n = Numeric::input("0.00123500000", type_3_5).unwrap();
    assert_eq!(n.value, 124);
    assert_eq!(numeric_text(n, type_3_5), "0.00124");

    let n = Numeric::input("1.001", type_1_0).unwrap();
    assert_eq!(n.value, 1);
    assert_eq!(numeric_text(n, type_1_0), "1");

    let n = Numeric::input("1.5", type_1_0).unwrap();
    assert_eq!(n.value, 2);
    assert_eq!(numeric_text(n, type_1_0), "2");

    let n = Numeric::input("1.5", type_2_0).unwrap();
    assert_eq!(n.value, 2);
    assert_eq!(numeric_text(n, type_2_0), "2");

    let n = Numeric::input("99", type_2_0).unwrap();
    assert_eq!(n.value, 99);
    assert_eq!(numeric_text(n, type_2_0), "99");

    let n = Numeric::input("099.090000", type_4_2).unwrap();
    assert_eq!(n.value, 9909);
    assert_eq!(numeric_text(n, type_4_2), "99.09");

    Numeric::input("0.01", type_3_5).unwrap_err();
    Numeric::input("1.01", type_3_5).unwrap_err();
    Numeric::input("1.01.03", type_7_15).unwrap_err();
    Numeric::input("21", type_1_0).unwrap_err();
}

#[test]
fn numeric_test_add() {
    let type_1_0 = Type::new_numeric(1, 0);
    let type_2_0 = Type::new_numeric(2, 0);

    let result_type = Numeric::result_type(NumericOp::Add, type_1_0);
    let a = Numeric::input("5", type_1_0).unwrap();
    let b = Numeric::input("4", type_1_0).unwrap();
    assert_eq!(numeric_text(a + b, result_type), "9");

    let result_type = Numeric::result_type(NumericOp::Add, type_2_0);
    let a = Numeric::input("-10", type_2_0).unwrap();
    let b = Numeric::input("15", type_2_0).unwrap();
    assert_eq!(numeric_text(a + b, result_type), "5");
}

#[test]
fn numeric_test_sub() {
    let type_1_0 = Type::new_numeric(1, 0);
    let result_type = Numeric::result_type(NumericOp::Sub, type_1_0);
    let a = Numeric::input("5", type_1_0).unwrap();
    let b = Numeric::input("4", type_1_0).unwrap();
    assert_eq!(numeric_text(a - b, result_type), "1");
}

#[test]
fn numeric_test_mul() {
    let type_4_2 = Type::new_numeric(4, 2);
    let type_2_0 = Type::new_numeric(2, 0);
    let type_5_2 = Type::new_numeric(5, 2);

    let result_type = Numeric::result_type(NumericOp::Mul, type_4_2);
    let a = Numeric::input("12.34", type_4_2).unwrap();
    let b = Numeric::input("56.78", type_4_2).unwrap();
    assert_eq!(numeric_text(a * b, result_type), "700.6652");

    let result_type = Numeric::result_type(NumericOp::Mul, type_2_0);
    let a = Numeric::input("2", type_2_0).unwrap();
    let b = Numeric::input("5", type_2_0).unwrap();
    assert_eq!(numeric_text(a * b, result_type), "10");

    let result_type = Numeric::result_type(NumericOp::Mul, type_2_0);
    let a = Numeric::input("10", type_2_0).unwrap();
    let b = Numeric::input("-10", type_2_0).unwrap();
    assert_eq!(numeric_text(a * b, result_type), "-100");

    let result_type = Numeric::result_type(NumericOp::Mul, type_5_2);
    let a = Numeric::input("10", type_5_2).unwrap();
    let b = Numeric::input("-10", type_5_2).unwrap();
    assert_eq!(numeric_text(a * b, result_type), "-100.0000");
}

#[test]
fn test_cmp() {
    let type_1_0 = Type::new_numeric(1, 0);
    let a = Numeric::input("5", type_1_0).unwrap();
    let b = Numeric::input("4", type_1_0).unwrap();
    let c = Numeric::input("-1", type_1_0).unwrap();
    let d = Numeric::input("4", type_1_0).unwrap();
    assert!(a > b);
    assert!(c < a);
    assert!(b <= d);
    assert_eq!(b, d);
}

#[test]
fn test_cast_precision() {
    let type_5_3 = Type::new_numeric(5, 3);
    let type_4_3 = Type::new_numeric(4, 3);
    let a = Numeric::input("12.345", type_5_3).unwrap();
    let b = a.cast_precision(type_5_3, type_4_3).unwrap();
    assert_eq!(numeric_text(b, type_4_3), "2.345");
}

#[test]
fn test_cast_scale() {
    let type_5_3 = Type::new_numeric(5, 3);
    let type_5_2 = Type::new_numeric(5, 2);
    let a = Numeric::input("12.345", type_5_3).unwrap();
    let b = a.cast_scale(type_5_3, type_5_2).unwrap();
    assert_eq!(b.value, 1234);
    assert_eq!(numeric_text(b, type_5_2), "12.34");
}

#[test]
fn text_test_input() {
    let c = Text::input("hello world!", Type::new_text()).unwrap();
    assert_eq!(text_text(&c, Type::new_text()), "hello world!");
    let c = Text::input("hello world!     ", Type::new_char(42)).unwrap();
    assert_eq!(text_text(&c, Type::new_char(42)), "hello world!     ");
    let c = Text::input("hello", Type::new_varchar(8)).unwrap();
    assert_eq!(text_text(&c, Type::new_varchar(8)), "hello");
    let c = Text::input("", Type::new_text()).unwrap();
    assert_eq!(text_text(&c, Type::new_text()), "");
}

#[test]
fn test_eq() {
    let t1 = Text::input("hello", Type::new_text()).unwrap();
    let t2 = Text::input("hello", Type::new_text()).unwrap();
    let t3 = Text::input("world", Type::new_text()).unwrap();
    assert_eq!(t1, t2);
    assert_ne!(t1, t3);
    let t4 = Text::input("hello world this is a long string", Type::new_text()).unwrap();
    let t5 = Text::input("hello world this is a long string", Type::new_text()).unwrap();
    let t6 = Text::input("hello world this is different text", Type::new_text()).unwrap();
    assert_eq!(t4, t5);
    assert_ne!(t4, t6);
    let t7 = Text::input("short", Type::new_text()).unwrap();
    let t8 = Text::input("this is a much longer string", Type::new_text()).unwrap();
    assert_ne!(t7, t8);
    let t9 = Text::input("", Type::new_text()).unwrap();
    let t10 = Text::input("", Type::new_text()).unwrap();
    assert_eq!(t9, t10);
}

#[test]
fn test_ord() {
    let t1 = Text::input("apple", Type::new_text()).unwrap();
    let t2 = Text::input("banana", Type::new_text()).unwrap();
    let t3 = Text::input("apple", Type::new_text()).unwrap();
    assert!(t1 < t2);
    assert!(t2 > t1);
    assert!(t1 <= t3);
    assert!(t1 >= t3);
    let t4 = Text::input("this is a long string alpha", Type::new_text()).unwrap();
    let t5 = Text::input("this is a long string beta", Type::new_text()).unwrap();
    assert!(t4 < t5);
    assert!(t5 > t4);
    let t6 = Text::input("zzz", Type::new_text()).unwrap();
    let t7 = Text::input("aaa this is a longer string", Type::new_text()).unwrap();
    assert!(t7 < t6);
    let t8 = Text::input("", Type::new_text()).unwrap();
    let t9 = Text::input("a", Type::new_text()).unwrap();
    assert!(t8 < t9);
}

#[test]
fn test_hash() {

    let t1 = Text::input("hello", Type::new_text()).unwrap();
    let t2 = Text::input("hello", Type::new_text()).unwrap();
    let mut hasher1 = DefaultHasher::new();
    t1.hash(&mut hasher1);
    let hash1 = hasher1.finish();
    let mut hasher2 = DefaultHasher::new();
    t2.hash(&mut hasher2);
    let hash2 = hasher2.finish();
    assert_eq!(hash1, hash2, "Equal texts should have equal hashes");

    let t3 = Text::input("world", Type::new_text()).unwrap();
    let mut hasher3 = DefaultHasher::new();
    t3.hash(&mut hasher3);
    let hash3 = hasher3.finish();
    assert_ne!(hash1, hash3, "Different texts should usually have different hashes");

    let t4 = Text::input("this is a long string for testing", Type::new_text()).unwrap();
    let t5 = Text::input("this is a long string for testing", Type::new_text()).unwrap();
    let mut hasher4 = DefaultHasher::new();
    t4.hash(&mut hasher4);
    let hash4 = hasher4.finish();
    let mut hasher5 = DefaultHasher::new();
    t5.hash(&mut hasher5);
    let hash5 = hasher5.finish();
    assert_eq!(hash4, hash5, "Equal heap-allocated texts should have equal hashes");

    let mut set = HashSet::new();
    set.insert(Text::input("apple", Type::new_text()).unwrap());
    set.insert(Text::input("banana", Type::new_text()).unwrap());
    set.insert(Text::input("apple", Type::new_text()).unwrap());
    assert_eq!(set.len(), 2, "HashSet should contain 2 unique elements");

    let mut map = HashMap::new();
    map.insert(Text::input("key1", Type::new_text()).unwrap(), 42);
    map.insert(Text::input("key2", Type::new_text()).unwrap(), 100);
    let lookup_key = Text::input("key1", Type::new_text()).unwrap();
    assert_eq!(map.get(&lookup_key), Some(&42), "Should be able to lookup values in HashMap");
}

#[test]
fn test_clone() {
    let cloned: Text;
    {
        let c = Text::input("hello cloned text!", Type::new_text()).unwrap();
        assert_eq!(text_text(&c, Type::new_text()), "hello cloned text!");
        cloned = c.clone();
        assert_eq!(text_text(&cloned, Type::new_text()), "hello cloned text!");
    }
    assert_eq!(text_text(&cloned, Type::new_text()), "hello cloned text!");
}

#[test]
fn timestamp_test_input() {
    let t = Type::new_timestamp();
    let ts = Timestamp::input("161", t).unwrap();
    assert_eq!(timestamp_text(ts, t), "161");
    Timestamp::input("hello world!", t).unwrap_err();
}

#[test]
fn test_buffer() {
    let mut out = Output::new();
    out.write("hello");
    Output::write(&mut out, " world");
    Output::writeln(&mut out, "!");
    let string = out.into_string();
    assert_eq!(string, "hello world!\n");
}

// Further cases of the library's own.

#[test]
fn type_fields_round_trip() {
    let t = Type::new_numeric(12, 2);
    assert_eq!(t.tag(), Tag::Numeric);
    assert_eq!(t.precision(), 12);
    assert_eq!(t.scale(), 2);
    assert!(!t.is_nullable());
    let n = t.as_nullable();
    assert!(n.is_nullable());
    assert_eq!(n.tag(), Tag::Numeric);
    assert_eq!(n.precision(), 12);
    assert_eq!(n.scale(), 2);
    assert_eq!(Type::new_varchar(20).tag(), Tag::VarChar);
    assert_eq!(Type::new_varchar(20).precision(), 20);
    assert_eq!(Type::new_timestamp().fmt_codegen(), "Timestamp");
    assert_eq!(Type::new_char(3).fmt_codegen(), "Char");
    assert_eq!(Type::from_code(Type::new_bool().to_code()), Type::new_bool());
}

#[test]
fn integer_input_edges() {
    let t = Type::new_integer();
    assert_eq!(Integer::input("2147483647", t), Ok(Integer::new(2147483647)));
    assert_eq!(Integer::input("-2147483648", t), Ok(Integer::new(-2147483648)));
    assert_eq!(Integer::input("2147483648", t), Err(InputError::InvalidInteger));
    assert_eq!(Integer::input("+5", t), Ok(Integer::new(5)));
    assert_eq!(Integer::input(" 5", t), Err(InputError::InvalidInteger));
    assert_eq!(Integer::input("-", t), Err(InputError::InvalidInteger));
    let min = Integer::new(i32::MIN);
    assert_eq!(min.div(Integer::new(-1)), Integer::new(i32::MIN));
    assert_eq!(Integer::new(-7).div(Integer::new(2)), Integer::new(-3));
    assert_eq!(Integer::new(i32::MAX) + Integer::new(1), Integer::new(i32::MIN));
}

#[test]
fn integer_to_numeric() {
    let t = Type::new_numeric(6, 2);
    assert_eq!(Integer::new(42).to_numeric(t), Ok(Numeric::new(4200)));
    assert_eq!(
        Integer::new(12345).to_numeric(t),
        Err(InputError::NumericOverflow { precision: 6, scale: 2 })
    );
}

#[test]
fn numeric_input_errors() {
    let t = Type::new_numeric(5, 2);
    assert_eq!(Numeric::input("   ", t), Err(InputError::InvalidNumeric));
    assert_eq!(Numeric::input("1a", t), Err(InputError::InvalidNumeric));
    assert_eq!(Numeric::input("+", t), Err(InputError::InvalidNumeric));
    assert_eq!(Numeric::input("-", t), Err(InputError::InvalidNumeric));
    assert_eq!(Numeric::input(".", t), Err(InputError::InvalidNumeric));
    assert_eq!(Numeric::input("-.", t), Err(InputError::InvalidNumeric));
    assert_eq!(Numeric::input("-.5", t), Ok(Numeric::new((-50i64) as u64)));
    assert_eq!(
        Numeric::input("1000", t),
        Err(InputError::NumericOverflow { precision: 5, scale: 2 })
    );
    assert_eq!(Numeric::input("0.005", t), Ok(Numeric::new(1)));
}

#[test]
fn numeric_output_small_negative() {
    let t = Type::new_numeric(3, 5);
    let n = Numeric::input("-0.00123", t).unwrap();
    assert_eq!(numeric_text(n, t), "-0.00123");
    assert_eq!(numeric_text(Numeric::new(7), Type::new_numeric(4, 2)), "0.07");
}

#[test]
fn bool_and_timestamp_errors() {
    assert_eq!(Bool::input("True", Type::new_bool()), Err(InputError::InvalidBool));
    assert_eq!(Timestamp::input("-9223372036854775808", Type::new_timestamp()), Ok(Timestamp::new(i64::MIN)));
    assert_eq!(Timestamp::input("9223372036854775808", Type::new_timestamp()), Err(InputError::InvalidTimestamp));
}

#[test]
fn output_then_input_gives_the_value_back() {
    let it = Type::new_integer();
    for v in [0, 7, -7, i32::MAX, i32::MIN] {
        let i = Integer::new(v);
        assert_eq!(Integer::input(&integer_text(i, it), it), Ok(i));
    }
    let tt = Type::new_timestamp();
    for v in [0i64, 161, -5, i64::MAX] {
        let t = Timestamp::new(v);
        assert_eq!(Timestamp::input(&timestamp_text(t, tt), tt), Ok(t));
    }
    let bt = Type::new_bool();
    for v in [true, false] {
        let b = Bool::new(v);
        assert_eq!(Bool::input(&bool_text(b, bt), bt), Ok(b));
    }
    // numeric(4, 2): 12.34, 0.05, -12.34; numeric(2, 2): -0.5; numeric(6, 0): 42
    for (raw, p, s) in [(1234u64, 4u32, 2u16), (5, 4, 2), ((-1234i64) as u64, 4, 2), ((-50i64) as u64, 2, 2), (42, 6, 0)] {
        let ty = Type::new_numeric(p, s);
        let n = Numeric::new(raw);
        let text = numeric_text(n, ty);
        assert_eq!(Numeric::input(&text, ty), Ok(n), "text {text}");
    }
}

#[test]
fn numeric_input_long_texts() {
    assert_eq!(
        Numeric::input("123456789012345678901234", Type::new_numeric(5, 2)),
        Err(InputError::NumericOverflow { precision: 5, scale: 2 })
    );
    assert_eq!(Numeric::input("0.0000000000000000000001", Type::new_numeric(1, 0)), Ok(Numeric::new(0)));
    assert_eq!(
        Numeric::input("0.1234999999999999999999999999", Type::new_numeric(5, 3)),
        Ok(Numeric::new(123))
    );
    assert_eq!(
        Numeric::input("-0.1235000000000000000000000001", Type::new_numeric(5, 3)),
        Ok(Numeric::new((-124i64) as u64))
    );
    assert_eq!(
        Numeric::input("99999999999999999999.5", Type::new_numeric(18, 0)),
        Err(InputError::NumericOverflow { precision: 18, scale: 0 })
    );
    assert_eq!(
        Numeric::input("999999999999999999", Type::new_numeric(18, 0)),
        Ok(Numeric::new(999999999999999999))
    );
    assert_eq!(
        Numeric::input("1", Type::new_numeric(18, 18)),
        Err(InputError::NumericOverflow { precision: 18, scale: 18 })
    );
}

#[test]
fn numeric_casts_keep_the_sign() {
    let t53 = Type::new_numeric(5, 3);
    let a = Numeric::input("-12.345", t53).unwrap();
    let b = a.cast_scale(t53, Type::new_numeric(5, 2)).unwrap();
    assert_eq!(b.value as i64, -1234);
    assert_eq!(numeric_text(b, Type::new_numeric(5, 2)), "-12.34");
    let c = a.cast_precision(t53, Type::new_numeric(4, 3)).unwrap();
    assert_eq!(c.value as i64, -2345);
    let d = Numeric::input("-1.5", Type::new_numeric(2, 1)).unwrap();
    let e = d.cast_scale(Type::new_numeric(2, 1), Type::new_numeric(4, 3)).unwrap();
    assert_eq!(e.value as i64, -1500);
    let f = Numeric::new(i64::MIN as u64).cast_scale(Type::new_numeric(18, 2), Type::new_numeric(18, 0)).unwrap();
    assert_eq!(f.value as i64, i64::MIN / 100);
}

#[test]
fn numeric_output_negative_below_one() {
    let t = Type::new_numeric(3, 2);
    let n = Numeric::input("-0.05", t).unwrap();
    assert_eq!(n.value as i64, -5);
    assert_eq!(numeric_text(n, t), "-0.05");
    assert_eq!(Numeric::input(&numeric_text(n, t), t), Ok(n));
    let m = Numeric::input("-1.25", t).unwrap();
    assert_eq!(numeric_text(m, t), "-1.25");
}

#[test]
fn integer_to_numeric_signed_and_overflow() {
    assert_eq!(Integer::new(-7).to_numeric(Type::new_numeric(3, 2)).unwrap().value as i64, -700);
    assert_eq!(
        Integer::new(100).to_numeric(Type::new_numeric(2, 0)),
        Err(InputError::NumericOverflow { precision: 2, scale: 0 })
    );
    assert_eq!(
        Integer::new(i32::MAX).to_numeric(Type::new_numeric(18, 18)),
        Err(InputError::NumericOverflow { precision: 18, scale: 18 })
    );
}
