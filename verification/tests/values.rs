use mech_core::error::MechErrorKind;
use mech_core::indexes::{CharChunks, Hasher};
use mech_core::runtime::{check_bit, check_bits, clear_bit, has_any_bits, set_bit};
use mech_core::{
    hash_bytes, hash_chars, hash_str, make_quantity, MechString, Operator, TableId, TableIndex,
    Value, ValueKind,
};

#[test]
fn identifiers_are_the_low_56_bits_of_seahash() {
    let bytes = vec![1u8, 2, 3, 250];
    assert_eq!(hash_bytes(&bytes), seahash::hash(&bytes) & 0x00FF_FFFF_FFFF_FFFF);
    assert_eq!(hash_str("math/add"), seahash::hash(b"math/add") & 0x00FF_FFFF_FFFF_FFFF);
    assert_ne!(hash_str("row"), hash_str("column"));
    assert!(hash_str("table/split") <= 0x00FF_FFFF_FFFF_FFFF);
    let chars: Vec<char> = "größe".chars().collect();
    assert_eq!(hash_chars(&chars), hash_str("größe"));
}

#[test]
fn mech_strings_keep_their_characters() {
    let s = MechString::from_str("héllo");
    assert_eq!(s.len(), 5);
    assert_eq!(s.to_string(), "héllo");
    assert_eq!(s.hash(), hash_str("héllo"));
    assert_eq!(MechString::new().len(), 0);
    assert_eq!(MechString::from_string("ab".to_string()).to_string(), "ab");
    assert_eq!(MechString::from_chars(&vec!['x', 'y']).to_string(), "xy");
}

#[test]
fn hasher_weighs_bytes_in_groups_of_four() {
    let mut hasher = Hasher::new();
    hasher.write("ab");
    assert_eq!(hasher.read(), 97 + 98 * 256);
    hasher.write("abcde");
    let second = 97 + 98 * 256 + 99 * 65536 + 100 * 16777216 + 101;
    assert_eq!(hasher.read(), 97 + 98 * 256 + second);
    assert_eq!(hasher.finish(), 97 + 98 * 256 + second);
    assert_eq!(hasher.read(), 0);
    hasher.write("z");
    hasher.reset();
    assert_eq!(hasher.read(), 0);
}

#[test]
fn char_chunks_cut_a_string_into_pieces() {
    let mut chunks = CharChunks::new("abcdefghij", 4);
    assert_eq!(chunks.next(), Some("abcd"));
    assert_eq!(chunks.next(), Some("efgh"));
    assert_eq!(chunks.next(), Some("ij"));
    assert_eq!(chunks.next(), None);
    let mut empty = CharChunks::new("", 4);
    assert_eq!(empty.next(), None);
}

#[test]
fn bit_helpers() {
    assert_eq!(set_bit(0, 3), 8);
    assert_eq!(set_bit(8, 3), 8);
    assert_eq!(clear_bit(0b1111, 1), 0b1101);
    assert!(check_bit(0b100, 2));
    assert!(!check_bit(0b100, 1));
    assert!(check_bits(0b111, 0b101));
    assert!(!check_bits(0b011, 0b101));
    assert!(has_any_bits(0b011, 0b101));
    assert!(!has_any_bits(0b010, 0b101));
    assert_eq!(set_bit(0, 63), 1 << 63);
}

#[test]
fn selectors_unwrap_to_their_numbers() {
    assert_eq!(*TableId::Local(7).unwrap(), 7);
    assert_eq!(*TableId::Global(9).unwrap(), 9);
    assert_eq!(TableIndex::Index(5).unwrap(), 5);
    assert_eq!(TableIndex::Alias(11).unwrap(), 11);
    assert_eq!(TableIndex::Table(TableId::Global(13)).unwrap(), 13);
    assert_eq!(TableIndex::All.unwrap(), 0);
    assert_eq!(TableIndex::Absent.unwrap(), 0);
}

#[test]
fn arithmetic_keeps_the_kind_and_wraps() {
    assert_eq!(Value::U8(200).add(Value::U8(100)), Ok(Value::U8(44)));
    assert_eq!(Value::U8(3).sub(Value::U8(5)), Ok(Value::U8(254)));
    assert_eq!(Value::I8(-128).sub(Value::I8(1)), Ok(Value::I8(127)));
    assert_eq!(Value::I8(127).add(Value::I8(1)), Ok(Value::I8(-128)));
    assert_eq!(Value::U64(6).multiply(Value::U64(7)), Ok(Value::U64(42)));
    assert_eq!(Value::U64(u64::MAX).multiply(Value::U64(2)), Ok(Value::U64(u64::MAX - 1)));
    assert_eq!(Value::I64(-7).divide(Value::I64(2)), Ok(Value::I64(-3)));
    assert_eq!(Value::I8(-128).divide(Value::I8(-1)), Ok(Value::I8(-128)));
    assert_eq!(Value::U128(u128::MAX).add(Value::U128(2)), Ok(Value::U128(1)));
    assert_eq!(Value::I128(i128::MIN).sub(Value::I128(1)), Ok(Value::I128(i128::MAX)));
    assert_eq!(Value::I128(-3).multiply(Value::I128(5)), Ok(Value::I128(-15)));
    assert_eq!(Value::U16(2).power(Value::U16(10)), Ok(Value::U16(1024)));
    assert_eq!(Value::U8(2).power(Value::U8(9)), Ok(Value::U8(0)));
    assert_eq!(Value::I32(-2).power(Value::I32(3)), Ok(Value::I32(-8)));
    assert_eq!(Value::U32(9).power(Value::U32(0)), Ok(Value::U32(1)));
    assert_eq!(Value::I16(-5).negate(), Ok(Value::I16(5)));
    assert_eq!(Value::I16(i16::MIN).negate(), Ok(Value::I16(i16::MIN)));
}

#[test]
fn arithmetic_errors() {
    assert_eq!(
        Value::U8(1).add(Value::U16(1)),
        Err(MechErrorKind::ColumnKindMismatch(ValueKind::U8, ValueKind::U16))
    );
    assert_eq!(Value::U8(1).divide(Value::U8(0)), Err(MechErrorKind::DivideByZero));
    assert_eq!(
        Value::I8(2).power(Value::I8(-1)),
        Err(MechErrorKind::UnhandledFunctionArgumentKind(ValueKind::I8))
    );
    assert_eq!(
        Value::Bool(true).add(Value::Bool(true)),
        Err(MechErrorKind::ColumnKindMismatch(ValueKind::Bool, ValueKind::Bool))
    );
    assert_eq!(
        Value::apply(Operator::And, Value::U8(1), Value::U8(1)),
        Err(MechErrorKind::ColumnKindMismatch(ValueKind::Bool, ValueKind::U8))
    );
    let grams = Value::from_quantity(make_quantity(1, 0, 1));
    let metres = Value::from_quantity(make_quantity(1, 0, 2));
    assert_eq!(grams.add(metres), Err(MechErrorKind::DomainMismatch(1, 2)));
    let zero = Value::from_quantity(make_quantity(0, 0, 1));
    assert_eq!(grams.divide(zero), Err(MechErrorKind::DivideByZero));
    assert_eq!(
        Value::U8(1).negate(),
        Err(MechErrorKind::UnhandledFunctionArgumentKind(ValueKind::U8))
    );
    assert_eq!(
        Value::U8(1).not(),
        Err(MechErrorKind::ColumnKindMismatch(ValueKind::Bool, ValueKind::U8))
    );
}

#[test]
fn empty_is_unknown() {
    assert_eq!(Value::Empty.add(Value::U8(1)), Ok(Value::Empty));
    assert_eq!(Value::apply(Operator::LessThan, Value::U8(1), Value::Empty), Ok(Value::Empty));
    assert_eq!(Value::apply(Operator::Equal, Value::Empty, Value::Empty), Ok(Value::Bool(false)));
    assert_eq!(Value::apply(Operator::NotEqual, Value::Empty, Value::U8(1)), Ok(Value::Bool(true)));
    assert_eq!(Value::Empty.negate(), Ok(Value::Empty));
    assert_eq!(Value::Empty.not(), Ok(Value::Empty));
    assert!(Value::empty().is_empty());
}

#[test]
fn comparisons_and_logic() {
    let compare = |op, a: i64, b: i64| Value::apply(op, Value::I64(a), Value::I64(b));
    assert_eq!(compare(Operator::GreaterThan, 2, 1), Ok(Value::Bool(true)));
    assert_eq!(compare(Operator::GreaterThan, -2, 1), Ok(Value::Bool(false)));
    assert_eq!(compare(Operator::LessThan, -2, -1), Ok(Value::Bool(true)));
    assert_eq!(compare(Operator::GreaterThanEqual, 1, 1), Ok(Value::Bool(true)));
    assert_eq!(compare(Operator::LessThanEqual, 2, 1), Ok(Value::Bool(false)));
    assert_eq!(compare(Operator::Equal, 2, 2), Ok(Value::Bool(true)));
    assert_eq!(compare(Operator::NotEqual, 2, 2), Ok(Value::Bool(false)));
    let logic = |op, a, b| Value::apply(op, Value::Bool(a), Value::Bool(b));
    assert_eq!(logic(Operator::And, true, false), Ok(Value::Bool(false)));
    assert_eq!(logic(Operator::Or, true, false), Ok(Value::Bool(true)));
    assert_eq!(logic(Operator::Xor, true, true), Ok(Value::Bool(false)));
    assert_eq!(Value::Bool(true).not(), Ok(Value::Bool(false)));
    assert_eq!(
        Value::apply(Operator::Equal, Value::String(5), Value::String(5)),
        Ok(Value::Bool(true))
    );
    let tenth = Value::from_quantity(make_quantity(1, -1, 0));
    let hundredths = Value::from_quantity(make_quantity(10, -2, 0));
    assert_eq!(Value::apply(Operator::Equal, tenth, hundredths), Ok(Value::Bool(true)));
    assert_eq!(Value::apply(Operator::LessThan, tenth, hundredths), Ok(Value::Bool(false)));
}

#[test]
fn quantities_stop_at_the_bounds() {
    let big = make_quantity(i64::MAX, 0, 0);
    assert_eq!(big.add(make_quantity(1, 0, 0)).mantissa(), i64::MAX);
    assert_eq!(big.multiply(make_quantity(2, 0, 0)).mantissa(), i64::MAX);
    assert_eq!(make_quantity(1, 30, 0).add(make_quantity(1, 0, 0)).mantissa(), i64::MAX);
    assert_eq!(make_quantity(-1, 30, 0).add(make_quantity(1, 0, 0)).mantissa(), i64::MIN);
    assert_eq!(make_quantity(0, 30, 0).add(make_quantity(7, 0, 0)).mantissa(), 7);
    assert_eq!(make_quantity(-7, 0, 0).divide(make_quantity(2, 0, 0)).mantissa(), -35000);
    assert_eq!(make_quantity(-7, 0, 0).divide(make_quantity(2, 0, 0)).range(), -4);
    assert_eq!(make_quantity(5, 1, 3).negate(), make_quantity(-5, 1, 3));
    assert!(make_quantity(5, 1, 0).equal(make_quantity(50, 0, 0)));
    assert!(make_quantity(49, 0, 0).less_than(make_quantity(5, 1, 0)));
    assert_eq!(make_quantity(12, -1, 0).to_string(), "12e-1");
}

#[test]
fn values_convert() {
    assert_eq!(Value::from_u64(5).as_u64(), Some(5));
    assert_eq!(Value::I8(-1).as_u64(), None);
    assert_eq!(Value::U128(1 << 70).as_u64(), None);
    assert_eq!(Value::I32(8).as_u64(), Some(8));
    assert_eq!(Value::from_bool(true).as_bool(), Some(true));
    assert_eq!(Value::from_id(4).as_reference(), Some(4));
    assert_eq!(Value::from_string("a").as_string(), Some(hash_str("a")));
    assert_eq!(Value::I16(-3).as_quantity(), Some(make_quantity(-3, 0, 0)));
    assert_eq!(Value::U64(u64::MAX).as_quantity(), None);
    assert_eq!(Value::Bool(true).as_quantity(), None);
    assert!(Value::U8(1).is_number());
    assert!(!Value::Bool(true).is_number());
    assert_eq!(Value::U8(1).kind(), ValueKind::U8);
    assert_eq!(ValueKind::I32.zero(), Value::I32(0));
    assert_eq!(ValueKind::Any.zero(), Value::Empty);
    assert!(ValueKind::U8.accepts(&Value::Empty));
    assert!(!ValueKind::U8.accepts(&Value::U16(1)));
    assert!(ValueKind::Any.accepts(&Value::U16(1)));
}

#[test]
fn hashes_read_as_four_syllables() {
    assert_eq!(mech_core::humanize(&0), "nil-nil-nil-nil");
    assert_eq!(mech_core::humanize(&0x0001_0002_0003_00ff), "ama-ine-ska-uta");
    assert_eq!(mech_core::humanize(&0xff01_ff0e_ff10_ff80), "ama-ado-loo-may");
    assert_eq!(mech_core::humanize(&u64::MAX), "uta-uta-uta-uta");
}
