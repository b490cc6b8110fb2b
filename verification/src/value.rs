//! Scalar values and the operations on them.
//!
//! A value is one scalar of a table cell: an integer of one of ten widths, a
//! decimal quantity, a boolean, the hash of an interned string, a reference
//! to a table, an index, or nothing (`Empty`).

use vstd::prelude::*;
use crate::error::MechErrorKind;
use crate::quantities::{truncated_quotient, Quantity};
use crate::table::TableId;

verus! {

/// The kind of a value, and of the column that holds it.
#[derive(Clone, Copy, Debug, PartialEq, Eq, Structural, Hash)]
pub enum ValueKind {
    U8,
    U16,
    U32,
    U64,
    U128,
    I8,
    I16,
    I32,
    I64,
    I128,
    Bool,
    String,
    Reference,
    Index,
    Quantity,
    /// A column of this kind takes values of every kind.
    Any,
    Empty,
}

/// One scalar.
#[derive(Clone, Copy, Debug, PartialEq, Eq, Structural, Hash)]
pub enum Value {
    U8(u8),
    U16(u16),
    U32(u32),
    U64(u64),
    U128(u128),
    I8(i8),
    I16(i16),
    I32(i32),
    I64(i64),
    I128(i128),
    Bool(bool),
    /// An interned string, by the hash of its text.
    String(u64),
    /// Another table, by its id.
    Reference(TableId),
    Index(usize),
    Quantity(Quantity),
    Empty,
}

/// The operations that take two values.
#[derive(Clone, Copy, Debug, PartialEq, Eq, Structural, Hash)]
pub enum Operator {
    Add,
    Subtract,
    Multiply,
    Divide,
    Power,
    GreaterThan,
    LessThan,
    GreaterThanEqual,
    LessThanEqual,
    Equal,
    NotEqual,
    And,
    Or,
    Xor,
}

/// `base` to the power `exponent`.
pub open spec fn int_pow(base: int, exponent: nat) -> int
    decreases exponent,
{
    if exponent == 0 {
        1
    } else {
        base * int_pow(base, (exponent - 1) as nat)
    }
}

impl ValueKind {
    /// Whether the kind is one of the integer widths.
    pub open spec fn is_integer(self) -> bool {
        self.is_unsigned() || self.is_signed()
    }

    /// Whether the kind is an unsigned integer width.
    pub open spec fn is_unsigned(self) -> bool {
        self is U8 || self is U16 || self is U32 || self is U64 || self is U128
    }

    /// Whether the kind is a signed integer width.
    pub open spec fn is_signed(self) -> bool {
        self is I8 || self is I16 || self is I32 || self is I64 || self is I128
    }

    /// The number of values of an integer kind: two to the power of its width.
    pub open spec fn modulus(self) -> int {
        match self {
            ValueKind::U8 | ValueKind::I8 => 0x100,
            ValueKind::U16 | ValueKind::I16 => 0x1_0000,
            ValueKind::U32 | ValueKind::I32 => 0x1_0000_0000,
            ValueKind::U64 | ValueKind::I64 => 0x1_0000_0000_0000_0000,
            _ => u128::MAX + 1,
        }
    }

    /// The largest number of an integer kind.
    pub open spec fn highest(self) -> int {
        if self.is_signed() {
            self.modulus() / 2 - 1
        } else {
            self.modulus() - 1
        }
    }

    /// The smallest number of an integer kind.
    pub open spec fn lowest(self) -> int {
        if self.is_signed() {
            -(self.modulus() / 2)
        } else {
            0
        }
    }

    /// The number of this integer kind that differs from `x` by a multiple
    /// of the kind's modulus.
    pub open spec fn wrap(self, x: int) -> int {
        let r = x % self.modulus();
        if r > self.highest() {
            r - self.modulus()
        } else {
            r
        }
    }

    /// `x`, held within the range of an integer kind: a number above the
    /// range becomes the largest of the kind, one below it the smallest.
    pub open spec fn saturate(self, x: int) -> int {
        if x > self.highest() {
            self.highest()
        } else if x < self.lowest() {
            self.lowest()
        } else {
            x
        }
    }

    /// The number of bits of an integer kind; zero for any other kind.
    pub open spec fn spec_width(&self) -> usize {
        match self {
            ValueKind::U8 | ValueKind::I8 => 8,
            ValueKind::U16 | ValueKind::I16 => 16,
            ValueKind::U32 | ValueKind::I32 => 32,
            ValueKind::U64 | ValueKind::I64 => 64,
            ValueKind::U128 | ValueKind::I128 => 128,
            _ => 0,
        }
    }

    /// The number of bits of an integer kind; zero for any other kind.
    #[verifier::when_used_as_spec(spec_width)]
    pub fn width(&self) -> (w: usize)
        ensures
            w == self.spec_width(),
    {
        match self {
            ValueKind::U8 | ValueKind::I8 => 8,
            ValueKind::U16 | ValueKind::I16 => 16,
            ValueKind::U32 | ValueKind::I32 => 32,
            ValueKind::U64 | ValueKind::I64 => 64,
            ValueKind::U128 | ValueKind::I128 => 128,
            _ => 0,
        }
    }

    /// The value that a new cell of a column of this kind holds: the number
    /// zero, `false`, the hash zero, a reference to no table, or nothing.
    pub open spec fn spec_zero(&self) -> Value {
        match self {
            ValueKind::U8 => Value::U8(0),
            ValueKind::U16 => Value::U16(0),
            ValueKind::U32 => Value::U32(0),
            ValueKind::U64 => Value::U64(0),
            ValueKind::U128 => Value::U128(0),
            ValueKind::I8 => Value::I8(0),
            ValueKind::I16 => Value::I16(0),
            ValueKind::I32 => Value::I32(0),
            ValueKind::I64 => Value::I64(0),
            ValueKind::I128 => Value::I128(0),
            ValueKind::Bool => Value::Bool(false),
            ValueKind::String => Value::String(0),
            ValueKind::Reference => Value::Reference(TableId::Local(0)),
            ValueKind::Index => Value::Index(0),
            ValueKind::Quantity => Value::Quantity(Quantity { mantissa: 0, range: 0, domain: 0 }),
            ValueKind::Any | ValueKind::Empty => Value::Empty,
        }
    }

    /// Whether a column of this kind can hold `value`: a value of the same
    /// kind, any value where the kind is `Any`, and `Empty` everywhere.
    pub open spec fn admits(self, value: Value) -> bool {
        value is Empty || self is Any || value.kind() == self
    }

    /// The zero of this kind.
    #[verifier::when_used_as_spec(spec_zero)]
    pub fn zero(&self) -> (v: Value)
        ensures
            v == self.spec_zero(),
            self.admits(v),
    {
        match self {
            ValueKind::U8 => Value::U8(0),
            ValueKind::U16 => Value::U16(0),
            ValueKind::U32 => Value::U32(0),
            ValueKind::U64 => Value::U64(0),
            ValueKind::U128 => Value::U128(0),
            ValueKind::I8 => Value::I8(0),
            ValueKind::I16 => Value::I16(0),
            ValueKind::I32 => Value::I32(0),
            ValueKind::I64 => Value::I64(0),
            ValueKind::I128 => Value::I128(0),
            ValueKind::Bool => Value::Bool(false),
            ValueKind::String => Value::String(0),
            ValueKind::Reference => Value::Reference(TableId::Local(0)),
            ValueKind::Index => Value::Index(0),
            ValueKind::Quantity => Value::Quantity(Quantity { mantissa: 0, range: 0, domain: 0 }),
            ValueKind::Any | ValueKind::Empty => Value::Empty,
        }
    }

    /// Whether a column of this kind can hold `value`.
    pub fn accepts(&self, value: &Value) -> (b: bool)
        ensures
            b == self.admits(*value),
    {
        match value {
            Value::Empty => true,
            _ => *self == ValueKind::Any || value.kind() == *self,
        }
    }
}

impl Operator {
    /// Whether the operator is one of arithmetic.
    pub open spec fn is_arithmetic(self) -> bool {
        self is Add || self is Subtract || self is Multiply || self is Divide || self is Power
    }

    /// Whether the operator compares by order.
    pub open spec fn is_ordering(self) -> bool {
        self is GreaterThan || self is LessThan || self is GreaterThanEqual
            || self is LessThanEqual
    }

    /// Whether the operator tests equality.
    pub open spec fn is_equality(self) -> bool {
        self is Equal || self is NotEqual
    }

    /// Whether the operator is one of logic.
    pub open spec fn is_logic(self) -> bool {
        self is And || self is Or || self is Xor
    }

    /// The number that an arithmetic operator gives on whole numbers, before
    /// it is brought back into the range of their kind.
    pub open spec fn exact(self, x: int, y: int) -> int {
        match self {
            Operator::Add => x + y,
            Operator::Subtract => x - y,
            Operator::Multiply => x * y,
            Operator::Divide => truncated_quotient(x, y),
            _ => int_pow(x, y as nat),
        }
    }

    /// What an ordering operator says of two numbers.
    pub open spec fn holds(self, x: int, y: int) -> bool {
        match self {
            Operator::GreaterThan => x > y,
            Operator::LessThan => x < y,
            Operator::GreaterThanEqual => x >= y,
            _ => x <= y,
        }
    }

    /// What a logic operator says of two truth values.
    pub open spec fn combine(self, x: bool, y: bool) -> bool {
        match self {
            Operator::And => x && y,
            Operator::Or => x || y,
            _ => x != y,
        }
    }

    /// The kind of the cells that this operator fills, given that of its
    /// operands: truth values for comparisons, the operands' kind otherwise.
    pub open spec fn spec_result_kind(self, operand: ValueKind) -> ValueKind {
        if self.is_ordering() || self.is_equality() {
            ValueKind::Bool
        } else {
            operand
        }
    }

    /// The kind of what the operator yields on operands of the given kind.
    pub fn result_kind(&self, operand: ValueKind) -> (k: ValueKind)
        ensures
            k == self.spec_result_kind(operand),
    {
        match self {
            Operator::GreaterThan
            | Operator::LessThan
            | Operator::GreaterThanEqual
            | Operator::LessThanEqual
            | Operator::Equal
            | Operator::NotEqual => ValueKind::Bool,
            _ => operand,
        }
    }
}

impl Value {
    /// The kind of the value.
    pub open spec fn spec_kind(&self) -> ValueKind {
        match self {
            Value::U8(_) => ValueKind::U8,
            Value::U16(_) => ValueKind::U16,
            Value::U32(_) => ValueKind::U32,
            Value::U64(_) => ValueKind::U64,
            Value::U128(_) => ValueKind::U128,
            Value::I8(_) => ValueKind::I8,
            Value::I16(_) => ValueKind::I16,
            Value::I32(_) => ValueKind::I32,
            Value::I64(_) => ValueKind::I64,
            Value::I128(_) => ValueKind::I128,
            Value::Bool(_) => ValueKind::Bool,
            Value::String(_) => ValueKind::String,
            Value::Reference(_) => ValueKind::Reference,
            Value::Index(_) => ValueKind::Index,
            Value::Quantity(_) => ValueKind::Quantity,
            Value::Empty => ValueKind::Empty,
        }
    }

    /// The kind of the value.
    #[verifier::when_used_as_spec(spec_kind)]
    pub fn kind(&self) -> (k: ValueKind)
        ensures
            k == self.spec_kind(),
    {
        match self {
            Value::U8(_) => ValueKind::U8,
            Value::U16(_) => ValueKind::U16,
            Value::U32(_) => ValueKind::U32,
            Value::U64(_) => ValueKind::U64,
            Value::U128(_) => ValueKind::U128,
            Value::I8(_) => ValueKind::I8,
            Value::I16(_) => ValueKind::I16,
            Value::I32(_) => ValueKind::I32,
            Value::I64(_) => ValueKind::I64,
            Value::I128(_) => ValueKind::I128,
            Value::Bool(_) => ValueKind::Bool,
            Value::String(_) => ValueKind::String,
            Value::Reference(_) => ValueKind::Reference,
            Value::Index(_) => ValueKind::Index,
            Value::Quantity(_) => ValueKind::Quantity,
            Value::Empty => ValueKind::Empty,
        }
    }

    /// The number that a value of an integer kind holds.
    pub open spec fn as_int(&self) -> int {
        match self {
            Value::U8(x) => *x as int,
            Value::U16(x) => *x as int,
            Value::U32(x) => *x as int,
            Value::U64(x) => *x as int,
            Value::U128(x) => *x as int,
            Value::I8(x) => *x as int,
            Value::I16(x) => *x as int,
            Value::I32(x) => *x as int,
            Value::I64(x) => *x as int,
            Value::I128(x) => *x as int,
            _ => 0,
        }
    }

    /// The value of an integer kind that holds the number `x`.
    pub open spec fn integer(kind: ValueKind, x: int) -> Value
        recommends
            kind.is_integer(),
            kind.lowest() <= x <= kind.highest(),
    {
        match kind {
            ValueKind::U8 => Value::U8(x as u8),
            ValueKind::U16 => Value::U16(x as u16),
            ValueKind::U32 => Value::U32(x as u32),
            ValueKind::U64 => Value::U64(x as u64),
            ValueKind::U128 => Value::U128(x as u128),
            ValueKind::I8 => Value::I8(x as i8),
            ValueKind::I16 => Value::I16(x as i16),
            ValueKind::I32 => Value::I32(x as i32),
            ValueKind::I64 => Value::I64(x as i64),
            _ => Value::I128(x as i128),
        }
    }

    /// The value as a number of the integer kind `kind`: an integer is held
    /// within the range of that kind, and any other value stays as it is.
    pub open spec fn spec_converted(self, kind: ValueKind) -> Value {
        if self.kind().is_integer() && kind.is_integer() {
            Value::integer(kind, kind.saturate(self.as_int()))
        } else {
            self
        }
    }

    /// What an operator gives on two values.
    ///
    /// - An empty operand empties the result of arithmetic, ordering and
    ///   logic; it is equal to nothing, itself included.
    /// - Equality compares values of one kind; two quantities are equal when
    ///   they stand for the same number in the same unit domain.
    /// - Arithmetic and ordering take two integers of one kind or two
    ///   quantities of one unit domain. Integer arithmetic keeps the kind and
    ///   wraps around its range; quantity arithmetic keeps the domain.
    ///   Dividing by zero is an error, and so is a negative exponent.
    /// - Logic takes two truth values.
    /// - Every other pairing is a mismatch of kinds.
    pub open spec fn spec_apply(op: Operator, a: Value, b: Value) -> Result<Value, MechErrorKind> {
        if a is Empty || b is Empty {
            if op is Equal {
                Ok(Value::Bool(false))
            } else if op is NotEqual {
                Ok(Value::Bool(true))
            } else {
                Ok(Value::Empty)
            }
        } else if a.kind() != b.kind() {
            Err(MechErrorKind::ColumnKindMismatch(a.kind(), b.kind()))
        } else if op.is_equality() {
            let same = match (a, b) {
                (Value::Quantity(x), Value::Quantity(y)) => x.domain == y.domain && x.same_number(
                    y,
                ),
                _ => a == b,
            };
            Ok(Value::Bool(same == (op is Equal)))
        } else if op.is_logic() {
            match (a, b) {
                (Value::Bool(x), Value::Bool(y)) => Ok(Value::Bool(op.combine(x, y))),
                _ => Err(MechErrorKind::ColumnKindMismatch(ValueKind::Bool, a.kind())),
            }
        } else if a.kind().is_integer() {
            if op.is_ordering() {
                Ok(Value::Bool(op.holds(a.as_int(), b.as_int())))
            } else if op is Divide && b.as_int() == 0 {
                Err(MechErrorKind::DivideByZero)
            } else if op is Power && b.as_int() < 0 {
                Err(MechErrorKind::UnhandledFunctionArgumentKind(b.kind()))
            } else {
                Ok(Value::integer(a.kind(), a.kind().wrap(op.exact(a.as_int(), b.as_int()))))
            }
        } else if a is Quantity {
            let x = a->Quantity_0;
            let y = b->Quantity_0;
            if x.domain != y.domain {
                Err(MechErrorKind::DomainMismatch(x.domain, y.domain))
            } else {
                match op {
                    Operator::Add => Ok(Value::Quantity(x.spec_add(y))),
                    Operator::Subtract => Ok(Value::Quantity(x.spec_sub(y))),
                    Operator::Multiply => Ok(Value::Quantity(x.spec_multiply(y))),
                    Operator::Divide => if y.mantissa == 0 {
                        Err(MechErrorKind::DivideByZero)
                    } else {
                        Ok(Value::Quantity(x.spec_divide(y)))
                    },
                    Operator::Power => Err(
                        MechErrorKind::UnhandledFunctionArgumentKind(ValueKind::Quantity),
                    ),
                    Operator::GreaterThan => Ok(Value::Bool(y.below(x))),
                    Operator::LessThan => Ok(Value::Bool(x.below(y))),
                    Operator::GreaterThanEqual => Ok(Value::Bool(!x.below(y))),
                    _ => Ok(Value::Bool(!y.below(x))),
                }
            }
        } else {
            Err(MechErrorKind::ColumnKindMismatch(a.kind(), b.kind()))
        }
    }

    /// The opposite of a signed integer, wrapped into its kind, or of a
    /// quantity; nothing for nothing.
    pub open spec fn spec_negate(self) -> Result<Value, MechErrorKind> {
        if self is Empty {
            Ok(Value::Empty)
        } else if self.kind().is_signed() {
            Ok(Value::integer(self.kind(), self.kind().wrap(-self.as_int())))
        } else if self is Quantity {
            Ok(Value::Quantity(self->Quantity_0.spec_negate()))
        } else {
            Err(MechErrorKind::UnhandledFunctionArgumentKind(self.kind()))
        }
    }

    /// The other truth value; nothing for nothing.
    pub open spec fn spec_not(self) -> Result<Value, MechErrorKind> {
        match self {
            Value::Empty => Ok(Value::Empty),
            Value::Bool(x) => Ok(Value::Bool(!x)),
            _ => Err(MechErrorKind::ColumnKindMismatch(ValueKind::Bool, self.kind())),
        }
    }
}


/// The sign and the magnitude of a number.
pub open spec fn signed(negative: bool, magnitude: int) -> int {
    if negative {
        -magnitude
    } else {
        magnitude
    }
}

proof fn lemma_mod_facts(x: int, m: int)
    requires
        m > 0,
    ensures
        0 <= x % m < m,
        0 <= x < m ==> x % m == x,
        -m <= x < 0 ==> x % m == x + m,
{
    vstd::arithmetic::div_mod::lemma_mod_bound(x, m);
    if 0 <= x < m {
        vstd::arithmetic::div_mod::lemma_small_mod(x as nat, m as nat);
    }
    if -m <= x < 0 {
        vstd::arithmetic::div_mod::lemma_small_mod((x + m) as nat, m as nat);
        vstd::arithmetic::div_mod::lemma_mod_add_multiples_vanish(x, m);
    }
}

proof fn lemma_residues(kind: ValueKind, x: int)
    requires
        kind.is_integer(),
    ensures
        0 <= x % kind.modulus() < kind.modulus(),
        0 <= x < kind.modulus() ==> x % kind.modulus() == x,
        -kind.modulus() <= x < 0 ==> x % kind.modulus() == x + kind.modulus(),
{
    lemma_mod_facts(x, kind.modulus());
}

proof fn lemma_int_pow_step(base: int, i: nat)
    ensures
        int_pow(base, i + 1) == int_pow(base, i) * base,
{
    assert(int_pow(base, i + 1) == base * int_pow(base, i));
    assert(base * int_pow(base, i) == int_pow(base, i) * base) by (nonlinear_arith);
}

fn signed_parts(x: i128) -> (p: (bool, u128))
    ensures
        signed(p.0, p.1 as int) == x,
        p.0 == (x < 0),
{
    if x >= 0 {
        (false, x as u128)
    } else {
        (true, (-(x + 1)) as u128 + 1)
    }
}

fn is_wide(kind: ValueKind) -> (b: bool)
    ensures
        b == (kind is U128 || kind is I128),
{
    match kind {
        ValueKind::U128 | ValueKind::I128 => true,
        _ => false,
    }
}

fn narrow_modulus(kind: ValueKind) -> (m: u128)
    requires
        kind.is_integer(),
        !(kind is U128 || kind is I128),
    ensures
        m == kind.modulus(),
{
    match kind {
        ValueKind::U8 | ValueKind::I8 => 0x100,
        ValueKind::U16 | ValueKind::I16 => 0x1_0000,
        ValueKind::U32 | ValueKind::I32 => 0x1_0000_0000,
        _ => 0x1_0000_0000_0000_0000,
    }
}

/// The residue of a number modulo the number of values of its kind.
fn residue(kind: ValueKind, negative: bool, magnitude: u128) -> (r: u128)
    requires
        kind.is_integer(),
        magnitude < kind.modulus(),
    ensures
        r == signed(negative, magnitude as int) % kind.modulus(),
{
    proof {
        lemma_residues(kind, signed(negative, magnitude as int));
    }
    if !negative || magnitude == 0 {
        magnitude
    } else if is_wide(kind) {
        (u128::MAX - magnitude) + 1
    } else {
        narrow_modulus(kind) - magnitude
    }
}

/// The number of an integer kind with the given residue.
fn from_residue(kind: ValueKind, r: u128) -> (v: Value)
    requires
        kind.is_integer(),
        r < kind.modulus(),
    ensures
        v == Value::integer(
            kind,
            if r > kind.highest() {
                r - kind.modulus()
            } else {
                r as int
            },
        ),
{
    match kind {
        ValueKind::U8 => Value::U8(r as u8),
        ValueKind::U16 => Value::U16(r as u16),
        ValueKind::U32 => Value::U32(r as u32),
        ValueKind::U64 => Value::U64(r as u64),
        ValueKind::U128 => Value::U128(r),
        ValueKind::I8 => if r > 0x7f {
            Value::I8((r as i128 - 0x100) as i8)
        } else {
            Value::I8(r as i8)
        },
        ValueKind::I16 => if r > 0x7fff {
            Value::I16((r as i128 - 0x1_0000) as i16)
        } else {
            Value::I16(r as i16)
        },
        ValueKind::I32 => if r > 0x7fff_ffff {
            Value::I32((r as i128 - 0x1_0000_0000) as i32)
        } else {
            Value::I32(r as i32)
        },
        ValueKind::I64 => if r > 0x7fff_ffff_ffff_ffff {
            Value::I64((r as i128 - 0x1_0000_0000_0000_0000) as i64)
        } else {
            Value::I64(r as i64)
        },
        _ => if r > 0x7fff_ffff_ffff_ffff_ffff_ffff_ffff_ffff {
            Value::I128((r - 0x8000_0000_0000_0000_0000_0000_0000_0000) as i128 + i128::MIN)
        } else {
            Value::I128(r as i128)
        },
    }
}

/// The largest number of an integer kind.
fn highest_of(kind: ValueKind) -> (h: u128)
    requires
        kind.is_integer(),
    ensures
        h == kind.highest(),
{
    match kind {
        ValueKind::U8 => 0xff,
        ValueKind::U16 => 0xffff,
        ValueKind::U32 => 0xffff_ffff,
        ValueKind::U64 => 0xffff_ffff_ffff_ffff,
        ValueKind::U128 => u128::MAX,
        ValueKind::I8 => 0x7f,
        ValueKind::I16 => 0x7fff,
        ValueKind::I32 => 0x7fff_ffff,
        ValueKind::I64 => 0x7fff_ffff_ffff_ffff,
        _ => 0x7fff_ffff_ffff_ffff_ffff_ffff_ffff_ffff,
    }
}

/// How far below zero the smallest number of an integer kind lies.
fn depth_of(kind: ValueKind) -> (d: u128)
    requires
        kind.is_integer(),
    ensures
        d == -kind.lowest(),
{
    match kind {
        ValueKind::I8 => 0x80,
        ValueKind::I16 => 0x8000,
        ValueKind::I32 => 0x8000_0000,
        ValueKind::I64 => 0x8000_0000_0000_0000,
        ValueKind::I128 => 0x8000_0000_0000_0000_0000_0000_0000_0000,
        _ => 0,
    }
}

/// The residue of a sum, a difference or a product, from those of its
/// operands.
fn residue_arithmetic(op: Operator, kind: ValueKind, ra: u128, rb: u128, Ghost(x): Ghost<int>, Ghost(y): Ghost<int>) -> (r: u128)
    requires
        kind.is_integer(),
        op is Add || op is Subtract || op is Multiply,
        ra == x % kind.modulus(),
        rb == y % kind.modulus(),
    ensures
        r == op.exact(x, y) % kind.modulus(),
{
    let ghost m = kind.modulus();
    proof {
        lemma_residues(kind, x);
        lemma_residues(kind, y);
        vstd::arithmetic::div_mod::lemma_add_mod_noop(x, y, m);
        vstd::arithmetic::div_mod::lemma_sub_mod_noop(x, y, m);
        vstd::arithmetic::div_mod::lemma_mul_mod_noop_general(x, y, m);
        lemma_residues(kind, ra + rb);
        lemma_residues(kind, ra - rb);
    }
    if is_wide(kind) {
        match op {
            Operator::Add => ra.wrapping_add(rb),
            Operator::Subtract => ra.wrapping_sub(rb),
            _ => ra.wrapping_mul(rb),
        }
    } else {
        let modulus: u128 = narrow_modulus(kind);
        match op {
            Operator::Add => {
                let sum: u128 = ra + rb;
                if sum >= modulus {
                    sum - modulus
                } else {
                    sum
                }
            },
            Operator::Subtract => {
                if ra >= rb {
                    ra - rb
                } else {
                    ra + modulus - rb
                }
            },
            _ => {
                assert(ra * rb <= 0xffff_ffff_ffff_ffff * 0xffff_ffff_ffff_ffff) by (nonlinear_arith)
                    requires
                        ra <= 0xffff_ffff_ffff_ffff,
                        rb <= 0xffff_ffff_ffff_ffff,
                ;
                (ra * rb) % modulus
            },
        }
    }
}

/// The residue of a power, by repeated multiplication.
fn residue_power(kind: ValueKind, base: u128, exponent: u128, Ghost(x): Ghost<int>) -> (r: u128)
    requires
        kind.is_integer(),
        base == x % kind.modulus(),
    ensures
        r == int_pow(x, exponent as nat) % kind.modulus(),
{
    let ghost m = kind.modulus();
    proof {
        lemma_residues(kind, 1);
    }
    let mut acc: u128 = 1;
    let mut i: u128 = 0;
    while i < exponent
        invariant
            i <= exponent,
            kind.is_integer(),
            m == kind.modulus(),
            base == x % m,
            acc == int_pow(x, i as nat) % m,
        decreases exponent - i,
    {
        proof {
            lemma_int_pow_step(x, i as nat);
        }
        acc = residue_arithmetic(
            Operator::Multiply,
            kind,
            acc,
            base,
            Ghost(int_pow(x, i as nat)),
            Ghost(x),
        );
        i += 1;
    }
    acc
}

/// Whether the first number is below the second.
fn parts_below(a: (bool, u128), b: (bool, u128)) -> (r: bool)
    ensures
        r == (signed(a.0, a.1 as int) < signed(b.0, b.1 as int)),
{
    if a.0 {
        if b.0 {
            a.1 > b.1
        } else {
            a.1 > 0 || b.1 > 0
        }
    } else {
        if b.0 {
            false
        } else {
            a.1 < b.1
        }
    }
}

impl Value {
    /// The value that stands for nothing.
    pub fn empty() -> (v: Value)
        ensures
            v == Value::Empty,
    {
        Value::Empty
    }

    /// Whether the value is `Empty`.
    pub fn is_empty(&self) -> (b: bool)
        ensures
            b == (*self is Empty),
    {
        match self {
            Value::Empty => true,
            _ => false,
        }
    }

    /// Whether the value is a number: an integer or a quantity.
    pub fn is_number(&self) -> (b: bool)
        ensures
            b == (self.kind().is_integer() || *self is Quantity),
    {
        match self {
            Value::Quantity(_) => true,
            _ => Value::kind_is_integer(self.kind()),
        }
    }

    fn kind_is_integer(kind: ValueKind) -> (b: bool)
        ensures
            b == kind.is_integer(),
    {
        match kind {
            ValueKind::U8
            | ValueKind::U16
            | ValueKind::U32
            | ValueKind::U64
            | ValueKind::U128
            | ValueKind::I8
            | ValueKind::I16
            | ValueKind::I32
            | ValueKind::I64
            | ValueKind::I128 => true,
            _ => false,
        }
    }

    /// The number as a value of kind `U64`.
    pub fn from_u64(x: u64) -> (v: Value)
        ensures
            v == Value::U64(x),
    {
        Value::U64(x)
    }

    /// The truth value as a value.
    pub fn from_bool(x: bool) -> (v: Value)
        ensures
            v == Value::Bool(x),
    {
        Value::Bool(x)
    }

    /// A reference to the global table with this id.
    pub fn from_id(id: u64) -> (v: Value)
        ensures
            v == Value::Reference(TableId::Global(id)),
    {
        Value::Reference(TableId::Global(id))
    }

    /// The quantity as a value.
    pub fn from_quantity(q: Quantity) -> (v: Value)
        ensures
            v == Value::Quantity(q),
    {
        Value::Quantity(q)
    }

    /// The interned string with this text.
    pub fn from_string(text: &str) -> (v: Value)
        ensures
            v == Value::String(crate::hash::spec_hash_chars(text@)),
    {
        Value::String(crate::hash::hash_str(text))
    }

    /// The number that a non-negative integer below `2^64` holds, whatever
    /// its kind.
    pub open spec fn spec_as_u64(&self) -> Option<u64> {
        if self.kind().is_integer() && 0 <= self.as_int() <= u64::MAX {
            Some(self.as_int() as u64)
        } else {
            None
        }
    }

    /// The number that an integer value holds, where it is one of 64 unsigned
    /// bits.
    pub fn as_u64(&self) -> (r: Option<u64>)
        ensures
            r == self.spec_as_u64(),
    {
        if !Value::kind_is_integer(self.kind()) {
            return None;
        }
        let (negative, magnitude) = self.parts();
        if negative || magnitude > u64::MAX as u128 {
            None
        } else {
            Some(magnitude as u64)
        }
    }

    /// The truth value that the value holds.
    pub fn as_bool(&self) -> (r: Option<bool>)
        ensures
            r == (match *self {
                Value::Bool(x) => Some(x),
                _ => None,
            }),
    {
        match self {
            Value::Bool(x) => Some(*x),
            _ => None,
        }
    }

    /// The id of the table that a reference points to.
    pub fn as_reference(&self) -> (r: Option<u64>)
        ensures
            r == (match *self {
                Value::Reference(id) => Some(id.spec_unwrap()),
                _ => None,
            }),
    {
        match self {
            Value::Reference(id) => Some(*id.unwrap()),
            _ => None,
        }
    }

    /// The hash of an interned string.
    pub fn as_string(&self) -> (r: Option<u64>)
        ensures
            r == (match *self {
                Value::String(hash) => Some(hash),
                _ => None,
            }),
    {
        match self {
            Value::String(hash) => Some(*hash),
            _ => None,
        }
    }

    /// A number as a quantity: a quantity as it is, an integer within the
    /// range of `i64` with range zero and no unit.
    pub open spec fn spec_as_quantity(&self) -> Option<Quantity> {
        if *self is Quantity {
            Some(self->Quantity_0)
        } else if self.kind().is_integer() && i64::MIN <= self.as_int() <= i64::MAX {
            Some(Quantity { mantissa: self.as_int() as i64, range: 0, domain: 0 })
        } else {
            None
        }
    }

    /// The value as a quantity, where it holds one or holds an integer that a
    /// quantity can stand for.
    pub fn as_quantity(&self) -> (r: Option<Quantity>)
        ensures
            r == self.spec_as_quantity(),
    {
        match self {
            Value::Quantity(q) => Some(*q),
            _ => {
                if !Value::kind_is_integer(self.kind()) {
                    return None;
                }
                let (negative, magnitude) = self.parts();
                if negative {
                    if magnitude > 0x8000_0000_0000_0000 {
                        None
                    } else {
                        Some(
                            Quantity {
                                mantissa: (-(magnitude as i128)) as i64,
                                range: 0,
                                domain: 0,
                            },
                        )
                    }
                } else if magnitude > 0x7fff_ffff_ffff_ffff {
                    None
                } else {
                    Some(Quantity { mantissa: magnitude as i64, range: 0, domain: 0 })
                }
            },
        }
    }

    /// The sign and magnitude of an integer.
    fn parts(&self) -> (p: (bool, u128))
        requires
            self.kind().is_integer(),
        ensures
            signed(p.0, p.1 as int) == self.as_int(),
            p.0 == (self.as_int() < 0),
            p.1 < self.kind().modulus(),
            p.0 ==> p.1 <= self.kind().modulus() / 2,
            !p.0 ==> p.1 <= self.kind().highest(),
    {
        match self {
            Value::U8(x) => (false, *x as u128),
            Value::U16(x) => (false, *x as u128),
            Value::U32(x) => (false, *x as u128),
            Value::U64(x) => (false, *x as u128),
            Value::U128(x) => (false, *x),
            Value::I8(x) => signed_parts(*x as i128),
            Value::I16(x) => signed_parts(*x as i128),
            Value::I32(x) => signed_parts(*x as i128),
            Value::I64(x) => signed_parts(*x as i128),
            Value::I128(x) => signed_parts(*x),
            _ => (false, 0),
        }
    }

    /// The value as a number of the integer kind `kind`: an integer is held
    /// within the range of that kind, and any other value stays as it is.
    pub fn converted(self, kind: ValueKind) -> (v: Value)
        ensures
            v == self.spec_converted(kind),
    {
        if !Value::kind_is_integer(self.kind()) || !Value::kind_is_integer(kind) {
            return self;
        }
        let (negative, magnitude) = self.parts();
        let bound: u128 = if negative {
            depth_of(kind)
        } else {
            highest_of(kind)
        };
        let held: u128 = if magnitude > bound {
            bound
        } else {
            magnitude
        };
        let below: bool = negative && held > 0;
        let r: u128 = residue(kind, below, held);
        proof {
            assert(signed(below, held as int) == kind.saturate(self.as_int()));
            lemma_residues(kind, kind.saturate(self.as_int()));
        }
        from_residue(kind, r)
    }

    /// Arithmetic and ordering on two integers of one kind.
    fn integer_operation(op: Operator, a: Value, b: Value) -> (r: Result<Value, MechErrorKind>)
        requires
            a.kind() == b.kind(),
            a.kind().is_integer(),
            op.is_arithmetic() || op.is_ordering(),
        ensures
            r == Value::spec_apply(op, a, b),
    {
        let kind: ValueKind = a.kind();
        let pa = a.parts();
        let pb = b.parts();
        let ghost x = a.as_int();
        let ghost y = b.as_int();
        match op {
            Operator::GreaterThan => Ok(Value::Bool(parts_below(pb, pa))),
            Operator::LessThan => Ok(Value::Bool(parts_below(pa, pb))),
            Operator::GreaterThanEqual => Ok(Value::Bool(!parts_below(pa, pb))),
            Operator::LessThanEqual => Ok(Value::Bool(!parts_below(pb, pa))),
            Operator::Divide => {
                if pb.1 == 0 {
                    Err(MechErrorKind::DivideByZero)
                } else {
                    let magnitude: u128 = pa.1 / pb.1;
                    assert(magnitude <= pa.1) by (nonlinear_arith)
                        requires
                            magnitude == pa.1 / pb.1,
                            pb.1 >= 1,
                    ;
                    let negative: bool = pa.0 != pb.0;
                    let r: u128 = residue(kind, negative, magnitude);
                    proof {
                        lemma_residues(kind, truncated_quotient(x, y));
                    }
                    Ok(from_residue(kind, r))
                }
            },
            Operator::Power => {
                if pb.0 {
                    Err(MechErrorKind::UnhandledFunctionArgumentKind(kind))
                } else {
                    let base: u128 = residue(kind, pa.0, pa.1);
                    let r: u128 = residue_power(kind, base, pb.1, Ghost(x));
                    proof {
                        lemma_residues(kind, int_pow(x, y as nat));
                    }
                    Ok(from_residue(kind, r))
                }
            },
            _ => {
                let ra: u128 = residue(kind, pa.0, pa.1);
                let rb: u128 = residue(kind, pb.0, pb.1);
                let r: u128 = residue_arithmetic(op, kind, ra, rb, Ghost(x), Ghost(y));
                proof {
                    lemma_residues(kind, op.exact(x, y));
                }
                Ok(from_residue(kind, r))
            },
        }
    }

    /// Arithmetic and ordering on two quantities.
    fn quantity_operation(op: Operator, x: Quantity, y: Quantity) -> (r: Result<
        Value,
        MechErrorKind,
    >)
        requires
            op.is_arithmetic() || op.is_ordering(),
        ensures
            r == Value::spec_apply(op, Value::Quantity(x), Value::Quantity(y)),
    {
        if x.domain != y.domain {
            return Err(MechErrorKind::DomainMismatch(x.domain, y.domain));
        }
        match op {
            Operator::Add => Ok(Value::Quantity(x.add(y))),
            Operator::Subtract => Ok(Value::Quantity(x.sub(y))),
            Operator::Multiply => Ok(Value::Quantity(x.multiply(y))),
            Operator::Divide => {
                if y.mantissa == 0 {
                    Err(MechErrorKind::DivideByZero)
                } else {
                    Ok(Value::Quantity(x.divide(y)))
                }
            },
            Operator::Power => Err(
                MechErrorKind::UnhandledFunctionArgumentKind(ValueKind::Quantity),
            ),
            Operator::GreaterThan => Ok(Value::Bool(y.less_than(x))),
            Operator::LessThan => Ok(Value::Bool(x.less_than(y))),
            Operator::GreaterThanEqual => Ok(Value::Bool(!x.less_than(y))),
            _ => Ok(Value::Bool(!y.less_than(x))),
        }
    }

    /// Applies an operator to two values.
    pub fn apply(op: Operator, a: Value, b: Value) -> (r: Result<Value, MechErrorKind>)
        ensures
            r == Value::spec_apply(op, a, b),
    {
        if a.is_empty() || b.is_empty() {
            return match op {
                Operator::Equal => Ok(Value::Bool(false)),
                Operator::NotEqual => Ok(Value::Bool(true)),
                _ => Ok(Value::Empty),
            };
        }
        if a.kind() != b.kind() {
            return Err(MechErrorKind::ColumnKindMismatch(a.kind(), b.kind()));
        }
        match op {
            Operator::Equal | Operator::NotEqual => {
                let same: bool = match (a, b) {
                    (Value::Quantity(x), Value::Quantity(y)) => x.domain == y.domain && x.equal(y),
                    _ => a == b,
                };
                Ok(Value::Bool(same == (op == Operator::Equal)))
            },
            Operator::And | Operator::Or | Operator::Xor => {
                match (a, b) {
                    (Value::Bool(x), Value::Bool(y)) => {
                        let z: bool = match op {
                            Operator::And => x && y,
                            Operator::Or => x || y,
                            _ => x != y,
                        };
                        Ok(Value::Bool(z))
                    },
                    _ => Err(MechErrorKind::ColumnKindMismatch(ValueKind::Bool, a.kind())),
                }
            },
            _ => {
                match (a, b) {
                    (Value::Quantity(x), Value::Quantity(y)) => Value::quantity_operation(op, x, y),
                    _ => {
                        if Value::kind_is_integer(a.kind()) {
                            Value::integer_operation(op, a, b)
                        } else {
                            Err(MechErrorKind::ColumnKindMismatch(a.kind(), b.kind()))
                        }
                    },
                }
            },
        }
    }

    /// The sum of two values of one kind.
    pub fn add(self, other: Value) -> (r: Result<Value, MechErrorKind>)
        ensures
            r == Value::spec_apply(Operator::Add, self, other),
    {
        Value::apply(Operator::Add, self, other)
    }

    /// The difference of two values of one kind.
    pub fn sub(self, other: Value) -> (r: Result<Value, MechErrorKind>)
        ensures
            r == Value::spec_apply(Operator::Subtract, self, other),
    {
        Value::apply(Operator::Subtract, self, other)
    }

    /// The product of two values of one kind.
    pub fn multiply(self, other: Value) -> (r: Result<Value, MechErrorKind>)
        ensures
            r == Value::spec_apply(Operator::Multiply, self, other),
    {
        Value::apply(Operator::Multiply, self, other)
    }

    /// The quotient of two values of one kind.
    pub fn divide(self, other: Value) -> (r: Result<Value, MechErrorKind>)
        ensures
            r == Value::spec_apply(Operator::Divide, self, other),
    {
        Value::apply(Operator::Divide, self, other)
    }

    /// The left value raised to the right one.
    pub fn power(self, other: Value) -> (r: Result<Value, MechErrorKind>)
        ensures
            r == Value::spec_apply(Operator::Power, self, other),
    {
        Value::apply(Operator::Power, self, other)
    }

    /// The opposite number.
    pub fn negate(self) -> (r: Result<Value, MechErrorKind>)
        ensures
            r == self.spec_negate(),
    {
        match self {
            Value::Empty => Ok(Value::Empty),
            Value::Quantity(q) => Ok(Value::Quantity(q.negate())),
            Value::I8(_) | Value::I16(_) | Value::I32(_) | Value::I64(_) | Value::I128(_) => {
                let kind: ValueKind = self.kind();
                let (negative, magnitude) = self.parts();
                let r: u128 = residue(kind, !negative, magnitude);
                proof {
                    lemma_residues(kind, -self.as_int());
                }
                Ok(from_residue(kind, r))
            },
            _ => Err(MechErrorKind::UnhandledFunctionArgumentKind(self.kind())),
        }
    }

    /// The other truth value.
    pub fn not(self) -> (r: Result<Value, MechErrorKind>)
        ensures
            r == self.spec_not(),
    {
        match self {
            Value::Empty => Ok(Value::Empty),
            Value::Bool(x) => Ok(Value::Bool(!x)),
            _ => Err(MechErrorKind::ColumnKindMismatch(ValueKind::Bool, self.kind())),
        }
    }
}

/// Integer arithmetic keeps the kind of its operands, and gives the exact
/// number wherever that number lies in the range of the kind.
pub proof fn lemma_arithmetic_preserves_kind(op: Operator, a: Value, b: Value)
    requires
        op.is_arithmetic(),
        a.kind().is_integer(),
        a.kind() == b.kind(),
        Value::spec_apply(op, a, b) is Ok,
    ensures
        Value::spec_apply(op, a, b)->Ok_0.kind() == a.kind(),
        a.kind().lowest() <= op.exact(a.as_int(), b.as_int()) <= a.kind().highest()
            ==> Value::spec_apply(op, a, b)->Ok_0.as_int() == op.exact(a.as_int(), b.as_int()),
{
    let kind = a.kind();
    let exact = op.exact(a.as_int(), b.as_int());
    lemma_residues(kind, exact);
    if kind.lowest() <= exact <= kind.highest() {
        lemma_residues(kind, exact);
    }
}

} // verus!
