//! The values that plans read and write.

use crate::ints::fits;
use vstd::prelude::*;

verus! {

/// An unsigned integer type of the wire.
#[derive(Clone, Copy, Debug, PartialEq, Eq, Structural)]
pub enum IntType {
    U8,
    U16,
    U32,
    U64,
}

impl IntType {
    /// The number of bytes of the type.
    pub open spec fn size(self) -> nat {
        match self {
            IntType::U8 => 1,
            IntType::U16 => 2,
            IntType::U32 => 4,
            IntType::U64 => 8,
        }
    }

    /// The number of bytes of the type.
    pub fn width(self) -> (n: usize)
        ensures
            n == self.size(),
    {
        match self {
            IntType::U8 => 1,
            IntType::U16 => 2,
            IntType::U32 => 4,
            IntType::U64 => 8,
        }
    }

    /// The value of this type that holds `n`, cut down to the type's width.
    pub open spec fn datum(self, n: u64) -> Datum {
        match self {
            IntType::U8 => Datum::U8((n % 0x100) as u8),
            IntType::U16 => Datum::U16((n % 0x1_0000) as u16),
            IntType::U32 => Datum::U32((n % 0x1_0000_0000) as u32),
            IntType::U64 => Datum::U64(n),
        }
    }

    /// Whether `n` is within the type's range.
    pub open spec fn holds(self, n: u64) -> bool {
        match self {
            IntType::U8 => n < 0x100,
            IntType::U16 => n < 0x1_0000,
            IntType::U32 => n < 0x1_0000_0000,
            IntType::U64 => true,
        }
    }

    /// Whether `n` is within the type's range.
    pub fn admits(self, n: u64) -> (yes: bool)
        ensures
            yes == self.holds(n),
    {
        match self {
            IntType::U8 => n < 0x100,
            IntType::U16 => n < 0x1_0000,
            IntType::U32 => n < 0x1_0000_0000,
            IntType::U64 => true,
        }
    }

    /// The value of this type that holds `n`, cut down to the type's width.
    pub fn value(self, n: u64) -> (value: Value)
        ensures
            value@ == self.datum(n),
    {
        match self {
            IntType::U8 => Value::U8((n % 0x100) as u8),
            IntType::U16 => Value::U16((n % 0x1_0000) as u16),
            IntType::U32 => Value::U32((n % 0x1_0000_0000) as u32),
            IntType::U64 => Value::U64(n),
        }
    }
}

/// What is within a type's range fits in its width.
pub proof fn lemma_holds_fits(ty: IntType, n: u64)
    ensures
        ty.holds(n) == fits(n as nat, ty.size()),
{
    crate::ints::lemma_limits();
}

/// A value of a definition, or of one of its fields.
#[derive(Debug, PartialEq, Eq)]
pub enum Value {
    U8(u8),
    U16(u16),
    U32(u32),
    U64(u64),
    /// The items of a field that is read a counted number of times.
    List(Vec<Value>),
    /// The materialized fields of a struct, in declaration order.
    Record(Vec<Value>),
    /// The materialized fields of the chosen variant of an enum, and the
    /// variant's place in declaration order.
    Variant(usize, Vec<Value>),
}

/// The mathematical content of a [`Value`].
pub enum Datum {
    U8(u8),
    U16(u16),
    U32(u32),
    U64(u64),
    List(Seq<Datum>),
    Record(Seq<Datum>),
    Variant(usize, Seq<Datum>),
}

impl Value {
    /// The mathematical content of the value.
    pub open spec fn datum(self) -> Datum
        decreases self,
    {
        match self {
            Value::U8(n) => Datum::U8(n),
            Value::U16(n) => Datum::U16(n),
            Value::U32(n) => Datum::U32(n),
            Value::U64(n) => Datum::U64(n),
            Value::List(items) => Datum::List(
                Seq::new(
                    items@.len(),
                    |i: int|
                        if 0 <= i < items@.len() {
                            items@[i].datum()
                        } else {
                            Datum::U8(0)
                        },
                ),
            ),
            Value::Record(fields) => Datum::Record(
                Seq::new(
                    fields@.len(),
                    |i: int|
                        if 0 <= i < fields@.len() {
                            fields@[i].datum()
                        } else {
                            Datum::U8(0)
                        },
                ),
            ),
            Value::Variant(index, fields) => Datum::Variant(
                index,
                Seq::new(
                    fields@.len(),
                    |i: int|
                        if 0 <= i < fields@.len() {
                            fields@[i].datum()
                        } else {
                            Datum::U8(0)
                        },
                ),
            ),
        }
    }
}

impl View for Value {
    type V = Datum;

    open spec fn view(&self) -> Datum {
        self.datum()
    }
}

/// The contents of `values`, in order.
pub open spec fn views(values: Seq<Value>) -> Seq<Datum> {
    Seq::new(values.len(), |i: int| values[i]@)
}

/// The content of a composite value is made of the contents of its parts.
pub proof fn lemma_views(value: Value)
    ensures
        value matches Value::List(items) ==> value@ == Datum::List(views(items@)),
        value matches Value::Record(fields) ==> value@ == Datum::Record(views(fields@)),
        value matches Value::Variant(index, fields) ==> value@ == Datum::Variant(
            index,
            views(fields@),
        ),
{
    match value {
        Value::List(items) => {
            assert(value@->List_0 =~= views(items@));
        },
        Value::Record(fields) => {
            assert(value@->Record_0 =~= views(fields@));
        },
        Value::Variant(index, fields) => {
            assert(value@->Variant_1 =~= views(fields@));
        },
        _ => {},
    }
}

impl Datum {
    /// The number that stands for the value in expressions: an integer's
    /// value, a collection's length, 0 for anything else.
    pub open spec fn scalar(self) -> u64 {
        match self {
            Datum::U8(n) => n as u64,
            Datum::U16(n) => n as u64,
            Datum::U32(n) => n as u64,
            Datum::U64(n) => n,
            Datum::List(items) => if items.len() <= u64::MAX {
                items.len() as u64
            } else {
                u64::MAX
            },
            _ => 0,
        }
    }

    /// The integer type of the value, if it is an integer.
    pub open spec fn int_type(self) -> Option<IntType> {
        match self {
            Datum::U8(_) => Some(IntType::U8),
            Datum::U16(_) => Some(IntType::U16),
            Datum::U32(_) => Some(IntType::U32),
            Datum::U64(_) => Some(IntType::U64),
            _ => None,
        }
    }
}

impl Value {
    /// The number that stands for the value in expressions.
    pub fn scalar(&self) -> (n: u64)
        ensures
            n == self@.scalar(),
    {
        match self {
            Value::U8(n) => *n as u64,
            Value::U16(n) => *n as u64,
            Value::U32(n) => *n as u64,
            Value::U64(n) => *n,
            Value::List(items) => items.len() as u64,
            _ => 0,
        }
    }

    /// The integer type of the value, if it is an integer.
    pub fn int_type(&self) -> (ty: Option<IntType>)
        ensures
            ty == self@.int_type(),
    {
        match self {
            Value::U8(_) => Some(IntType::U8),
            Value::U16(_) => Some(IntType::U16),
            Value::U32(_) => Some(IntType::U32),
            Value::U64(_) => Some(IntType::U64),
            _ => None,
        }
    }
}

/// An integer value is the value of its type that holds its number.
pub proof fn lemma_int_datum(value: Datum)
    requires
        value.int_type() is Some,
    ensures
        value.int_type()->0.datum(value.scalar()) == value,
        value.int_type()->0.holds(value.scalar()),
{
}

} // verus!
