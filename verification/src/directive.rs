//! The directives that a field can carry, and what each of them means for
//! one field.

use crate::endian::Endian;
use crate::expr::{entry, eval, try_eval, Expr};
use crate::value::{Datum, IntType, Value};
use vstd::prelude::*;

verus! {

/// The type of a field: an integer of the wire, or another definition, named
/// by its place in the registry.
#[derive(Clone, Copy, Debug, PartialEq, Eq, Structural)]
pub enum FieldType {
    Int(IntType),
    Nested(usize),
}

/// A predicate that must hold of a field once it is read, or before it is
/// written.
#[derive(Debug, PartialEq, Eq)]
pub struct Assertion {
    pub predicate: Expr,
    pub description: String,
}

/// A transform between the number on the wire and the number that is stored.
#[derive(Debug, PartialEq, Eq)]
pub struct Mapping {
    /// From the number on the wire (`This`) to the stored number.
    pub decode: Expr,
    /// From the stored number (`This`) to the number on the wire.
    pub encode: Expr,
}

/// Everything that the attributes of one field say about how it is read and
/// written.
#[derive(Debug, PartialEq, Eq)]
pub struct Directive {
    /// The byte order of this field and of what is nested in it.
    pub endian_override: Option<Endian>,
    /// Where this is 0, the field is skipped.
    pub condition: Option<Expr>,
    /// The field is on the wire but not part of the value.
    pub temporary: bool,
    /// The earlier field that says how many items the field has.
    pub count_source: Option<usize>,
    /// The earlier field that says how many bytes the field's items take.
    pub length_source: Option<usize>,
    /// Bytes to skip, or to fill with zeros, before the field.
    pub pad_before: u64,
    /// Bytes to skip, or to fill with zeros, after the field.
    pub pad_after: u64,
    /// The field starts at the next multiple of this, if it is not 0.
    pub align_before: u64,
    /// The field ends at the next multiple of this, if it is not 0.
    pub align_after: u64,
    /// The stream goes back to where the field started once it is done.
    pub restore_position: bool,
    /// What must hold of the field.
    pub assertions: Vec<Assertion>,
    /// A transform with wrapping arithmetic, cut down to the field's width.
    pub map_fn: Option<Mapping>,
    /// A transform that fails where the arithmetic or the result leaves the
    /// field's range.
    pub try_map_fn: Option<Mapping>,
    /// The arguments for the definition that the field is nested from.
    pub args_expr: Vec<Expr>,
}

/// How many items a field has on the wire.
#[derive(Clone, Copy, Debug, PartialEq, Eq, Structural)]
pub enum Count {
    /// One value, not a collection.
    One,
    /// A collection of so many items.
    Many(u64),
    /// A number of bytes that is no multiple of the item's width.
    Bad,
}

impl FieldType {
    /// The bytes of one item as far as a byte length counts them: the width
    /// of an integer, 1 for anything else.
    pub open spec fn stride(self) -> u64 {
        match self {
            FieldType::Int(ty) => ty.size() as u64,
            FieldType::Nested(_) => 1,
        }
    }

    /// The bytes of one item as far as a byte length counts them.
    pub fn item_stride(self) -> (n: u64)
        ensures
            n == self.stride(),
            n > 0,
    {
        match self {
            FieldType::Int(ty) => ty.width() as u64,
            FieldType::Nested(_) => 1,
        }
    }
}

/// The position after `pad` bytes are skipped from `pos` and the result is
/// brought up to a multiple of `align` (0 for none).
pub open spec fn padded(pos: nat, pad: u64, align: u64) -> nat {
    let at: int = pos + pad;
    let a: int = align as int;
    if a == 0 || at % a == 0 {
        at as nat
    } else {
        (at + a - at % a) as nat
    }
}

/// [`padded`], or nothing where the machine cannot address the position.
pub open spec fn advance(pos: nat, pad: u64, align: u64) -> Option<nat> {
    if padded(pos, pad, align) <= usize::MAX {
        Some(padded(pos, pad, align))
    } else {
        None
    }
}

/// Padding never moves backwards.
pub proof fn lemma_padded(pos: nat, pad: u64, align: u64)
    ensures
        padded(pos, pad, align) >= pos + pad,
        align != 0 ==> (padded(pos, pad, align) as int) % (align as int) == 0,
        pad == 0 && align == 0 ==> padded(pos, pad, align) == pos,
{
    let at: int = pos + pad;
    let a: int = align as int;
    if a != 0 && at % a != 0 {
        let r = at % a;
        vstd::arithmetic::div_mod::lemma_mod_bound(at, a);
        vstd::arithmetic::div_mod::lemma_fundamental_div_mod(at, a);
        let q = at / a;
        assert(at + a - r == a * (q + 1)) by (nonlinear_arith)
            requires
                at == a * q + r,
        ;
        vstd::arithmetic::div_mod::lemma_mod_multiples_basic(q + 1, a);
        assert((q + 1) * a == a * (q + 1)) by (nonlinear_arith);
    }
}

/// The position after padding, if the machine can address it.
pub fn advanced(pos: usize, pad: u64, align: u64) -> (target: Option<usize>)
    ensures
        match advance(pos as nat, pad, align) {
            Some(p) => target == Some(p as usize) && p <= usize::MAX,
            None => target is None,
        },
{
    let at: u128 = pos as u128 + pad as u128;
    let to: u128 = if align == 0 {
        at
    } else {
        let r: u128 = at % (align as u128);
        if r == 0 {
            at
        } else {
            at + (align as u128 - r)
        }
    };
    if to <= usize::MAX as u128 {
        Some(to as usize)
    } else {
        None
    }
}

/// The first of `assertions`, from the one at `from` on, that does not hold.
pub open spec fn first_failed(
    assertions: Seq<Assertion>,
    from: nat,
    env: Seq<u64>,
    args: Seq<u64>,
    this: u64,
) -> Option<nat>
    decreases assertions.len() - from,
{
    if from >= assertions.len() {
        None
    } else if eval(assertions[from as int].predicate, env, args, this) == 0 {
        Some(from)
    } else {
        first_failed(assertions, from + 1, env, args, this)
    }
}

impl Directive {
    /// A directive that says nothing: the field is read and written as it
    /// stands.
    pub fn new() -> (directive: Directive)
        ensures
            directive.plain(),
    {
        Directive {
            endian_override: None,
            condition: None,
            temporary: false,
            count_source: None,
            length_source: None,
            pad_before: 0,
            pad_after: 0,
            align_before: 0,
            align_after: 0,
            restore_position: false,
            assertions: Vec::new(),
            map_fn: None,
            try_map_fn: None,
            args_expr: Vec::new(),
        }
    }

    /// Whether the directive says nothing.
    pub open spec fn plain(self) -> bool {
        &&& self.endian_override is None
        &&& self.condition is None
        &&& !self.temporary
        &&& self.count_source is None
        &&& self.length_source is None
        &&& self.pad_before == 0
        &&& self.pad_after == 0
        &&& self.align_before == 0
        &&& self.align_after == 0
        &&& !self.restore_position
        &&& self.assertions@.len() == 0
        &&& self.map_fn is None
        &&& self.try_map_fn is None
        &&& self.args_expr@.len() == 0
    }

    /// Whether the field is a collection.
    pub open spec fn repeated(self) -> bool {
        self.count_source is Some || self.length_source is Some
    }

    /// Whether the field is processed at all: it has no condition, or its
    /// condition is not 0.
    pub open spec fn enabled(self, env: Seq<u64>, args: Seq<u64>) -> bool {
        match self.condition {
            Some(c) => eval(c, env, args, 0) != 0,
            None => true,
        }
    }

    /// How many items a field of type `ty` has under this directive.
    pub open spec fn count(self, ty: FieldType, env: Seq<u64>) -> Count {
        match self.count_source {
            Some(i) => Count::Many(entry(env, i)),
            None => match self.length_source {
                Some(i) => if entry(env, i) % ty.stride() == 0 {
                    Count::Many(entry(env, i) / ty.stride())
                } else {
                    Count::Bad
                },
                None => Count::One,
            },
        }
    }

    /// The value that a skipped field of type `ty` takes: zero, an empty
    /// collection, or an empty record.
    pub open spec fn default_of(self, ty: FieldType) -> Datum {
        if self.repeated() {
            Datum::List(Seq::empty())
        } else {
            match ty {
                FieldType::Int(t) => t.datum(0),
                FieldType::Nested(_) => Datum::Record(Seq::empty()),
            }
        }
    }

    /// The stored value for the value `raw` that was decoded, or nothing
    /// where a fallible transform fails. Only integers are transformed.
    pub open spec fn map_read(self, raw: Datum, env: Seq<u64>, args: Seq<u64>) -> Option<Datum> {
        match raw.int_type() {
            Some(t) => match self.map_fn {
                Some(m) => Some(t.datum(eval(m.decode, env, args, raw.scalar()))),
                None => match self.try_map_fn {
                    Some(m) => match try_eval(m.decode, env, args, raw.scalar()) {
                        Some(n) => if t.holds(n) {
                            Some(t.datum(n))
                        } else {
                            None
                        },
                        None => None,
                    },
                    None => Some(raw),
                },
            },
            None => Some(raw),
        }
    }

    /// The value to encode for the value `stored`, or nothing where a
    /// fallible transform fails. Only integers are transformed.
    pub open spec fn map_write(self, stored: Datum, env: Seq<u64>, args: Seq<u64>) -> Option<
        Datum,
    > {
        match stored.int_type() {
            Some(t) => match self.map_fn {
                Some(m) => Some(t.datum(eval(m.encode, env, args, stored.scalar()))),
                None => match self.try_map_fn {
                    Some(m) => match try_eval(m.encode, env, args, stored.scalar()) {
                        Some(n) => if t.holds(n) {
                            Some(t.datum(n))
                        } else {
                            None
                        },
                        None => None,
                    },
                    None => Some(stored),
                },
            },
            None => Some(stored),
        }
    }

    /// Whether the field is processed at all.
    pub fn is_enabled(&self, env: &Vec<u64>, args: &Vec<u64>) -> (yes: bool)
        ensures
            yes == self.enabled(env@, args@),
    {
        match &self.condition {
            Some(c) => c.eval(env, args, 0) != 0,
            None => true,
        }
    }

    /// How many items a field of type `ty` has under this directive.
    pub fn item_count(&self, ty: FieldType, env: &Vec<u64>) -> (count: Count)
        ensures
            count == self.count(ty, env@),
    {
        match self.count_source {
            Some(i) => Count::Many(number_at(env, i)),
            None => match self.length_source {
                Some(i) => {
                    let bytes = number_at(env, i);
                    let stride = ty.item_stride();
                    if bytes % stride == 0 {
                        Count::Many(bytes / stride)
                    } else {
                        Count::Bad
                    }
                },
                None => Count::One,
            },
        }
    }

    /// The value that a skipped field of type `ty` takes.
    pub fn default_value(&self, ty: FieldType) -> (value: Value)
        ensures
            value@ == self.default_of(ty),
    {
        if self.count_source.is_some() || self.length_source.is_some() {
            let value = Value::List(Vec::new());
            proof {
                crate::value::lemma_views(value);
                assert(value@->List_0 =~= Seq::empty());
            }
            value
        } else {
            match ty {
                FieldType::Int(t) => t.value(0),
                FieldType::Nested(_) => {
                    let value = Value::Record(Vec::new());
                    proof {
                        crate::value::lemma_views(value);
                        assert(value@->Record_0 =~= Seq::empty());
                    }
                    value
                },
            }
        }
    }

    /// The first assertion that does not hold of the number `this`.
    pub fn check(&self, env: &Vec<u64>, args: &Vec<u64>, this: u64) -> (bad: Option<usize>)
        ensures
            first_failed(self.assertions@, 0, env@, args@, this) == match bad {
                Some(j) => Some(j as nat),
                None => None,
            },
            bad matches Some(j) ==> j < self.assertions@.len(),
    {
        let mut i: usize = 0;
        while i < self.assertions.len()
            invariant
                i <= self.assertions@.len(),
                first_failed(self.assertions@, 0, env@, args@, this) == first_failed(
                    self.assertions@,
                    i as nat,
                    env@,
                    args@,
                    this,
                ),
            decreases self.assertions@.len() - i,
        {
            if self.assertions[i].predicate.eval(env, args, this) == 0 {
                return Some(i);
            }
            i = i + 1;
        }
        None
    }

    /// Applies the transform of the directive to `value`, in the direction
    /// of a read (`reading`) or of a write.
    pub fn transform(&self, value: &Value, env: &Vec<u64>, args: &Vec<u64>, reading: bool) -> (mapped:
        Mapped)
        ensures
            match (if reading {
                self.map_read(value@, env@, args@)
            } else {
                self.map_write(value@, env@, args@)
            }) {
                Some(d) => match mapped {
                    Mapped::Same => d == value@,
                    Mapped::New(v) => v@ == d,
                    Mapped::Failed => false,
                },
                None => mapped is Failed,
            },
            mapped is New ==> value@.int_type() is Some,
    {
        match value.int_type() {
            Some(t) => match &self.map_fn {
                Some(m) => {
                    let e = if reading {
                        &m.decode
                    } else {
                        &m.encode
                    };
                    Mapped::New(t.value(e.eval(env, args, value.scalar())))
                },
                None => match &self.try_map_fn {
                    Some(m) => {
                        let e = if reading {
                            &m.decode
                        } else {
                            &m.encode
                        };
                        match e.try_eval(env, args, value.scalar()) {
                            Some(n) => if t.admits(n) {
                                Mapped::New(t.value(n))
                            } else {
                                Mapped::Failed
                            },
                            None => Mapped::Failed,
                        }
                    },
                    None => Mapped::Same,
                },
            },
            None => Mapped::Same,
        }
    }
}

/// What a transform gives.
#[derive(Debug, PartialEq, Eq)]
pub enum Mapped {
    /// The value as it was.
    Same,
    /// Another value.
    New(Value),
    /// Nothing: the transform failed.
    Failed,
}

fn number_at(numbers: &Vec<u64>, i: usize) -> (n: u64)
    ensures
        n == entry(numbers@, i),
{
    if i < numbers.len() {
        numbers[i]
    } else {
        0
    }
}

} // verus!
