//! Writing a value as a plan describes it.
//!
//! The `emit_*` functions say what a write does to a stream; the `write_*`
//! functions do it. Fields are taken in the order of a read. A temporary
//! field has no place in the value: what is written for it is the number of
//! items, or of bytes, of the first later collection that names it as its
//! count, or as its length.

use crate::binwrite::{put_bytes, BinWrite, WriteOptions, Written};
use crate::directive::{advance, advanced, first_failed, Count, Directive, FieldType, Mapped};
use crate::endian::Endian;
use crate::error::{failure_of, BinResult, Error, Failure, LeafError};
use crate::expr::{eval_all, eval_each};
use crate::ints::{encode, int_bytes};
use crate::io::{zeros, Cursor, Stream};
use crate::plan::{Body, Field, Input, Registry, Shape, Variant};
use crate::read::{find_variant, parse_body};
use crate::value::{lemma_views, views, Datum, IntType, Value};
use vstd::prelude::*;

verus! {

/// What a write leaves behind.
pub struct Emitted {
    /// The stream after the write.
    pub stream: Stream,
    /// The failure that ended the write, if one did.
    pub failure: Option<Failure>,
    /// Whether everything that the value holds went onto the wire and stayed
    /// there: no skipped field held anything but its default, no transform
    /// lost anything, no field went back to where it started, and no variant
    /// that is found by trying stands behind another that reads the same
    /// bytes.
    pub faithful: bool,
}

/// A write that went through.
pub open spec fn emitted(stream: Stream) -> Emitted {
    Emitted { stream, failure: None, faithful: true }
}

/// A write that failed.
pub open spec fn refused(stream: Stream, failure: Failure) -> Emitted {
    Emitted { stream, failure: Some(failure), faithful: true }
}

/// One write after another.
pub open spec fn after(first: Emitted, next: Emitted) -> Emitted {
    Emitted {
        stream: next.stream,
        failure: next.failure,
        faithful: first.faithful && next.faithful,
    }
}

/// The write of plain bytes.
pub open spec fn emit_bytes(stream: Stream, bytes: Seq<u8>) -> Emitted {
    let w = put_bytes(stream, bytes);
    Emitted { stream: w.stream, failure: w.failure, faithful: true }
}

/// Whether an executable write did what `e` says.
pub open spec fn carried_out(e: Emitted, stream: Stream, result: Result<(), Error>) -> bool {
    e.stream == stream && e.failure == failure_of(result)
}

/// Whether `a` and `b` both hold the bytes from `from` up to `to`, and hold
/// the same.
pub open spec fn agree(a: Seq<u8>, b: Seq<u8>, from: nat, to: nat) -> bool {
    &&& from < to ==> to <= a.len() && to <= b.len()
    &&& forall|i: int| from <= i < to ==> (#[trigger] a[i]) == b[i]
}

/// Zeros from the position up to where the padding ends.
pub open spec fn fill(stream: Stream, pad: u64, align: u64) -> Emitted {
    match advance(stream.pos, pad, align) {
        Some(target) => emitted(stream.put(zeros((target - stream.pos) as nat))),
        None => refused(stream, Failure::LeafCodecError(LeafError::PositionOverflow)),
    }
}

/// An integer of type `ty`; a value of another type is refused.
pub open spec fn emit_int(ty: IntType, value: Datum, stream: Stream, big: bool) -> Emitted {
    if value.int_type() == Some(ty) {
        emit_bytes(stream, int_bytes(value.scalar() as nat, ty.size(), big))
    } else {
        refused(stream, Failure::LeafCodecError(LeafError::WrongShape))
    }
}

/// One item of type `ty`.
pub open spec fn emit_item(
    reg: Seq<Input>,
    tid: nat,
    ty: FieldType,
    value: Datum,
    stream: Stream,
    big: bool,
    args: Seq<u64>,
) -> Emitted
    decreases tid, 0nat, 0nat,
{
    match ty {
        FieldType::Int(t) => emit_int(t, value, stream, big),
        FieldType::Nested(t) => if t < tid {
            emit_type(reg, t as nat, value, stream, big, args)
        } else {
            refused(stream, Failure::UnresolvedReference { field: None })
        },
    }
}

/// The items from `i` on, one after the other.
pub open spec fn emit_items(
    reg: Seq<Input>,
    tid: nat,
    ty: FieldType,
    items: Seq<Datum>,
    i: nat,
    stream: Stream,
    big: bool,
    args: Seq<u64>,
) -> Emitted
    decreases tid, 1nat, items.len() - i,
{
    if i >= items.len() {
        emitted(stream)
    } else {
        let w = emit_item(reg, tid, ty, items[i as int], stream, big, args);
        if w.failure is Some {
            w
        } else {
            after(w, emit_items(reg, tid, ty, items, i + 1, w.stream, big, args))
        }
    }
}

/// What is wrong with `stored` as the value of a field with this count.
pub open spec fn shape_failure(count: Count, stored: Datum) -> Option<Failure> {
    match count {
        Count::Bad => Some(Failure::LeafCodecError(LeafError::WrongCount)),
        Count::Many(n) => match stored {
            Datum::List(items) => if items.len() == n {
                None
            } else {
                Some(Failure::LeafCodecError(LeafError::WrongCount))
            },
            _ => Some(Failure::LeafCodecError(LeafError::WrongShape)),
        },
        Count::One => None,
    }
}

/// What goes to the codec of field `k` for the value `stored`: the count is
/// held against the value, the assertions are checked in order, and the
/// transform is applied.
pub open spec fn prepared(field: Field, k: usize, stored: Datum, env: Seq<u64>, args: Seq<u64>) -> Result<
    Datum,
    Failure,
> {
    let d = field.directive;
    match shape_failure(d.count(field.ty, env), stored) {
        Some(f) => Err(f),
        None => match first_failed(d.assertions@, 0, env, args, stored.scalar()) {
            Some(j) => Err(
                Failure::AssertionFailed {
                    field: k,
                    description: d.assertions@[j as int].description@,
                },
            ),
            None => match d.map_write(stored, env, args) {
                None => Err(Failure::MapFailed { field: k }),
                Some(wire) => Ok(wire),
            },
        },
    }
}

/// Field `k` with the value `stored`, once it is known to be enabled and the
/// padding before it is written: the count is held against the value, the
/// assertions are checked in order, the transform is applied, the result is
/// written by the field's codec, and the padding after it is written.
pub open spec fn emit_content(
    reg: Seq<Input>,
    tid: nat,
    field: Field,
    k: usize,
    stored: Datum,
    stream: Stream,
    big: bool,
    args: Seq<u64>,
    env: Seq<u64>,
) -> Emitted
    decreases tid, 2nat, 0nat,
{
    let d = field.directive;
    let order = Endian::over(d.endian_override, big);
    let inner = eval_all(d.args_expr@, env, args);
    let count = d.count(field.ty, env);
    match prepared(field, k, stored, env, args) {
        Err(f) => refused(stream, f),
        Ok(wire) => {
            let body = if count is Many {
                emit_items(reg, tid, field.ty, wire->List_0, 0, stream, order, inner)
            } else {
                emit_item(reg, tid, field.ty, wire, stream, order, inner)
            };
            if body.failure is Some {
                body
            } else {
                let tail = fill(body.stream, d.pad_after, d.align_after);
                Emitted {
                    stream: tail.stream,
                    failure: tail.failure,
                    faithful: body.faithful && d.map_read(wire, env, args) == Some(stored),
                }
            }
        },
    }
}

/// Field `k` with the value `stored`. A field whose condition is 0 is
/// left out whole. Else the padding before it is written as zeros and the
/// field is written; with `restore_position` the stream then goes back to
/// where the field started, whether the write failed or not.
pub open spec fn emit_field(
    reg: Seq<Input>,
    tid: nat,
    field: Field,
    k: usize,
    stored: Datum,
    stream: Stream,
    big: bool,
    args: Seq<u64>,
    env: Seq<u64>,
) -> Emitted
    decreases tid, 3nat, 0nat,
{
    let d = field.directive;
    if !d.enabled(env, args) {
        Emitted {
            stream,
            failure: None,
            faithful: d.temporary || stored == d.default_of(field.ty),
        }
    } else {
        let head = fill(stream, d.pad_before, d.align_before);
        if head.failure is Some {
            head
        } else {
            let inner = emit_content(reg, tid, field, k, stored, head.stream, big, args, env);
            if d.restore_position {
                Emitted {
                    stream: inner.stream.at(head.stream.pos),
                    failure: inner.failure,
                    faithful: false,
                }
            } else {
                inner
            }
        }
    }
}

/// The number to write for the temporary field `target`: the fields from `j`
/// on are searched for the first collection in the value that names `target`
/// as its count (the number is how many items it has) or as its length (how
/// many bytes its items count for); 0 if there is none. `m` is the place in
/// `values` of the value of field `j`.
pub open spec fn derived(
    fields: Seq<Field>,
    target: usize,
    j: nat,
    values: Seq<Datum>,
    m: nat,
) -> nat
    decreases fields.len() - j,
{
    if j >= fields.len() {
        0
    } else {
        let f = fields[j as int];
        if f.directive.temporary {
            derived(fields, target, j + 1, values, m)
        } else if m < values.len() && values[m as int] is List && f.directive.count_source == Some(
            target,
        ) {
            values[m as int]->List_0.len()
        } else if m < values.len() && values[m as int] is List && f.directive.count_source is None
            && f.directive.length_source == Some(target) {
            values[m as int]->List_0.len() * (f.ty.stride() as nat)
        } else {
            derived(fields, target, j + 1, values, m + 1)
        }
    }
}

/// The value that field `k` is written with: for a temporary field the
/// number that is derived for it, which must fit the field's type; else the
/// value at place `next` of `values`.
pub open spec fn stored_of(fields: Seq<Field>, k: nat, values: Seq<Datum>, next: nat) -> Result<
    Datum,
    Failure,
> {
    let field = fields[k as int];
    if field.directive.temporary {
        match field.ty {
            FieldType::Int(t) => {
                let n = derived(fields, k as usize, k + 1, values, next);
                if n <= u64::MAX && t.holds(n as u64) {
                    Ok(t.datum(n as u64))
                } else {
                    Err(Failure::LeafCodecError(LeafError::OutOfRange))
                }
            },
            FieldType::Nested(_) => Err(Failure::LeafCodecError(LeafError::WrongShape)),
        }
    } else if next < values.len() {
        Ok(values[next as int])
    } else {
        Err(Failure::LeafCodecError(LeafError::WrongShape))
    }
}

/// The fields from `k` on, in declaration order, with the values from place
/// `next` of `values` on for those that are not temporary. `env` holds the
/// numbers of the fields before `k`. The first failure ends the write; so
/// does a value that is left over at the end.
pub open spec fn emit_fields(
    reg: Seq<Input>,
    tid: nat,
    fields: Seq<Field>,
    k: nat,
    values: Seq<Datum>,
    next: nat,
    stream: Stream,
    big: bool,
    args: Seq<u64>,
    env: Seq<u64>,
) -> Emitted
    decreases tid, 4nat, fields.len() - k,
{
    if k >= fields.len() {
        if next == values.len() {
            emitted(stream)
        } else {
            refused(stream, Failure::LeafCodecError(LeafError::WrongShape))
        }
    } else {
        let field = fields[k as int];
        match stored_of(fields, k, values, next) {
            Err(f) => refused(stream, f),
            Ok(stored) => {
                let w = emit_field(reg, tid, field, k as usize, stored, stream, big, args, env);
                if w.failure is Some {
                    w
                } else {
                    after(
                        w,
                        emit_fields(
                            reg,
                            tid,
                            fields,
                            k + 1,
                            values,
                            if field.directive.temporary {
                                next
                            } else {
                                next + 1
                            },
                            w.stream,
                            big,
                            args,
                            env.push(pushed(field.directive, stored, env, args)),
                        ),
                    )
                }
            },
        }
    }
}

/// A body with the values `values`: its magic bytes, then its fields.
pub open spec fn emit_body(
    reg: Seq<Input>,
    tid: nat,
    body: Body,
    values: Seq<Datum>,
    stream: Stream,
    big: bool,
    args: Seq<u64>,
) -> Emitted
    decreases tid, 5nat, 0nat,
{
    let head = emit_bytes(stream, body.magic@);
    if head.failure is Some {
        head
    } else {
        emit_fields(reg, tid, body.fields@, 0, values, 0, head.stream, big, args, Seq::empty())
    }
}

/// Whether none of the variants before `i` reads without failure from
/// `from`, on whatever bytes agree with `data` between `from` and `to`.
pub open spec fn first_choice(
    reg: Seq<Input>,
    tid: nat,
    variants: Seq<Variant>,
    i: nat,
    data: Seq<u8>,
    from: nat,
    to: nat,
    big: bool,
    args: Seq<u64>,
) -> bool {
    forall|j: int, other: Seq<u8>|
        0 <= j < i && j < variants.len() && agree(other, data, from, to) ==> (#[trigger] parse_body(
            reg,
            tid,
            variants[j].body,
            other,
            from,
            big,
            args,
        )).result is Err
}

/// Variant `i` of an enum with the values `values`: its tag, if the enum has
/// a tag type, then its body.
pub open spec fn emit_variant(
    reg: Seq<Input>,
    tid: nat,
    variants: Seq<Variant>,
    repr: Option<IntType>,
    i: nat,
    values: Seq<Datum>,
    stream: Stream,
    big: bool,
    args: Seq<u64>,
) -> Emitted
    decreases tid, 6nat, 0nat,
{
    if i >= variants.len() {
        refused(stream, Failure::LeafCodecError(LeafError::WrongShape))
    } else {
        let variant = variants[i as int];
        match repr {
            Some(t) => match variant.discriminant {
                None => refused(stream, Failure::LeafCodecError(LeafError::WrongShape)),
                Some(tag) => if !t.holds(tag) {
                    refused(stream, Failure::LeafCodecError(LeafError::OutOfRange))
                } else {
                    let head = emit_bytes(stream, int_bytes(tag as nat, t.size(), big));
                    if head.failure is Some {
                        head
                    } else {
                        let body = emit_body(reg, tid, variant.body, values, head.stream, big, args);
                        Emitted {
                            stream: body.stream,
                            failure: body.failure,
                            faithful: body.faithful && find_variant(variants, tag, 0) == Some(i),
                        }
                    }
                },
            },
            None => {
                let body = emit_body(reg, tid, variant.body, values, stream, big, args);
                Emitted {
                    stream: body.stream,
                    failure: body.failure,
                    faithful: body.faithful && first_choice(
                        reg,
                        tid,
                        variants,
                        i,
                        body.stream.data,
                        stream.pos,
                        body.stream.pos,
                        big,
                        args,
                    ),
                }
            },
        }
    }
}

/// The value `value` of plan `tid`. A struct takes a record, an enum the
/// fields of one of its variants; anything else is refused.
pub open spec fn emit_type(
    reg: Seq<Input>,
    tid: nat,
    value: Datum,
    stream: Stream,
    big: bool,
    args: Seq<u64>,
) -> Emitted
    decreases tid, 7nat, 0nat,
{
    if tid >= reg.len() {
        refused(stream, Failure::UnresolvedReference { field: None })
    } else {
        let input = reg[tid as int];
        let order = Endian::over(input.endian, big);
        match input.shape {
            Shape::Struct(body) => match value {
                Datum::Record(values) => emit_body(reg, tid, body, values, stream, order, args),
                _ => refused(stream, Failure::LeafCodecError(LeafError::WrongShape)),
            },
            Shape::Enum(variants) => match value {
                Datum::Variant(i, values) => emit_variant(
                    reg,
                    tid,
                    variants@,
                    input.repr,
                    i as nat,
                    values,
                    stream,
                    order,
                    args,
                ),
                _ => refused(stream, Failure::LeafCodecError(LeafError::WrongShape)),
            },
        }
    }
}

/// Writes zeros from the position up to where the padding ends.
pub fn write_fill(writer: &mut Cursor, pad: u64, align: u64) -> (result: BinResult<()>)
    ensures
        carried_out(fill(old(writer)@, pad, align), final(writer)@, result),
{
    let pos = writer.position();
    match advanced(pos, pad, align) {
        Some(target) => {
            proof {
                crate::directive::lemma_padded(pos as nat, pad, align);
            }
            let mut filler: Vec<u8> = Vec::new();
            let mut i: usize = 0;
            let n: usize = target - pos;
            while i < n
                invariant
                    i <= n,
                    filler@ == zeros(i as nat),
                decreases n - i,
            {
                filler.push(0u8);
                i = i + 1;
                assert(filler@ =~= zeros(i as nat));
            }
            writer.write_all(filler.as_slice())
        },
        None => Err(Error::LeafCodecError(LeafError::PositionOverflow)),
    }
}

/// Writes an integer of type `ty`.
pub fn write_int(ty: IntType, value: &Value, writer: &mut Cursor, big: bool) -> (result: BinResult<()>)
    ensures
        carried_out(emit_int(ty, value@, old(writer)@, big), final(writer)@, result),
{
    let same = match value.int_type() {
        Some(t) => t == ty,
        None => false,
    };
    if same {
        let bytes = encode(value.scalar(), ty.width(), big);
        proof {
            crate::ints::lemma_int_bytes_len(value@.scalar() as nat, ty.size(), big);
        }
        writer.write_all(bytes.as_slice())
    } else {
        Err(Error::LeafCodecError(LeafError::WrongShape))
    }
}

/// Writes one item of type `ty`.
pub fn write_item(
    reg: &Registry,
    tid: usize,
    ty: FieldType,
    value: &Value,
    writer: &mut Cursor,
    big: bool,
    args: &Vec<u64>,
) -> (result: BinResult<()>)
    ensures
        carried_out(
            emit_item(reg.inputs@, tid as nat, ty, value@, old(writer)@, big, args@),
            final(writer)@,
            result,
        ),
    decreases tid, 0nat, 0nat,
{
    match ty {
        FieldType::Int(t) => write_int(t, value, writer, big),
        FieldType::Nested(t) => {
            if t < tid {
                write_type(reg, t, value, writer, big, args)
            } else {
                Err(Error::UnresolvedReference { field: None })
            }
        },
    }
}

/// Writes items of type `ty`, one after the other.
pub fn write_items(
    reg: &Registry,
    tid: usize,
    ty: FieldType,
    items: &Vec<Value>,
    writer: &mut Cursor,
    big: bool,
    args: &Vec<u64>,
) -> (result: BinResult<()>)
    ensures
        carried_out(
            emit_items(reg.inputs@, tid as nat, ty, views(items@), 0, old(writer)@, big, args@),
            final(writer)@,
            result,
        ),
    decreases tid, 1nat, 0nat,
{
    let ghost whole = emit_items(
        reg.inputs@,
        tid as nat,
        ty,
        views(items@),
        0,
        old(writer)@,
        big,
        args@,
    );
    let mut i: usize = 0;
    while i < items.len()
        invariant
            i <= items@.len(),
            whole == emit_items(
                reg.inputs@,
                tid as nat,
                ty,
                views(items@),
                0,
                old(writer)@,
                big,
                args@,
            ),
            whole.stream == emit_items(
                reg.inputs@,
                tid as nat,
                ty,
                views(items@),
                i as nat,
                writer@,
                big,
                args@,
            ).stream,
            whole.failure == emit_items(
                reg.inputs@,
                tid as nat,
                ty,
                views(items@),
                i as nat,
                writer@,
                big,
                args@,
            ).failure,
        decreases items@.len() - i,
    {
        match write_item(reg, tid, ty, &items[i], writer, big, args) {
            Ok(()) => {},
            Err(e) => {
                return Err(e);
            },
        }
        i = i + 1;
    }
    Ok(())
}

/// Writes field `k` behind its padding.
pub fn write_content(
    reg: &Registry,
    tid: usize,
    field: &Field,
    k: usize,
    stored: &Value,
    writer: &mut Cursor,
    big: bool,
    args: &Vec<u64>,
    env: &Vec<u64>,
) -> (result: BinResult<()>)
    ensures
        carried_out(
            emit_content(
                reg.inputs@,
                tid as nat,
                *field,
                k,
                stored@,
                old(writer)@,
                big,
                args@,
                env@,
            ),
            final(writer)@,
            result,
        ),
    decreases tid, 2nat, 0nat,
{
    let d = &field.directive;
    let order = Endian::resolve(d.endian_override, big);
    let inner = eval_each(&d.args_expr, env, args);
    let count = d.item_count(field.ty, env);
    proof {
        lemma_views(*stored);
    }
    let mapped = match prepare(field, k, stored, env, args) {
        Ok(m) => m,
        Err(e) => {
            return Err(e);
        },
    };
    let body = match &mapped {
        Mapped::New(wire) => match count {
            Count::Many(_) => Ok(()),
            _ => write_item(reg, tid, field.ty, wire, writer, order, &inner),
        },
        _ => match count {
            Count::Many(_) => match stored {
                Value::List(items) => write_items(reg, tid, field.ty, items, writer, order, &inner),
                _ => Ok(()),
            },
            _ => write_item(reg, tid, field.ty, stored, writer, order, &inner),
        },
    };
    match body {
        Ok(()) => write_fill(writer, d.pad_after, d.align_after),
        Err(e) => Err(e),
    }
}

/// Holds the count against the value, checks the assertions and applies the
/// transform.
pub fn prepare(field: &Field, k: usize, stored: &Value, env: &Vec<u64>, args: &Vec<u64>) -> (result:
    Result<Mapped, Error>)
    ensures
        match prepared(*field, k, stored@, env@, args@) {
            Err(f) => failure_of(result) == Some(f),
            Ok(wire) => result matches Ok(mapped) && match mapped {
                Mapped::Same => wire == stored@,
                Mapped::New(v) => v@ == wire && stored@.int_type() is Some,
                Mapped::Failed => false,
            },
        },
{
    let d = &field.directive;
    proof {
        lemma_views(*stored);
    }
    match d.item_count(field.ty, env) {
        Count::Bad => {
            return Err(Error::LeafCodecError(LeafError::WrongCount));
        },
        Count::Many(n) => match stored {
            Value::List(items) => {
                if items.len() as u64 != n {
                    return Err(Error::LeafCodecError(LeafError::WrongCount));
                }
            },
            _ => {
                return Err(Error::LeafCodecError(LeafError::WrongShape));
            },
        },
        Count::One => {},
    }
    match d.check(env, args, stored.scalar()) {
        Some(j) => {
            let e = Error::AssertionFailed {
                field: k,
                description: d.assertions[j].description.clone(),
            };
            assert(e@ == Failure::AssertionFailed {
                field: k,
                description: d.assertions@[j as int].description@,
            });
            return Err(e);
        },
        None => {},
    }
    match d.transform(stored, env, args, false) {
        Mapped::Failed => Err(Error::MapFailed { field: k }),
        Mapped::Same => Ok(Mapped::Same),
        Mapped::New(v) => Ok(Mapped::New(v)),
    }
}

/// Writes field `k`.
pub fn write_field(
    reg: &Registry,
    tid: usize,
    field: &Field,
    k: usize,
    stored: &Value,
    writer: &mut Cursor,
    big: bool,
    args: &Vec<u64>,
    env: &Vec<u64>,
) -> (result: BinResult<()>)
    ensures
        carried_out(
            emit_field(
                reg.inputs@,
                tid as nat,
                *field,
                k,
                stored@,
                old(writer)@,
                big,
                args@,
                env@,
            ),
            final(writer)@,
            result,
        ),
    decreases tid, 3nat, 0nat,
{
    let d = &field.directive;
    if !d.is_enabled(env, args) {
        return Ok(());
    }
    match write_fill(writer, d.pad_before, d.align_before) {
        Ok(()) => {},
        Err(e) => {
            return Err(e);
        },
    }
    let start = writer.position();
    let result = write_content(reg, tid, field, k, stored, writer, big, args, env);
    if d.restore_position {
        writer.set_position(start);
    }
    result
}

/// Where no value is left, nothing is derived.
pub proof fn lemma_derived_none(
    fields: Seq<Field>,
    target: usize,
    j: nat,
    values: Seq<Datum>,
    m: nat,
)
    requires
        m >= values.len(),
    ensures
        derived(fields, target, j, values, m) == 0,
    decreases fields.len() - j,
{
    if j < fields.len() {
        if fields[j as int].directive.temporary {
            lemma_derived_none(fields, target, j + 1, values, m);
        } else {
            lemma_derived_none(fields, target, j + 1, values, m + 1);
        }
    }
}

/// The number to write for the temporary field `target`, if 64 bits hold it.
pub fn derive_number(fields: &Vec<Field>, target: usize, values: &Vec<Value>, next: usize) -> (number: Option<
    u64,
>)
    requires
        target < fields@.len(),
    ensures
        match number {
            Some(n) => derived(fields@, target, target as nat + 1, views(values@), next as nat) == n,
            None => derived(fields@, target, target as nat + 1, views(values@), next as nat)
                > u64::MAX,
        },
{
    let ghost whole = derived(fields@, target, target as nat + 1, views(values@), next as nat);
    let count: usize = fields.len();
    let mut j: usize = target + 1;
    let mut m: usize = next;
    while j < fields.len()
        invariant
            target < j <= fields@.len(),
            whole == derived(fields@, target, target as nat + 1, views(values@), next as nat),
            whole == derived(fields@, target, j as nat, views(values@), m as nat),
        decreases fields@.len() - j,
    {
        if m >= values.len() {
            proof {
                lemma_derived_none(fields@, target, j as nat, views(values@), m as nat);
            }
            return Some(0);
        }
        let d = &fields[j].directive;
        if !d.temporary {
            proof {
                lemma_views(values@[m as int]);
                assert(views(values@)[m as int] == values@[m as int]@);
            }
            match &values[m] {
                Value::List(items) => {
                    let counts = match d.count_source {
                        Some(c) => c == target,
                        None => false,
                    };
                    let measures = match d.length_source {
                        Some(c) => d.count_source.is_none() && c == target,
                        None => false,
                    };
                    if counts {
                        return Some(items.len() as u64);
                    } else if measures {
                        let stride = fields[j].ty.item_stride();
                        assert(items@.len() * stride <= u64::MAX ==> (items@.len() as u64) * stride
                            <= u64::MAX) by (nonlinear_arith);
                        return (items.len() as u64).checked_mul(stride);
                    }
                },
                _ => {},
            }
            m = m + 1;
        }
        j = j + 1;
    }
    Some(0)
}

/// What is pushed for a field once it is written: its number, or 0 where the
/// field was left out.
pub open spec fn pushed(d: Directive, stored: Datum, env: Seq<u64>, args: Seq<u64>) -> u64 {
    if d.enabled(env, args) {
        stored.scalar()
    } else {
        0
    }
}

/// Writes field `k` with the value that it is due, and gives back the number
/// that stands for the field from then on.
pub fn write_next(
    reg: &Registry,
    tid: usize,
    fields: &Vec<Field>,
    k: usize,
    values: &Vec<Value>,
    next: usize,
    writer: &mut Cursor,
    big: bool,
    args: &Vec<u64>,
    env: &Vec<u64>,
) -> (result: BinResult<u64>)
    requires
        k < fields@.len(),
    ensures
        match stored_of(fields@, k as nat, views(values@), next as nat) {
            Err(f) => final(writer)@ == old(writer)@ && failure_of(result) == Some(f),
            Ok(stored) => {
                let w = emit_field(
                    reg.inputs@,
                    tid as nat,
                    fields@[k as int],
                    k,
                    stored,
                    old(writer)@,
                    big,
                    args@,
                    env@,
                );
                &&& w.stream == final(writer)@
                &&& w.failure == failure_of(result)
                &&& result matches Ok(n) ==> n == pushed(
                    fields@[k as int].directive,
                    stored,
                    env@,
                    args@,
                )
            },
        },
    decreases tid, 3nat, 1nat,
{
    let field = &fields[k];
    let enabled = field.directive.is_enabled(env, args);
    if field.directive.temporary {
        let t = match field.ty {
            FieldType::Int(t) => t,
            FieldType::Nested(_) => {
                return Err(Error::LeafCodecError(LeafError::WrongShape));
            },
        };
        let number = match derive_number(fields, k, values, next) {
            Some(n) => n,
            None => {
                return Err(Error::LeafCodecError(LeafError::OutOfRange));
            },
        };
        if !t.admits(number) {
            return Err(Error::LeafCodecError(LeafError::OutOfRange));
        }
        let stored = t.value(number);
        match write_field(reg, tid, field, k, &stored, writer, big, args, env) {
            Ok(()) => Ok(
                if enabled {
                    stored.scalar()
                } else {
                    0
                },
            ),
            Err(e) => Err(e),
        }
    } else {
        if next >= values.len() {
            return Err(Error::LeafCodecError(LeafError::WrongShape));
        }
        let stored = &values[next];
        match write_field(reg, tid, field, k, stored, writer, big, args, env) {
            Ok(()) => Ok(
                if enabled {
                    stored.scalar()
                } else {
                    0
                },
            ),
            Err(e) => Err(e),
        }
    }
}

/// Writes all of `fields` in declaration order, with `values` for those that
/// are not temporary.
pub fn write_fields(
    reg: &Registry,
    tid: usize,
    fields: &Vec<Field>,
    values: &Vec<Value>,
    writer: &mut Cursor,
    big: bool,
    args: &Vec<u64>,
) -> (result: BinResult<()>)
    ensures
        carried_out(
            emit_fields(
                reg.inputs@,
                tid as nat,
                fields@,
                0,
                views(values@),
                0,
                old(writer)@,
                big,
                args@,
                Seq::empty(),
            ),
            final(writer)@,
            result,
        ),
    decreases tid, 4nat, 0nat,
{
    let ghost whole = emit_fields(
        reg.inputs@,
        tid as nat,
        fields@,
        0,
        views(values@),
        0,
        old(writer)@,
        big,
        args@,
        Seq::empty(),
    );
    let mut env: Vec<u64> = Vec::new();
    let mut next: usize = 0;
    let mut k: usize = 0;
    proof {
        assert(env@ =~= Seq::<u64>::empty());
    }
    while k < fields.len()
        invariant
            k <= fields@.len(),
            next <= k,
            whole == emit_fields(
                reg.inputs@,
                tid as nat,
                fields@,
                0,
                views(values@),
                0,
                old(writer)@,
                big,
                args@,
                Seq::empty(),
            ),
            whole.stream == emit_fields(
                reg.inputs@,
                tid as nat,
                fields@,
                k as nat,
                views(values@),
                next as nat,
                writer@,
                big,
                args@,
                env@,
            ).stream,
            whole.failure == emit_fields(
                reg.inputs@,
                tid as nat,
                fields@,
                k as nat,
                views(values@),
                next as nat,
                writer@,
                big,
                args@,
                env@,
            ).failure,
        decreases fields@.len() - k,
    {
        match write_next(reg, tid, fields, k, values, next, writer, big, args, &env) {
            Ok(n) => {
                env.push(n);
            },
            Err(e) => {
                return Err(e);
            },
        }
        if !fields[k].directive.temporary {
            next = next + 1;
        }
        k = k + 1;
    }
    if next == values.len() {
        Ok(())
    } else {
        Err(Error::LeafCodecError(LeafError::WrongShape))
    }
}

/// Writes a body: its magic bytes, then its fields.
pub fn write_body(
    reg: &Registry,
    tid: usize,
    body: &Body,
    values: &Vec<Value>,
    writer: &mut Cursor,
    big: bool,
    args: &Vec<u64>,
) -> (result: BinResult<()>)
    ensures
        carried_out(
            emit_body(reg.inputs@, tid as nat, *body, views(values@), old(writer)@, big, args@),
            final(writer)@,
            result,
        ),
    decreases tid, 5nat, 0nat,
{
    match writer.write_all(body.magic.as_slice()) {
        Ok(()) => {},
        Err(e) => {
            return Err(e);
        },
    }
    write_fields(reg, tid, &body.fields, values, writer, big, args)
}

/// Writes variant `i` of an enum: its tag, if the enum has a tag type, then
/// its body.
pub fn write_variant(
    reg: &Registry,
    tid: usize,
    variants: &Vec<Variant>,
    repr: Option<IntType>,
    i: usize,
    values: &Vec<Value>,
    writer: &mut Cursor,
    big: bool,
    args: &Vec<u64>,
) -> (result: BinResult<()>)
    ensures
        carried_out(
            emit_variant(
                reg.inputs@,
                tid as nat,
                variants@,
                repr,
                i as nat,
                views(values@),
                old(writer)@,
                big,
                args@,
            ),
            final(writer)@,
            result,
        ),
    decreases tid, 6nat, 0nat,
{
    if i >= variants.len() {
        return Err(Error::LeafCodecError(LeafError::WrongShape));
    }
    let variant = &variants[i];
    match repr {
        Some(t) => {
            let tag = match variant.discriminant {
                Some(tag) => tag,
                None => {
                    return Err(Error::LeafCodecError(LeafError::WrongShape));
                },
            };
            if !t.admits(tag) {
                return Err(Error::LeafCodecError(LeafError::OutOfRange));
            }
            let bytes = encode(tag, t.width(), big);
            match writer.write_all(bytes.as_slice()) {
                Ok(()) => {},
                Err(e) => {
                    return Err(e);
                },
            }
            write_body(reg, tid, &variant.body, values, writer, big, args)
        },
        None => write_body(reg, tid, &variant.body, values, writer, big, args),
    }
}

/// Writes `value` as a value of plan `tid`, most significant byte first
/// where `big` holds and no plan on the way says otherwise.
pub fn write_type(
    reg: &Registry,
    tid: usize,
    value: &Value,
    writer: &mut Cursor,
    big: bool,
    args: &Vec<u64>,
) -> (result: BinResult<()>)
    ensures
        carried_out(
            emit_type(reg.inputs@, tid as nat, value@, old(writer)@, big, args@),
            final(writer)@,
            result,
        ),
    decreases tid, 7nat, 0nat,
{
    if tid >= reg.inputs.len() {
        return Err(Error::UnresolvedReference { field: None });
    }
    let input = &reg.inputs[tid];
    let order = Endian::resolve(input.endian, big);
    proof {
        lemma_views(*value);
    }
    match &input.shape {
        Shape::Struct(body) => match value {
            Value::Record(values) => write_body(reg, tid, body, values, writer, order, args),
            _ => Err(Error::LeafCodecError(LeafError::WrongShape)),
        },
        Shape::Enum(variants) => match value {
            Value::Variant(i, values) => write_variant(
                reg,
                tid,
                variants,
                input.repr,
                *i,
                values,
                writer,
                order,
                args,
            ),
            _ => Err(Error::LeafCodecError(LeafError::WrongShape)),
        },
    }
}

/// A value together with the plan that it is a value of.
pub struct Bound<'a> {
    pub registry: &'a Registry,
    pub id: usize,
    pub value: &'a Value,
}

impl<'a> BinWrite for Bound<'a> {
    type Args = Vec<u64>;

    open spec fn written(&self, stream: Stream, big: bool, args: Vec<u64>) -> Written {
        let e = emit_type(self.registry.inputs@, self.id as nat, self.value@, stream, big, args@);
        Written { stream: e.stream, failure: e.failure }
    }

    fn write_options(&self, writer: &mut Cursor, options: &WriteOptions, args: Vec<u64>) -> (result:
        BinResult<()>) {
        let big = options.endian().is_big();
        let result = write_type(self.registry, self.id, self.value, writer, big, &args);
        assert(self.written(old(writer)@, big, args) == (Written {
            stream: writer@,
            failure: failure_of(result),
        }));
        result
    }
}

impl Registry {
    /// Writes `value` as a value of plan `id` under `options`, with `args`.
    pub fn write_options(
        &self,
        id: usize,
        value: &Value,
        writer: &mut Cursor,
        options: &WriteOptions,
        args: &Vec<u64>,
    ) -> (result: BinResult<()>)
        ensures
            exists|big: bool|
                options@.admits(big) && carried_out(
                    #[trigger] emit_type(self.inputs@, id as nat, value@, old(writer)@, big, args@),
                    final(writer)@,
                    result,
                ),
    {
        let big = options.endian().is_big();
        let result = write_type(self, id, value, writer, big, args);
        assert(carried_out(
            emit_type(self.inputs@, id as nat, value@, old(writer)@, big, args@),
            writer@,
            result,
        ));
        result
    }
}

} // verus!
