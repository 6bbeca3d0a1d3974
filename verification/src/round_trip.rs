//! What is written reads back.

use crate::binread::{done, Outcome};
use crate::directive::{advance, lemma_padded, Count, FieldType};
use crate::endian::Endian;
use crate::error::Failure;
use crate::expr::eval_all;
use crate::ints::{int_bytes, lemma_int_bytes_len, lemma_int_round_trip};
use crate::io::Stream;
use crate::laws::{lemma_parse_split, parse_prefix, Progress};
use crate::plan::{Body, Field, Input, Shape, Variant};
use crate::read::{
    find_variant, parse_body, parse_content, parse_field, parse_int, parse_item,
    parse_items, parse_raw, parse_tagged, parse_trial, parse_type,
};
use crate::value::{lemma_holds_fits, lemma_int_datum, Datum, IntType};
use crate::write::{
    agree, emit_body, emit_bytes, emit_content, emit_field, emit_fields, emit_int, emit_item,
    emit_items, emit_type, emit_variant, fill, first_choice, prepared, pushed, stored_of, Emitted,
};
use vstd::prelude::*;

verus! {

/// Whether `after` can come of `before` by writes from the position of
/// `before` on: the position is not further back, the data reaches up to
/// it, and what lay before the old position lies there still.
pub open spec fn extends(before: Stream, after: Stream) -> bool {
    &&& after.pos >= before.pos
    &&& after.pos > before.pos ==> after.pos <= after.data.len()
    &&& after.data.len() >= before.data.len()
    &&& forall|i: int|
        0 <= i < before.pos && i < before.data.len() ==> (#[trigger] after.data[i])
            == before.data[i]
}

/// Writes that follow one another extend the stream they started from.
pub proof fn lemma_extends_chain(a: Stream, b: Stream, c: Stream)
    requires
        extends(a, b),
        extends(b, c),
    ensures
        extends(a, c),
{
    assert forall|i: int| 0 <= i < a.pos && i < a.data.len() implies (#[trigger] c.data[i])
        == a.data[i] by {
        assert(b.data[i] == a.data[i]);
        assert(c.data[i] == b.data[i]);
    }
}

/// What agrees with a later stream up to an earlier position agrees with
/// the earlier stream.
pub proof fn lemma_agree_back(other: Seq<u8>, before: Stream, after: Stream, from: nat, to: nat)
    requires
        extends(before, after),
        agree(other, after.data, from, to),
        to <= before.pos,
        from < to ==> to <= before.data.len(),
    ensures
        agree(other, before.data, from, to),
{
    assert forall|i: int| from <= i < to implies (#[trigger] other[i]) == before.data[i] by {
        assert(other[i] == after.data[i]);
        assert(after.data[i] == before.data[i]);
    }
}

/// A write of bytes extends the stream.
pub proof fn lemma_bytes_extend(stream: Stream, bytes: Seq<u8>)
    ensures
        extends(stream, emit_bytes(stream, bytes).stream),
{
}

/// Padding extends the stream.
pub proof fn lemma_fill_extends(stream: Stream, pad: u64, align: u64)
    ensures
        extends(stream, fill(stream, pad, align).stream),
        fill(stream, pad, align).failure is None ==> advance(stream.pos, pad, align) == Some(
            fill(stream, pad, align).stream.pos,
        ),
{
    lemma_padded(stream.pos, pad, align);
}

/// Bytes that were written are what a read finds in their place.
pub proof fn lemma_bytes_back(stream: Stream, bytes: Seq<u8>, other: Seq<u8>)
    requires
        bytes.len() > 0,
        emit_bytes(stream, bytes).failure is None,
        agree(other, emit_bytes(stream, bytes).stream.data, stream.pos, stream.pos + bytes.len()),
    ensures
        (Stream { data: other, pos: stream.pos }).peek(bytes.len()) == Some(bytes),
{
    let end = stream.pos + bytes.len();
    let found = other.subrange(stream.pos as int, end as int);
    assert(found =~= bytes) by {
        assert forall|i: int| 0 <= i < bytes.len() implies found[i] == bytes[i] by {
            assert(other[stream.pos + i] == emit_bytes(stream, bytes).stream.data[stream.pos + i]);
        }
    }
}

/// An integer that was written reads back.
pub proof fn lemma_int_back(ty: IntType, value: Datum, stream: Stream, big: bool, other: Seq<u8>)
    requires
        emit_int(ty, value, stream, big).failure is None,
        agree(
            other,
            emit_int(ty, value, stream, big).stream.data,
            stream.pos,
            emit_int(ty, value, stream, big).stream.pos,
        ),
    ensures
        parse_int(ty, other, stream.pos, big) == done(
            emit_int(ty, value, stream, big).stream.pos,
            value,
        ),
{
    let n = value.scalar();
    let bytes = int_bytes(n as nat, ty.size(), big);
    lemma_int_bytes_len(n as nat, ty.size(), big);
    lemma_int_datum(value);
    lemma_holds_fits(ty, n);
    lemma_int_round_trip(n as nat, ty.size(), big);
    lemma_bytes_back(stream, bytes, other);
}

/// The write of an item extends the stream.
pub proof fn lemma_item_extends(
    reg: Seq<Input>,
    tid: nat,
    ty: FieldType,
    value: Datum,
    stream: Stream,
    big: bool,
    args: Seq<u64>,
)
    ensures
        extends(stream, emit_item(reg, tid, ty, value, stream, big, args).stream),
    decreases tid, 0nat, 0nat,
{
    match ty {
        FieldType::Int(t) => {
            lemma_bytes_extend(stream, int_bytes(value.scalar() as nat, t.size(), big));
        },
        FieldType::Nested(t) => {
            if t < tid {
                lemma_type_extends(reg, t as nat, value, stream, big, args);
            }
        },
    }
}

/// The write of items extends the stream.
pub proof fn lemma_items_extend(
    reg: Seq<Input>,
    tid: nat,
    ty: FieldType,
    items: Seq<Datum>,
    i: nat,
    stream: Stream,
    big: bool,
    args: Seq<u64>,
)
    ensures
        extends(stream, emit_items(reg, tid, ty, items, i, stream, big, args).stream),
    decreases tid, 1nat, items.len() - i,
{
    if i < items.len() {
        lemma_item_extends(reg, tid, ty, items[i as int], stream, big, args);
        let w = emit_item(reg, tid, ty, items[i as int], stream, big, args);
        if w.failure is None {
            lemma_items_extend(reg, tid, ty, items, i + 1, w.stream, big, args);
            lemma_extends_chain(
                stream,
                w.stream,
                emit_items(reg, tid, ty, items, i + 1, w.stream, big, args).stream,
            );
        }
    }
}

/// What the codec of a field writes for the value `wire`.
pub open spec fn emit_wire(
    reg: Seq<Input>,
    tid: nat,
    field: Field,
    wire: Datum,
    stream: Stream,
    big: bool,
    args: Seq<u64>,
    env: Seq<u64>,
) -> Emitted {
    let d = field.directive;
    let order = Endian::over(d.endian_override, big);
    let inner = eval_all(d.args_expr@, env, args);
    if d.count(field.ty, env) is Many {
        emit_items(reg, tid, field.ty, wire->List_0, 0, stream, order, inner)
    } else {
        emit_item(reg, tid, field.ty, wire, stream, order, inner)
    }
}

/// The write of a field behind its padding extends the stream.
pub proof fn lemma_content_extends(
    reg: Seq<Input>,
    tid: nat,
    field: Field,
    k: usize,
    stored: Datum,
    stream: Stream,
    big: bool,
    args: Seq<u64>,
    env: Seq<u64>,
)
    ensures
        extends(stream, emit_content(reg, tid, field, k, stored, stream, big, args, env).stream),
    decreases tid, 2nat, 0nat,
{
    let d = field.directive;
    let order = Endian::over(d.endian_override, big);
    let inner = eval_all(d.args_expr@, env, args);
    match prepared(field, k, stored, env, args) {
        Err(f) => {},
        Ok(wire) => {
            let body = emit_wire(reg, tid, field, wire, stream, big, args, env);
            if d.count(field.ty, env) is Many {
                lemma_items_extend(reg, tid, field.ty, wire->List_0, 0, stream, order, inner);
            } else {
                lemma_item_extends(reg, tid, field.ty, wire, stream, order, inner);
            }
            if body.failure is None {
                lemma_fill_extends(body.stream, d.pad_after, d.align_after);
                lemma_extends_chain(
                    stream,
                    body.stream,
                    fill(body.stream, d.pad_after, d.align_after).stream,
                );
            }
        },
    }
}

/// The write of a field extends the stream.
pub proof fn lemma_field_extends(
    reg: Seq<Input>,
    tid: nat,
    field: Field,
    k: usize,
    stored: Datum,
    stream: Stream,
    big: bool,
    args: Seq<u64>,
    env: Seq<u64>,
)
    ensures
        extends(stream, emit_field(reg, tid, field, k, stored, stream, big, args, env).stream),
    decreases tid, 3nat, 0nat,
{
    let d = field.directive;
    if d.enabled(env, args) {
        lemma_fill_extends(stream, d.pad_before, d.align_before);
        let head = fill(stream, d.pad_before, d.align_before);
        if head.failure is None {
            lemma_content_extends(reg, tid, field, k, stored, head.stream, big, args, env);
            let inner = emit_content(reg, tid, field, k, stored, head.stream, big, args, env);
            lemma_extends_chain(stream, head.stream, inner.stream);
            if d.restore_position {
                let back = inner.stream.at(head.stream.pos);
                assert(extends(stream, back));
            }
        }
    }
}

/// The write of fields extends the stream.
pub proof fn lemma_fields_extend(
    reg: Seq<Input>,
    tid: nat,
    fields: Seq<Field>,
    k: nat,
    values: Seq<Datum>,
    next: nat,
    stream: Stream,
    big: bool,
    args: Seq<u64>,
    env: Seq<u64>,
)
    ensures
        extends(
            stream,
            emit_fields(reg, tid, fields, k, values, next, stream, big, args, env).stream,
        ),
    decreases tid, 4nat, fields.len() - k,
{
    if k < fields.len() {
        let field = fields[k as int];
        match stored_of(fields, k, values, next) {
            Err(f) => {},
            Ok(stored) => {
                lemma_field_extends(reg, tid, field, k as usize, stored, stream, big, args, env);
                let w = emit_field(reg, tid, field, k as usize, stored, stream, big, args, env);
                if w.failure is None {
                    let next2 = if field.directive.temporary {
                        next
                    } else {
                        next + 1
                    };
                    let env2 = env.push(pushed(field.directive, stored, env, args));
                    lemma_fields_extend(
                        reg,
                        tid,
                        fields,
                        k + 1,
                        values,
                        next2,
                        w.stream,
                        big,
                        args,
                        env2,
                    );
                    lemma_extends_chain(
                        stream,
                        w.stream,
                        emit_fields(reg, tid, fields, k + 1, values, next2, w.stream, big, args, env2).stream,
                    );
                }
            },
        }
    }
}

/// The write of a body extends the stream.
pub proof fn lemma_body_extends(
    reg: Seq<Input>,
    tid: nat,
    body: Body,
    values: Seq<Datum>,
    stream: Stream,
    big: bool,
    args: Seq<u64>,
)
    ensures
        extends(stream, emit_body(reg, tid, body, values, stream, big, args).stream),
    decreases tid, 5nat, 0nat,
{
    lemma_bytes_extend(stream, body.magic@);
    let head = emit_bytes(stream, body.magic@);
    if head.failure is None {
        lemma_fields_extend(
            reg,
            tid,
            body.fields@,
            0,
            values,
            0,
            head.stream,
            big,
            args,
            Seq::empty(),
        );
        lemma_extends_chain(
            stream,
            head.stream,
            emit_fields(reg, tid, body.fields@, 0, values, 0, head.stream, big, args, Seq::empty()).stream,
        );
    }
}

/// The write of a variant extends the stream.
pub proof fn lemma_variant_extends(
    reg: Seq<Input>,
    tid: nat,
    variants: Seq<Variant>,
    repr: Option<IntType>,
    i: nat,
    values: Seq<Datum>,
    stream: Stream,
    big: bool,
    args: Seq<u64>,
)
    ensures
        extends(
            stream,
            emit_variant(reg, tid, variants, repr, i, values, stream, big, args).stream,
        ),
    decreases tid, 6nat, 0nat,
{
    if i < variants.len() {
        let variant = variants[i as int];
        match repr {
            Some(t) => match variant.discriminant {
                Some(tag) => {
                    if t.holds(tag) {
                        let bytes = int_bytes(tag as nat, t.size(), big);
                        lemma_bytes_extend(stream, bytes);
                        let head = emit_bytes(stream, bytes);
                        if head.failure is None {
                            lemma_body_extends(reg, tid, variant.body, values, head.stream, big, args);
                            lemma_extends_chain(
                                stream,
                                head.stream,
                                emit_body(reg, tid, variant.body, values, head.stream, big, args).stream,
                            );
                        }
                    }
                },
                None => {},
            },
            None => {
                lemma_body_extends(reg, tid, variant.body, values, stream, big, args);
            },
        }
    }
}

/// The write of a value extends the stream.
pub proof fn lemma_type_extends(
    reg: Seq<Input>,
    tid: nat,
    value: Datum,
    stream: Stream,
    big: bool,
    args: Seq<u64>,
)
    ensures
        extends(stream, emit_type(reg, tid, value, stream, big, args).stream),
    decreases tid, 7nat, 0nat,
{
    if tid < reg.len() {
        let input = reg[tid as int];
        let order = Endian::over(input.endian, big);
        match input.shape {
            Shape::Struct(body) => match value {
                Datum::Record(values) => {
                    lemma_body_extends(reg, tid, body, values, stream, order, args);
                },
                _ => {},
            },
            Shape::Enum(variants) => match value {
                Datum::Variant(i, values) => {
                    lemma_variant_extends(
                        reg,
                        tid,
                        variants@,
                        input.repr,
                        i as nat,
                        values,
                        stream,
                        order,
                        args,
                    );
                },
                _ => {},
            },
        }
    }
}

/// What agrees on a stretch agrees on every part of it.
pub proof fn lemma_agree_part(a: Seq<u8>, b: Seq<u8>, from: nat, to: nat, from2: nat, to2: nat)
    requires
        agree(a, b, from, to),
        from <= from2,
        to2 <= to,
    ensures
        agree(a, b, from2, to2),
{
}

/// What agrees with a later stream on what an earlier write put there agrees
/// with the stream as that write left it.
pub proof fn lemma_agree_earlier(other: Seq<u8>, start: Stream, middle: Stream, last: Stream)
    requires
        extends(start, middle),
        extends(middle, last),
        agree(other, last.data, start.pos, last.pos),
    ensures
        agree(other, middle.data, start.pos, middle.pos),
        agree(other, last.data, middle.pos, last.pos),
{
    lemma_agree_part(other, last.data, start.pos, last.pos, start.pos, middle.pos);
    lemma_agree_part(other, last.data, start.pos, last.pos, middle.pos, last.pos);
    lemma_agree_back(other, middle, last, start.pos, middle.pos);
}

/// An item that was written reads back.
#[verifier::rlimit(60)]
pub proof fn lemma_item_back(
    reg: Seq<Input>,
    tid: nat,
    ty: FieldType,
    value: Datum,
    stream: Stream,
    big: bool,
    args: Seq<u64>,
    other: Seq<u8>,
)
    requires
        emit_item(reg, tid, ty, value, stream, big, args).failure is None,
        emit_item(reg, tid, ty, value, stream, big, args).faithful,
        agree(
            other,
            emit_item(reg, tid, ty, value, stream, big, args).stream.data,
            stream.pos,
            emit_item(reg, tid, ty, value, stream, big, args).stream.pos,
        ),
    ensures
        parse_item(reg, tid, ty, other, stream.pos, big, args) == done(
            emit_item(reg, tid, ty, value, stream, big, args).stream.pos,
            value,
        ),
    decreases tid, 0nat, 0nat,
{
    match ty {
        FieldType::Int(t) => {
            lemma_int_back(t, value, stream, big, other);
        },
        FieldType::Nested(t) => {
            if t < tid {
                lemma_type_back(reg, t as nat, value, stream, big, args, other);
            }
        },
    }
}

/// Items that were written read back, behind the items `acc`.
#[verifier::rlimit(60)]
pub proof fn lemma_items_back(
    reg: Seq<Input>,
    tid: nat,
    ty: FieldType,
    items: Seq<Datum>,
    i: nat,
    stream: Stream,
    big: bool,
    args: Seq<u64>,
    other: Seq<u8>,
    acc: Seq<Datum>,
)
    requires
        i <= items.len(),
        emit_items(reg, tid, ty, items, i, stream, big, args).failure is None,
        emit_items(reg, tid, ty, items, i, stream, big, args).faithful,
        agree(
            other,
            emit_items(reg, tid, ty, items, i, stream, big, args).stream.data,
            stream.pos,
            emit_items(reg, tid, ty, items, i, stream, big, args).stream.pos,
        ),
    ensures
        parse_items(
            reg,
            tid,
            ty,
            other,
            stream.pos,
            big,
            args,
            (items.len() - i) as nat,
            acc,
        ) == done(
            emit_items(reg, tid, ty, items, i, stream, big, args).stream.pos,
            acc + items.skip(i as int),
        ),
    decreases tid, 1nat, items.len() - i,
{
    if i >= items.len() {
        assert(acc + items.skip(i as int) =~= acc);
    } else {
        let w = emit_item(reg, tid, ty, items[i as int], stream, big, args);
        let rest = emit_items(reg, tid, ty, items, i + 1, w.stream, big, args);
        assert(w.failure is None && w.faithful && rest.failure is None && rest.faithful);
        assert(emit_items(reg, tid, ty, items, i, stream, big, args).stream == rest.stream);
        assert(agree(other, w.stream.data, stream.pos, w.stream.pos) && agree(
            other,
            rest.stream.data,
            w.stream.pos,
            rest.stream.pos,
        )) by {
            lemma_item_extends(reg, tid, ty, items[i as int], stream, big, args);
            lemma_items_extend(reg, tid, ty, items, i + 1, w.stream, big, args);
            lemma_agree_earlier(other, stream, w.stream, rest.stream);
        }
        lemma_item_back(reg, tid, ty, items[i as int], stream, big, args, other);
        lemma_items_back(
            reg,
            tid,
            ty,
            items,
            i + 1,
            w.stream,
            big,
            args,
            other,
            acc.push(items[i as int]),
        );
        assert(acc.push(items[i as int]) + items.skip(i as int + 1) =~= acc + items.skip(i as int));
    }
}

/// A field that was written behind its padding reads back.
#[verifier::rlimit(60)]
pub proof fn lemma_content_back(
    reg: Seq<Input>,
    tid: nat,
    field: Field,
    k: usize,
    stored: Datum,
    stream: Stream,
    big: bool,
    args: Seq<u64>,
    env: Seq<u64>,
    other: Seq<u8>,
)
    requires
        emit_content(reg, tid, field, k, stored, stream, big, args, env).failure is None,
        emit_content(reg, tid, field, k, stored, stream, big, args, env).faithful,
        agree(
            other,
            emit_content(reg, tid, field, k, stored, stream, big, args, env).stream.data,
            stream.pos,
            emit_content(reg, tid, field, k, stored, stream, big, args, env).stream.pos,
        ),
    ensures
        parse_content(reg, tid, field, k, other, stream.pos, big, args, env) == done(
            emit_content(reg, tid, field, k, stored, stream, big, args, env).stream.pos,
            stored,
        ),
    decreases tid, 2nat, 0nat,
{
    let d = field.directive;
    let order = Endian::over(d.endian_override, big);
    let inner = eval_all(d.args_expr@, env, args);
    let wire = prepared(field, k, stored, env, args)->Ok_0;
    let body = emit_wire(reg, tid, field, wire, stream, big, args, env);
    let tail = fill(body.stream, d.pad_after, d.align_after);
    assert(prepared(field, k, stored, env, args) is Ok && body.failure is None && body.faithful
        && tail.failure is None && d.map_read(wire, env, args) == Some(stored));
    assert(emit_content(reg, tid, field, k, stored, stream, big, args, env).stream == tail.stream);
    assert(agree(other, body.stream.data, stream.pos, body.stream.pos)) by {
        if d.count(field.ty, env) is Many {
            lemma_items_extend(reg, tid, field.ty, wire->List_0, 0, stream, order, inner);
        } else {
            lemma_item_extends(reg, tid, field.ty, wire, stream, order, inner);
        }
        lemma_fill_extends(body.stream, d.pad_after, d.align_after);
        lemma_agree_earlier(other, stream, body.stream, tail.stream);
    }
    assert(advance(body.stream.pos, d.pad_after, d.align_after) == Some(tail.stream.pos)) by {
        lemma_fill_extends(body.stream, d.pad_after, d.align_after);
    }
    let raw = parse_raw(reg, tid, field, other, stream.pos, big, args, env);
    match d.count(field.ty, env) {
        Count::Many(n) => {
            let items = stored->List_0;
            assert(wire == stored);
            lemma_items_back(
                reg,
                tid,
                field.ty,
                items,
                0,
                stream,
                order,
                inner,
                other,
                Seq::empty(),
            );
            assert(Seq::<Datum>::empty() + items.skip(0) =~= items);
            assert(raw == done(body.stream.pos, wire));
        },
        Count::One => {
            lemma_item_back(reg, tid, field.ty, wire, stream, order, inner, other);
            assert(raw == done(body.stream.pos, wire));
        },
        Count::Bad => {},
    }
}

/// A field that was written reads back: the read ends where the write
/// ended, the number that stands for the field is the same, and unless the
/// field is temporary its value is the value that was written.
#[verifier::rlimit(60)]
pub proof fn lemma_field_back(
    reg: Seq<Input>,
    tid: nat,
    field: Field,
    k: usize,
    stored: Datum,
    stream: Stream,
    big: bool,
    args: Seq<u64>,
    env: Seq<u64>,
    other: Seq<u8>,
)
    requires
        emit_field(reg, tid, field, k, stored, stream, big, args, env).failure is None,
        emit_field(reg, tid, field, k, stored, stream, big, args, env).faithful,
        agree(
            other,
            emit_field(reg, tid, field, k, stored, stream, big, args, env).stream.data,
            stream.pos,
            emit_field(reg, tid, field, k, stored, stream, big, args, env).stream.pos,
        ),
    ensures
        ({
            let r = parse_field(reg, tid, field, k, other, stream.pos, big, args, env);
            &&& r.pos == emit_field(reg, tid, field, k, stored, stream, big, args, env).stream.pos
            &&& r.result matches Ok(v)
            &&& v.scalar() == pushed(field.directive, stored, env, args)
            &&& !field.directive.temporary ==> v == stored
        }),
    decreases tid, 3nat, 0nat,
{
    let d = field.directive;
    if d.enabled(env, args) {
        let head = fill(stream, d.pad_before, d.align_before);
        let inner = emit_content(reg, tid, field, k, stored, head.stream, big, args, env);
        assert(head.failure is None && !d.restore_position && inner.failure is None
            && inner.faithful);
        assert(emit_field(reg, tid, field, k, stored, stream, big, args, env).stream
            == inner.stream);
        assert(agree(other, inner.stream.data, head.stream.pos, inner.stream.pos)) by {
            lemma_fill_extends(stream, d.pad_before, d.align_before);
            lemma_content_extends(reg, tid, field, k, stored, head.stream, big, args, env);
            lemma_agree_earlier(other, stream, head.stream, inner.stream);
        }
        assert(advance(stream.pos, d.pad_before, d.align_before) == Some(head.stream.pos)) by {
            lemma_fill_extends(stream, d.pad_before, d.align_before);
        }
        lemma_content_back(reg, tid, field, k, stored, head.stream, big, args, env, other);
    }
}

/// How far a write of a sequence of fields has come.
pub struct Sent {
    /// The stream as it stands.
    pub stream: Stream,
    /// The numbers of the fields that were written.
    pub env: Seq<u64>,
    /// How many of the values were written.
    pub next: nat,
    /// The failure that ended the write, if one did.
    pub failure: Option<Failure>,
    /// Whether all that was written so far will read back.
    pub faithful: bool,
}

/// The write of the first `upto` fields, in declaration order.
pub open spec fn emit_prefix(
    reg: Seq<Input>,
    tid: nat,
    fields: Seq<Field>,
    upto: nat,
    values: Seq<Datum>,
    stream: Stream,
    big: bool,
    args: Seq<u64>,
) -> Sent
    decreases upto,
{
    if upto == 0 {
        Sent { stream, env: Seq::empty(), next: 0, failure: None, faithful: true }
    } else {
        let before = emit_prefix(reg, tid, fields, (upto - 1) as nat, values, stream, big, args);
        if before.failure is Some || upto > fields.len() {
            before
        } else {
            let k = (upto - 1) as nat;
            let field = fields[k as int];
            match stored_of(fields, k, values, before.next) {
                Err(f) => Sent {
                    stream: before.stream,
                    env: before.env,
                    next: before.next,
                    failure: Some(f),
                    faithful: before.faithful,
                },
                Ok(stored) => {
                    let w = emit_field(
                        reg,
                        tid,
                        field,
                        k as usize,
                        stored,
                        before.stream,
                        big,
                        args,
                        before.env,
                    );
                    Sent {
                        stream: w.stream,
                        env: before.env.push(pushed(field.directive, stored, before.env, args)),
                        next: if field.directive.temporary {
                            before.next
                        } else {
                            before.next + 1
                        },
                        failure: w.failure,
                        faithful: before.faithful && w.faithful,
                    }
                },
            }
        }
    }
}

/// The write of the fields from `k` on, taken up where `so_far` left off.
pub open spec fn resume_emit(
    reg: Seq<Input>,
    tid: nat,
    fields: Seq<Field>,
    k: nat,
    values: Seq<Datum>,
    big: bool,
    args: Seq<u64>,
    so_far: Sent,
) -> Emitted {
    match so_far.failure {
        Some(f) => Emitted { stream: so_far.stream, failure: Some(f), faithful: so_far.faithful },
        None => {
            let rest = emit_fields(
                reg,
                tid,
                fields,
                k,
                values,
                so_far.next,
                so_far.stream,
                big,
                args,
                so_far.env,
            );
            Emitted {
                stream: rest.stream,
                failure: rest.failure,
                faithful: so_far.faithful && rest.faithful,
            }
        },
    }
}

/// A write of all fields is the write of the first `k` of them, taken up
/// from there.
#[verifier::rlimit(60)]
pub proof fn lemma_emit_split(
    reg: Seq<Input>,
    tid: nat,
    fields: Seq<Field>,
    k: nat,
    values: Seq<Datum>,
    stream: Stream,
    big: bool,
    args: Seq<u64>,
)
    requires
        k <= fields.len(),
    ensures
        emit_fields(reg, tid, fields, 0, values, 0, stream, big, args, Seq::empty())
            == resume_emit(
            reg,
            tid,
            fields,
            k,
            values,
            big,
            args,
            emit_prefix(reg, tid, fields, k, values, stream, big, args),
        ),
    decreases k,
{
    if k > 0 {
        lemma_emit_split(reg, tid, fields, (k - 1) as nat, values, stream, big, args);
        let before = emit_prefix(reg, tid, fields, (k - 1) as nat, values, stream, big, args);
        let sent = emit_prefix(reg, tid, fields, k, values, stream, big, args);
        if before.failure is None {
            let step = emit_fields(
                reg,
                tid,
                fields,
                (k - 1) as nat,
                values,
                before.next,
                before.stream,
                big,
                args,
                before.env,
            );
            let onward = resume_emit(reg, tid, fields, k, values, big, args, sent);
            assert(step.stream == onward.stream);
            assert(step.failure == onward.failure);
            assert((before.faithful && step.faithful) == onward.faithful);
        }
    }
}

/// The write of the first fields extends the stream.
pub proof fn lemma_prefix_extends(
    reg: Seq<Input>,
    tid: nat,
    fields: Seq<Field>,
    k: nat,
    values: Seq<Datum>,
    stream: Stream,
    big: bool,
    args: Seq<u64>,
)
    ensures
        extends(stream, emit_prefix(reg, tid, fields, k, values, stream, big, args).stream),
    decreases k,
{
    if k > 0 {
        lemma_prefix_extends(reg, tid, fields, (k - 1) as nat, values, stream, big, args);
        let before = emit_prefix(reg, tid, fields, (k - 1) as nat, values, stream, big, args);
        if before.failure is None && k <= fields.len() {
            let j = (k - 1) as nat;
            if let Ok(stored) = stored_of(fields, j, values, before.next) {
                lemma_field_extends(
                    reg,
                    tid,
                    fields[j as int],
                    j as usize,
                    stored,
                    before.stream,
                    big,
                    args,
                    before.env,
                );
                lemma_extends_chain(
                    stream,
                    before.stream,
                    emit_prefix(reg, tid, fields, k, values, stream, big, args).stream,
                );
            }
        }
    }
}

/// A write that came through `n` fields came through the first `k` of them,
/// and went on from there.
pub proof fn lemma_prefix_within(
    reg: Seq<Input>,
    tid: nat,
    fields: Seq<Field>,
    k: nat,
    n: nat,
    values: Seq<Datum>,
    stream: Stream,
    big: bool,
    args: Seq<u64>,
)
    requires
        k <= n <= fields.len(),
        emit_prefix(reg, tid, fields, n, values, stream, big, args).failure is None,
    ensures
        emit_prefix(reg, tid, fields, k, values, stream, big, args).failure is None,
        emit_prefix(reg, tid, fields, n, values, stream, big, args).faithful ==> emit_prefix(
            reg,
            tid,
            fields,
            k,
            values,
            stream,
            big,
            args,
        ).faithful,
        extends(
            emit_prefix(reg, tid, fields, k, values, stream, big, args).stream,
            emit_prefix(reg, tid, fields, n, values, stream, big, args).stream,
        ),
    decreases n - k,
{
    if k < n {
        let j = (n - 1) as nat;
        lemma_prefix_within(reg, tid, fields, k, j, values, stream, big, args);
        let before = emit_prefix(reg, tid, fields, j, values, stream, big, args);
        let stored = stored_of(fields, j, values, before.next)->Ok_0;
        lemma_field_extends(
            reg,
            tid,
            fields[j as int],
            j as usize,
            stored,
            before.stream,
            big,
            args,
            before.env,
        );
        lemma_extends_chain(
            emit_prefix(reg, tid, fields, k, values, stream, big, args).stream,
            before.stream,
            emit_prefix(reg, tid, fields, n, values, stream, big, args).stream,
        );
    }
}

/// One more field that was written reads back, behind fields that did: the
/// read of the field ends where its write ended, pushes the number that the
/// write pushed, and adds to the values just what the write took from them.
#[verifier::rlimit(60)]
pub proof fn lemma_step_back(
    reg: Seq<Input>,
    tid: nat,
    fields: Seq<Field>,
    j: nat,
    values: Seq<Datum>,
    next: nat,
    stream: Stream,
    big: bool,
    args: Seq<u64>,
    env: Seq<u64>,
    other: Seq<u8>,
)
    requires
        j < fields.len(),
        next <= values.len(),
        stored_of(fields, j, values, next) is Ok,
        emit_field(
            reg,
            tid,
            fields[j as int],
            j as usize,
            stored_of(fields, j, values, next)->Ok_0,
            stream,
            big,
            args,
            env,
        ).failure is None,
        emit_field(
            reg,
            tid,
            fields[j as int],
            j as usize,
            stored_of(fields, j, values, next)->Ok_0,
            stream,
            big,
            args,
            env,
        ).faithful,
        agree(
            other,
            emit_field(
                reg,
                tid,
                fields[j as int],
                j as usize,
                stored_of(fields, j, values, next)->Ok_0,
                stream,
                big,
                args,
                env,
            ).stream.data,
            stream.pos,
            emit_field(
                reg,
                tid,
                fields[j as int],
                j as usize,
                stored_of(fields, j, values, next)->Ok_0,
                stream,
                big,
                args,
                env,
            ).stream.pos,
        ),
    ensures
        ({
            let field = fields[j as int];
            let stored = stored_of(fields, j, values, next)->Ok_0;
            let w = emit_field(reg, tid, field, j as usize, stored, stream, big, args, env);
            let r = parse_field(reg, tid, field, j as usize, other, stream.pos, big, args, env);
            &&& r.pos == w.stream.pos
            &&& r.result matches Ok(v)
            &&& env.push(v.scalar()) == env.push(pushed(field.directive, stored, env, args))
            &&& !field.directive.temporary ==> next < values.len() && values.take(
                next as int,
            ).push(v) == values.take(next as int + 1)
        }),
    decreases tid, 3nat, 1nat,
{
    let field = fields[j as int];
    let stored = stored_of(fields, j, values, next)->Ok_0;
    lemma_field_back(reg, tid, field, j as usize, stored, stream, big, args, env, other);
    if !field.directive.temporary {
        assert(values.take(next as int).push(stored) =~= values.take(next as int + 1));
    }
}

/// What one more field adds to a write that came through the fields before
/// it.
pub proof fn lemma_sent_step(
    reg: Seq<Input>,
    tid: nat,
    fields: Seq<Field>,
    k: nat,
    values: Seq<Datum>,
    stream: Stream,
    big: bool,
    args: Seq<u64>,
)
    requires
        0 < k <= fields.len(),
        emit_prefix(reg, tid, fields, k, values, stream, big, args).failure is None,
    ensures
        ({
            let j = (k - 1) as nat;
            let before = emit_prefix(reg, tid, fields, j, values, stream, big, args);
            let sent = emit_prefix(reg, tid, fields, k, values, stream, big, args);
            let field = fields[j as int];
            let stored = stored_of(fields, j, values, before.next)->Ok_0;
            let w = emit_field(
                reg,
                tid,
                field,
                j as usize,
                stored,
                before.stream,
                big,
                args,
                before.env,
            );
            &&& before.failure is None
            &&& stored_of(fields, j, values, before.next) is Ok
            &&& w.failure is None
            &&& sent.stream == w.stream
            &&& sent.env == before.env.push(pushed(field.directive, stored, before.env, args))
            &&& sent.next == if field.directive.temporary {
                before.next
            } else {
                before.next + 1
            }
            &&& sent.faithful == (before.faithful && w.faithful)
        }),
{
}

/// The first fields that were written read back: the read of as many fields
/// ends where their write ended, with the same numbers, and with the values
/// that were written.
#[verifier::rlimit(60)]
pub proof fn lemma_prefix_back(
    reg: Seq<Input>,
    tid: nat,
    fields: Seq<Field>,
    k: nat,
    values: Seq<Datum>,
    stream: Stream,
    big: bool,
    args: Seq<u64>,
    other: Seq<u8>,
)
    requires
        k <= fields.len(),
        emit_prefix(reg, tid, fields, k, values, stream, big, args).failure is None,
        emit_prefix(reg, tid, fields, k, values, stream, big, args).faithful,
        agree(
            other,
            emit_prefix(reg, tid, fields, k, values, stream, big, args).stream.data,
            stream.pos,
            emit_prefix(reg, tid, fields, k, values, stream, big, args).stream.pos,
        ),
    ensures
        ({
            let sent = emit_prefix(reg, tid, fields, k, values, stream, big, args);
            &&& sent.next <= values.len()
            &&& parse_prefix(reg, tid, fields, k, other, stream.pos, big, args) == (Progress {
                pos: sent.stream.pos,
                env: sent.env,
                out: values.take(sent.next as int),
                failure: None,
            })
        }),
    decreases tid, 4nat, k,
{
    if k == 0 {
        assert(values.take(0) =~= Seq::<Datum>::empty());
    } else {
        let j = (k - 1) as nat;
        let before = emit_prefix(reg, tid, fields, j, values, stream, big, args);
        let sent = emit_prefix(reg, tid, fields, k, values, stream, big, args);
        let field = fields[j as int];
        let stored = stored_of(fields, j, values, before.next)->Ok_0;
        let w = emit_field(reg, tid, field, j as usize, stored, before.stream, big, args, before.env);
        lemma_sent_step(reg, tid, fields, k, values, stream, big, args);
        assert(agree(other, before.stream.data, stream.pos, before.stream.pos) && agree(
            other,
            w.stream.data,
            before.stream.pos,
            w.stream.pos,
        )) by {
            lemma_prefix_extends(reg, tid, fields, j, values, stream, big, args);
            lemma_field_extends(
                reg,
                tid,
                field,
                j as usize,
                stored,
                before.stream,
                big,
                args,
                before.env,
            );
            lemma_agree_earlier(other, stream, before.stream, w.stream);
        }
        lemma_prefix_back(reg, tid, fields, j, values, stream, big, args, other);
        lemma_step_back(
            reg,
            tid,
            fields,
            j,
            values,
            before.next,
            before.stream,
            big,
            args,
            before.env,
            other,
        );
    }
}

/// A body that was written reads back.
#[verifier::rlimit(60)]
pub proof fn lemma_body_back(
    reg: Seq<Input>,
    tid: nat,
    body: Body,
    values: Seq<Datum>,
    stream: Stream,
    big: bool,
    args: Seq<u64>,
    other: Seq<u8>,
)
    requires
        emit_body(reg, tid, body, values, stream, big, args).failure is None,
        emit_body(reg, tid, body, values, stream, big, args).faithful,
        agree(
            other,
            emit_body(reg, tid, body, values, stream, big, args).stream.data,
            stream.pos,
            emit_body(reg, tid, body, values, stream, big, args).stream.pos,
        ),
    ensures
        parse_body(reg, tid, body, other, stream.pos, big, args) == done(
            emit_body(reg, tid, body, values, stream, big, args).stream.pos,
            values,
        ),
    decreases tid, 5nat, 0nat,
{
    let fields = body.fields@;
    let n = fields.len();
    let head = emit_bytes(stream, body.magic@);
    let rest = emit_fields(reg, tid, fields, 0, values, 0, head.stream, big, args, Seq::empty());
    let sent = emit_prefix(reg, tid, fields, n, values, head.stream, big, args);
    lemma_emit_split(reg, tid, fields, n, values, head.stream, big, args);
    assert(head.failure is None && rest.failure is None && rest.faithful);
    assert(emit_body(reg, tid, body, values, stream, big, args).stream == rest.stream);
    assert(agree(other, head.stream.data, stream.pos, head.stream.pos) && agree(
        other,
        rest.stream.data,
        head.stream.pos,
        rest.stream.pos,
    )) by {
        lemma_bytes_extend(stream, body.magic@);
        lemma_fields_extend(reg, tid, fields, 0, values, 0, head.stream, big, args, Seq::empty());
        lemma_agree_earlier(other, stream, head.stream, rest.stream);
    }
    assert(sent.failure is None);
    assert(sent.stream == rest.stream);
    assert(sent.next == values.len());
    if body.magic@.len() > 0 {
        lemma_bytes_back(stream, body.magic@, other);
    }
    lemma_prefix_back(reg, tid, fields, n, values, head.stream, big, args, other);
    lemma_parse_split(reg, tid, fields, n, other, head.stream.pos, big, args);
    assert(values.take(values.len() as int) =~= values);
}

/// Where each of the variants from `from` up to `i` fails and variant `i`
/// reads, a trial from `from` on takes variant `i`.
pub proof fn lemma_trial_takes(
    reg: Seq<Input>,
    tid: nat,
    variants: Seq<Variant>,
    from: nat,
    i: nat,
    data: Seq<u8>,
    pos: nat,
    big: bool,
    args: Seq<u64>,
    failures: Seq<Failure>,
)
    requires
        from <= i < variants.len(),
        parse_body(reg, tid, variants[i as int].body, data, pos, big, args).result is Ok,
        forall|j: int|
            from <= j < i ==> (#[trigger] parse_body(
                reg,
                tid,
                variants[j].body,
                data,
                pos,
                big,
                args,
            )).result is Err,
    ensures
        parse_trial(reg, tid, variants, from, data, pos, big, args, failures) == done(
            parse_body(reg, tid, variants[i as int].body, data, pos, big, args).pos,
            Datum::Variant(
                i as usize,
                parse_body(reg, tid, variants[i as int].body, data, pos, big, args).result->Ok_0,
            ),
        ),
    decreases i - from,
{
    if from < i {
        let r = parse_body(reg, tid, variants[from as int].body, data, pos, big, args);
        assert(r.result is Err);
        lemma_trial_takes(
            reg,
            tid,
            variants,
            from + 1,
            i,
            data,
            pos,
            big,
            args,
            failures.push(r.result->Err_0),
        );
    }
}

/// What reading the variants of an enum gives: by the tag, if the enum has
/// a tag type, else by trying.
pub open spec fn parse_variants(
    reg: Seq<Input>,
    tid: nat,
    variants: Seq<Variant>,
    repr: Option<IntType>,
    data: Seq<u8>,
    pos: nat,
    big: bool,
    args: Seq<u64>,
) -> Outcome<Datum> {
    match repr {
        Some(t) => parse_tagged(reg, tid, variants, t, data, pos, big, args),
        None => parse_trial(reg, tid, variants, 0, data, pos, big, args, Seq::empty()),
    }
}

/// A variant that was written behind its tag reads back.
#[verifier::rlimit(60)]
pub proof fn lemma_tagged_back(
    reg: Seq<Input>,
    tid: nat,
    variants: Seq<Variant>,
    t: IntType,
    i: usize,
    values: Seq<Datum>,
    stream: Stream,
    big: bool,
    args: Seq<u64>,
    other: Seq<u8>,
)
    requires
        emit_variant(reg, tid, variants, Some(t), i as nat, values, stream, big, args).failure is None,
        emit_variant(reg, tid, variants, Some(t), i as nat, values, stream, big, args).faithful,
        agree(
            other,
            emit_variant(reg, tid, variants, Some(t), i as nat, values, stream, big, args).stream.data,
            stream.pos,
            emit_variant(reg, tid, variants, Some(t), i as nat, values, stream, big, args).stream.pos,
        ),
    ensures
        parse_tagged(reg, tid, variants, t, other, stream.pos, big, args) == done(
            emit_variant(reg, tid, variants, Some(t), i as nat, values, stream, big, args).stream.pos,
            Datum::Variant(i, values),
        ),
    decreases tid, 6nat, 0nat,
{
    let variant = variants[i as int];
    let tag = variant.discriminant->0;
    let bytes = int_bytes(tag as nat, t.size(), big);
    let head = emit_bytes(stream, bytes);
    let body = emit_body(reg, tid, variant.body, values, head.stream, big, args);
    assert(head.failure is None && body.failure is None && body.faithful && t.holds(tag)
        && find_variant(variants, tag, 0) == Some(i as nat));
    assert(emit_variant(reg, tid, variants, Some(t), i as nat, values, stream, big, args).stream
        == body.stream);
    assert(agree(other, head.stream.data, stream.pos, head.stream.pos) && agree(
        other,
        body.stream.data,
        head.stream.pos,
        body.stream.pos,
    )) by {
        lemma_bytes_extend(stream, bytes);
        lemma_body_extends(reg, tid, variant.body, values, head.stream, big, args);
        lemma_agree_earlier(other, stream, head.stream, body.stream);
    }
    let label = t.datum(tag);
    assert(label.scalar() == tag && label.int_type() == Some(t));
    assert(parse_int(t, other, stream.pos, big) == done(head.stream.pos, label)) by {
        assert(emit_int(t, label, stream, big) == head);
        lemma_int_back(t, label, stream, big, other);
    }
    lemma_body_back(reg, tid, variant.body, values, head.stream, big, args, other);
    let read = parse_body(reg, tid, variant.body, other, head.stream.pos, big, args);
    assert(read == done(body.stream.pos, values));
}

/// A variant that was written without a tag is the one that a trial takes.
#[verifier::rlimit(60)]
pub proof fn lemma_trial_back(
    reg: Seq<Input>,
    tid: nat,
    variants: Seq<Variant>,
    i: usize,
    values: Seq<Datum>,
    stream: Stream,
    big: bool,
    args: Seq<u64>,
    other: Seq<u8>,
)
    requires
        emit_variant(reg, tid, variants, None, i as nat, values, stream, big, args).failure is None,
        emit_variant(reg, tid, variants, None, i as nat, values, stream, big, args).faithful,
        agree(
            other,
            emit_variant(reg, tid, variants, None, i as nat, values, stream, big, args).stream.data,
            stream.pos,
            emit_variant(reg, tid, variants, None, i as nat, values, stream, big, args).stream.pos,
        ),
    ensures
        parse_trial(reg, tid, variants, 0, other, stream.pos, big, args, Seq::empty()) == done(
            emit_variant(reg, tid, variants, None, i as nat, values, stream, big, args).stream.pos,
            Datum::Variant(i, values),
        ),
    decreases tid, 6nat, 0nat,
{
    let variant = variants[i as int];
    let body = emit_body(reg, tid, variant.body, values, stream, big, args);
    assert(body.failure is None && body.faithful);
    assert(emit_variant(reg, tid, variants, None, i as nat, values, stream, big, args).stream
        == body.stream);
    lemma_body_back(reg, tid, variant.body, values, stream, big, args, other);
    assert(first_choice(
        reg,
        tid,
        variants,
        i as nat,
        body.stream.data,
        stream.pos,
        body.stream.pos,
        big,
        args,
    ));
    assert forall|j: int| 0 <= j < i implies (#[trigger] parse_body(
        reg,
        tid,
        variants[j].body,
        other,
        stream.pos,
        big,
        args,
    )).result is Err by {}
    lemma_trial_takes(reg, tid, variants, 0, i as nat, other, stream.pos, big, args, Seq::empty());
}

/// A variant that was written reads back.
pub proof fn lemma_variant_back(
    reg: Seq<Input>,
    tid: nat,
    variants: Seq<Variant>,
    repr: Option<IntType>,
    i: usize,
    values: Seq<Datum>,
    stream: Stream,
    big: bool,
    args: Seq<u64>,
    other: Seq<u8>,
)
    requires
        emit_variant(reg, tid, variants, repr, i as nat, values, stream, big, args).failure is None,
        emit_variant(reg, tid, variants, repr, i as nat, values, stream, big, args).faithful,
        agree(
            other,
            emit_variant(reg, tid, variants, repr, i as nat, values, stream, big, args).stream.data,
            stream.pos,
            emit_variant(reg, tid, variants, repr, i as nat, values, stream, big, args).stream.pos,
        ),
    ensures
        parse_variants(reg, tid, variants, repr, other, stream.pos, big, args) == done(
            emit_variant(reg, tid, variants, repr, i as nat, values, stream, big, args).stream.pos,
            Datum::Variant(i, values),
        ),
    decreases tid, 6nat, 1nat,
{
    match repr {
        Some(t) => {
            lemma_tagged_back(reg, tid, variants, t, i, values, stream, big, args, other);
        },
        None => {
            lemma_trial_back(reg, tid, variants, i, values, stream, big, args, other);
        },
    }
}

/// A value that was written reads back, from any bytes that hold what the
/// write put between the position that it started from and the position
/// that it ended at.
#[verifier::rlimit(60)]
pub proof fn lemma_type_back(
    reg: Seq<Input>,
    tid: nat,
    value: Datum,
    stream: Stream,
    big: bool,
    args: Seq<u64>,
    other: Seq<u8>,
)
    requires
        emit_type(reg, tid, value, stream, big, args).failure is None,
        emit_type(reg, tid, value, stream, big, args).faithful,
        agree(
            other,
            emit_type(reg, tid, value, stream, big, args).stream.data,
            stream.pos,
            emit_type(reg, tid, value, stream, big, args).stream.pos,
        ),
    ensures
        parse_type(reg, tid, other, stream.pos, big, args) == done(
            emit_type(reg, tid, value, stream, big, args).stream.pos,
            value,
        ),
    decreases tid, 7nat, 0nat,
{
    let input = reg[tid as int];
    let order = Endian::over(input.endian, big);
    match input.shape {
        Shape::Struct(body) => {
            let values = value->Record_0;
            lemma_body_back(reg, tid, body, values, stream, order, args, other);
        },
        Shape::Enum(variants) => {
            let i = value->Variant_0;
            let values = value->Variant_1;
            lemma_variant_back(reg, tid, variants@, input.repr, i, values, stream, order, args, other);
        },
    }
}

/// The round trip: a value that was written without failure, and of which
/// nothing was lost on the way, reads back from the stream that the write
/// left behind, from the position at which the write started, as the same
/// value, and the read ends where the write ended. This holds in either byte
/// order.
#[verifier::rlimit(40)]
pub proof fn law_round_trip(
    reg: Seq<Input>,
    tid: nat,
    value: Datum,
    stream: Stream,
    big: bool,
    args: Seq<u64>,
)
    requires
        emit_type(reg, tid, value, stream, big, args).failure is None,
        emit_type(reg, tid, value, stream, big, args).faithful,
    ensures
        parse_type(
            reg,
            tid,
            emit_type(reg, tid, value, stream, big, args).stream.data,
            stream.pos,
            big,
            args,
        ) == done(emit_type(reg, tid, value, stream, big, args).stream.pos, value),
{
    let e = emit_type(reg, tid, value, stream, big, args);
    lemma_type_extends(reg, tid, value, stream, big, args);
    lemma_type_back(reg, tid, value, stream, big, args, e.stream.data);
}

/// A read visits the fields at the positions at which the write visited
/// them: where the fields of a body were written without failure and
/// nothing was lost, a read of what was written reaches each field where
/// the write reached it, with the same numbers for the fields before it.
#[verifier::rlimit(40)]
pub proof fn law_positions_agree(
    reg: Seq<Input>,
    tid: nat,
    fields: Seq<Field>,
    k: nat,
    values: Seq<Datum>,
    stream: Stream,
    big: bool,
    args: Seq<u64>,
)
    requires
        k <= fields.len(),
        emit_prefix(reg, tid, fields, fields.len(), values, stream, big, args).failure is None,
        emit_prefix(reg, tid, fields, fields.len(), values, stream, big, args).faithful,
    ensures
        ({
            let written = emit_prefix(reg, tid, fields, fields.len(), values, stream, big, args);
            let read = parse_prefix(reg, tid, fields, k, written.stream.data, stream.pos, big, args);
            let sent = emit_prefix(reg, tid, fields, k, values, stream, big, args);
            &&& read.failure is None
            &&& read.pos == sent.stream.pos
            &&& read.env == sent.env
        }),
{
    let n = fields.len();
    let written = emit_prefix(reg, tid, fields, n, values, stream, big, args);
    let sent = emit_prefix(reg, tid, fields, k, values, stream, big, args);
    lemma_prefix_within(reg, tid, fields, k, n, values, stream, big, args);
    lemma_prefix_extends(reg, tid, fields, k, values, stream, big, args);
    lemma_prefix_extends(reg, tid, fields, n, values, stream, big, args);
    lemma_agree_earlier(written.stream.data, stream, sent.stream, written.stream);
    lemma_prefix_back(reg, tid, fields, k, values, stream, big, args, written.stream.data);
}

} // verus!
