//! Plans of which every value reads back: those without conditions,
//! transforms, fields that go back to their start, or variants that are
//! found by trying.

use crate::binread::done;
use crate::directive::{Count, FieldType};
use crate::endian::Endian;
use crate::expr::eval_all;
use crate::io::Stream;
use crate::plan::{Body, Field, Input, Shape, Variant};
use crate::read::{find_variant, parse_type};
use crate::round_trip::{emit_wire, law_round_trip};
use crate::value::{Datum, IntType};
use crate::write::{
    emit_body, emit_bytes, emit_content, emit_field, emit_fields, emit_item, emit_items,
    emit_type, emit_variant, fill, prepared, pushed, stored_of,
};
use vstd::prelude::*;

verus! {

/// Whether a field is always processed, is not transformed, and leaves the
/// stream behind it.
pub open spec fn plain_field(field: Field) -> bool {
    &&& field.directive.condition is None
    &&& !field.directive.restore_position
    &&& field.directive.map_fn is None
    &&& field.directive.try_map_fn is None
}

/// Whether the fields from `k` on are plain, and nest only plain plans.
pub open spec fn plain_fields(reg: Seq<Input>, tid: nat, fields: Seq<Field>, k: nat) -> bool
    decreases tid, 0nat, fields.len() - k,
{
    if k >= fields.len() {
        true
    } else {
        &&& plain_field(fields[k as int])
        &&& match fields[k as int].ty {
            FieldType::Nested(t) => t < tid ==> plain_type(reg, t as nat),
            FieldType::Int(_) => true,
        }
        &&& plain_fields(reg, tid, fields, k + 1)
    }
}

/// Whether the variants from `i` on have plain fields, and no two variants
/// declare the same tag.
pub open spec fn plain_variants(reg: Seq<Input>, tid: nat, variants: Seq<Variant>, i: nat) -> bool
    decreases tid, 1nat, variants.len() - i,
{
    if i >= variants.len() {
        true
    } else {
        &&& plain_fields(reg, tid, variants[i as int].body.fields@, 0)
        &&& forall|j: int|
            0 <= j < i ==> (#[trigger] variants[j]).discriminant != variants[i as int].discriminant
        &&& plain_variants(reg, tid, variants, i + 1)
    }
}

/// Whether plan `tid` is plain: all its fields are, all the plans that it
/// nests are, and if it is an enum it names its variants by tags that
/// differ from each other.
pub open spec fn plain_type(reg: Seq<Input>, tid: nat) -> bool
    decreases tid, 2nat, 0nat,
{
    tid < reg.len() ==> match reg[tid as int].shape {
        Shape::Struct(body) => plain_fields(reg, tid, body.fields@, 0),
        Shape::Enum(variants) => reg[tid as int].repr is Some && plain_variants(
            reg,
            tid,
            variants@,
            0,
        ),
    }
}

/// Plain fields are plain one by one.
pub proof fn lemma_plain_fields(reg: Seq<Input>, tid: nat, fields: Seq<Field>, from: nat, k: nat)
    requires
        plain_fields(reg, tid, fields, from),
        from <= k < fields.len(),
    ensures
        plain_field(fields[k as int]),
        fields[k as int].ty matches FieldType::Nested(t) ==> (t < tid ==> plain_type(reg, t as nat)),
        plain_fields(reg, tid, fields, k),
    decreases k - from,
{
    if from < k {
        lemma_plain_fields(reg, tid, fields, from + 1, k);
    }
}

/// Plain variants are plain one by one, and the tag of each is found at the
/// variant.
pub proof fn lemma_plain_variants(reg: Seq<Input>, tid: nat, variants: Seq<Variant>, from: nat, i: nat)
    requires
        plain_variants(reg, tid, variants, from),
        from <= i < variants.len(),
    ensures
        plain_fields(reg, tid, variants[i as int].body.fields@, 0),
        forall|j: int|
            0 <= j < i ==> (#[trigger] variants[j]).discriminant != variants[i as int].discriminant,
    decreases i - from,
{
    if from < i {
        lemma_plain_variants(reg, tid, variants, from + 1, i);
    }
}

/// A tag that no earlier variant declares is found at the variant that
/// declares it.
pub proof fn lemma_find_first(variants: Seq<Variant>, tag: u64, from: nat, i: nat)
    requires
        from <= i < variants.len(),
        variants[i as int].discriminant == Some(tag),
        forall|j: int| from <= j < i ==> (#[trigger] variants[j]).discriminant != Some(tag),
    ensures
        find_variant(variants, tag, from) == Some(i),
    decreases i - from,
{
    if from < i {
        assert(variants[from as int].discriminant != Some(tag));
        lemma_find_first(variants, tag, from + 1, i);
    }
}

/// Of an item of a plain type nothing is lost.
pub proof fn lemma_item_kept(
    reg: Seq<Input>,
    tid: nat,
    ty: FieldType,
    value: Datum,
    stream: Stream,
    big: bool,
    args: Seq<u64>,
)
    requires
        ty matches FieldType::Nested(t) ==> (t < tid ==> plain_type(reg, t as nat)),
        emit_item(reg, tid, ty, value, stream, big, args).failure is None,
    ensures
        emit_item(reg, tid, ty, value, stream, big, args).faithful,
    decreases tid, 0nat, 0nat,
{
    match ty {
        FieldType::Nested(t) => {
            if t < tid {
                lemma_type_kept(reg, t as nat, value, stream, big, args);
            }
        },
        FieldType::Int(_) => {},
    }
}

/// Of items of a plain type nothing is lost.
pub proof fn lemma_items_kept(
    reg: Seq<Input>,
    tid: nat,
    ty: FieldType,
    items: Seq<Datum>,
    i: nat,
    stream: Stream,
    big: bool,
    args: Seq<u64>,
)
    requires
        ty matches FieldType::Nested(t) ==> (t < tid ==> plain_type(reg, t as nat)),
        emit_items(reg, tid, ty, items, i, stream, big, args).failure is None,
    ensures
        emit_items(reg, tid, ty, items, i, stream, big, args).faithful,
    decreases tid, 1nat, items.len() - i,
{
    if i < items.len() {
        lemma_item_kept(reg, tid, ty, items[i as int], stream, big, args);
        let w = emit_item(reg, tid, ty, items[i as int], stream, big, args);
        lemma_items_kept(reg, tid, ty, items, i + 1, w.stream, big, args);
    }
}

/// Of a plain field nothing is lost.
#[verifier::rlimit(40)]
pub proof fn lemma_field_kept(
    reg: Seq<Input>,
    tid: nat,
    field: Field,
    k: usize,
    stored: Datum,
    stream: Stream,
    big: bool,
    args: Seq<u64>,
    env: Seq<u64>,
)
    requires
        plain_field(field),
        field.ty matches FieldType::Nested(t) ==> (t < tid ==> plain_type(reg, t as nat)),
        emit_field(reg, tid, field, k, stored, stream, big, args, env).failure is None,
    ensures
        emit_field(reg, tid, field, k, stored, stream, big, args, env).faithful,
    decreases tid, 3nat, 0nat,
{
    let d = field.directive;
    let head = fill(stream, d.pad_before, d.align_before);
    let order = Endian::over(d.endian_override, big);
    let inner = eval_all(d.args_expr@, env, args);
    let content = emit_content(reg, tid, field, k, stored, head.stream, big, args, env);
    assert(head.failure is None && content.failure is None);
    let wire = prepared(field, k, stored, env, args)->Ok_0;
    assert(wire == stored);
    assert(d.map_read(wire, env, args) == Some(stored));
    let body = emit_wire(reg, tid, field, wire, head.stream, big, args, env);
    if d.count(field.ty, env) is Many {
        lemma_items_kept(reg, tid, field.ty, wire->List_0, 0, head.stream, order, inner);
    } else {
        lemma_item_kept(reg, tid, field.ty, wire, head.stream, order, inner);
    }
    assert(body.faithful);
}

/// Of plain fields nothing is lost.
pub proof fn lemma_fields_kept(
    reg: Seq<Input>,
    tid: nat,
    fields: Seq<Field>,
    k: nat,
    values: Seq<Datum>,
    next: nat,
    stream: Stream,
    big: bool,
    args: Seq<u64>,
    env: Seq<u64>,
)
    requires
        plain_fields(reg, tid, fields, k),
        emit_fields(reg, tid, fields, k, values, next, stream, big, args, env).failure is None,
    ensures
        emit_fields(reg, tid, fields, k, values, next, stream, big, args, env).faithful,
    decreases tid, 4nat, fields.len() - k,
{
    if k < fields.len() {
        let field = fields[k as int];
        let stored = stored_of(fields, k, values, next)->Ok_0;
        lemma_field_kept(reg, tid, field, k as usize, stored, stream, big, args, env);
        let w = emit_field(reg, tid, field, k as usize, stored, stream, big, args, env);
        lemma_fields_kept(
            reg,
            tid,
            fields,
            k + 1,
            values,
            if field.directive.temporary {
                next
            } else {
                next + 1
            },
            w.stream,
            big,
            args,
            env.push(pushed(field.directive, stored, env, args)),
        );
    }
}

/// Of a body with plain fields nothing is lost.
pub proof fn lemma_body_kept(
    reg: Seq<Input>,
    tid: nat,
    body: Body,
    values: Seq<Datum>,
    stream: Stream,
    big: bool,
    args: Seq<u64>,
)
    requires
        plain_fields(reg, tid, body.fields@, 0),
        emit_body(reg, tid, body, values, stream, big, args).failure is None,
    ensures
        emit_body(reg, tid, body, values, stream, big, args).faithful,
    decreases tid, 5nat, 0nat,
{
    let head = emit_bytes(stream, body.magic@);
    lemma_fields_kept(reg, tid, body.fields@, 0, values, 0, head.stream, big, args, Seq::empty());
}

/// Of a variant with plain fields and a tag of its own nothing is lost.
#[verifier::rlimit(40)]
pub proof fn lemma_variant_kept(
    reg: Seq<Input>,
    tid: nat,
    variants: Seq<Variant>,
    t: IntType,
    i: nat,
    values: Seq<Datum>,
    stream: Stream,
    big: bool,
    args: Seq<u64>,
)
    requires
        plain_variants(reg, tid, variants, 0),
        emit_variant(reg, tid, variants, Some(t), i, values, stream, big, args).failure is None,
    ensures
        emit_variant(reg, tid, variants, Some(t), i, values, stream, big, args).faithful,
    decreases tid, 6nat, 0nat,
{
    let variant = variants[i as int];
    let tag = variant.discriminant->0;
    let head = emit_bytes(stream, crate::ints::int_bytes(tag as nat, t.size(), big));
    lemma_plain_variants(reg, tid, variants, 0, i);
    lemma_find_first(variants, tag, 0, i);
    lemma_body_kept(reg, tid, variant.body, values, head.stream, big, args);
}

/// Of a value of a plain plan nothing is lost.
#[verifier::rlimit(40)]
pub proof fn lemma_type_kept(
    reg: Seq<Input>,
    tid: nat,
    value: Datum,
    stream: Stream,
    big: bool,
    args: Seq<u64>,
)
    requires
        plain_type(reg, tid),
        emit_type(reg, tid, value, stream, big, args).failure is None,
    ensures
        emit_type(reg, tid, value, stream, big, args).faithful,
    decreases tid, 7nat, 0nat,
{
    let input = reg[tid as int];
    let order = Endian::over(input.endian, big);
    match input.shape {
        Shape::Struct(body) => {
            lemma_body_kept(reg, tid, body, value->Record_0, stream, order, args);
        },
        Shape::Enum(variants) => {
            lemma_variant_kept(
                reg,
                tid,
                variants@,
                input.repr->0,
                value->Variant_0 as nat,
                value->Variant_1,
                stream,
                order,
                args,
            );
        },
    }
}

/// The round trip of plain plans: every value of a plain plan that is
/// written without failure reads back as the same value, in either byte
/// order, and the read ends where the write ended.
#[verifier::rlimit(40)]
pub proof fn law_plain_round_trip(
    reg: Seq<Input>,
    tid: nat,
    value: Datum,
    stream: Stream,
    big: bool,
    args: Seq<u64>,
)
    requires
        plain_type(reg, tid),
        emit_type(reg, tid, value, stream, big, args).failure is None,
    ensures
        parse_type(
            reg,
            tid,
            emit_type(reg, tid, value, stream, big, args).stream.data,
            stream.pos,
            big,
            args,
        ) == done(emit_type(reg, tid, value, stream, big, args).stream.pos, value),
{
    lemma_type_kept(reg, tid, value, stream, big, args);
    law_round_trip(reg, tid, value, stream, big, args);
}

} // verus!
