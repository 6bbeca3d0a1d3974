//! Reading a value as a plan describes it.
//!
//! The `parse_*` functions say what a read gives on given bytes; the `read_*`
//! functions do it on a stream. Fields are taken in declaration order. Each
//! failure ends the read of everything that encloses it, except under an enum
//! that finds its variant by trying: there a failed variant only moves on to
//! the next one.

use crate::binread::{done, failed, read_number, read_uint, Outcome, ReadOptions};
use crate::directive::{advance, advanced, first_failed, Count, FieldType, Mapped};
use crate::endian::Endian;
use crate::error::{failures_of, BinResult, Error, Failure, LeafError};
use crate::expr::{eval_all, eval_each};
use crate::io::{Cursor, Stream};
use crate::plan::{Body, Field, Input, Registry, Shape, Variant};
use crate::value::{lemma_views, views, Datum, IntType, Value};
use vstd::prelude::*;

verus! {

/// The outcome that an executable read of one value reports.
pub open spec fn viewed(pos: nat, result: Result<Value, Error>) -> Outcome<Datum> {
    match result {
        Ok(value) => done(pos, value@),
        Err(e) => failed(pos, e@),
    }
}

/// The outcome that an executable read of several values reports.
pub open spec fn viewed_all(pos: nat, result: Result<Vec<Value>, Error>) -> Outcome<Seq<Datum>> {
    match result {
        Ok(values) => done(pos, views(values@)),
        Err(e) => failed(pos, e@),
    }
}

/// An integer of type `ty` at `pos`.
pub open spec fn parse_int(ty: IntType, data: Seq<u8>, pos: nat, big: bool) -> Outcome<Datum> {
    let read = read_number(data, pos, ty.size(), big);
    match read.result {
        Ok(n) => done(read.pos, ty.datum(n as u64)),
        Err(f) => failed(read.pos, f),
    }
}

/// One item of type `ty` at `pos`: an integer, or a value of a plan that
/// stands before plan `tid` in the registry.
pub open spec fn parse_item(
    reg: Seq<Input>,
    tid: nat,
    ty: FieldType,
    data: Seq<u8>,
    pos: nat,
    big: bool,
    args: Seq<u64>,
) -> Outcome<Datum>
    decreases tid, 0nat, 0nat,
{
    match ty {
        FieldType::Int(t) => parse_int(t, data, pos, big),
        FieldType::Nested(t) => if t < tid {
            parse_type(reg, t as nat, data, pos, big, args)
        } else {
            failed(pos, Failure::UnresolvedReference { field: None })
        },
    }
}

/// `n` more items behind the items `acc`, one after the other.
pub open spec fn parse_items(
    reg: Seq<Input>,
    tid: nat,
    ty: FieldType,
    data: Seq<u8>,
    pos: nat,
    big: bool,
    args: Seq<u64>,
    n: nat,
    acc: Seq<Datum>,
) -> Outcome<Seq<Datum>>
    decreases tid, 1nat, n,
{
    if n == 0 {
        done(pos, acc)
    } else {
        let item = parse_item(reg, tid, ty, data, pos, big, args);
        match item.result {
            Ok(d) => parse_items(
                reg,
                tid,
                ty,
                data,
                item.pos,
                big,
                args,
                (n - 1) as nat,
                acc.push(d),
            ),
            Err(f) => failed(item.pos, f),
        }
    }
}

/// What the codec of a field gives from `pos`, under the field's byte order
/// and arguments: one item, or as many as the field's count says, before any
/// transform or assertion.
pub open spec fn parse_raw(
    reg: Seq<Input>,
    tid: nat,
    field: Field,
    data: Seq<u8>,
    pos: nat,
    big: bool,
    args: Seq<u64>,
    env: Seq<u64>,
) -> Outcome<Datum>
    decreases tid, 2nat, 0nat,
{
    let d = field.directive;
    let order = Endian::over(d.endian_override, big);
    let inner = eval_all(d.args_expr@, env, args);
    match d.count(field.ty, env) {
        Count::One => parse_item(reg, tid, field.ty, data, pos, order, inner),
        Count::Many(n) => {
            let items = parse_items(
                reg,
                tid,
                field.ty,
                data,
                pos,
                order,
                inner,
                n as nat,
                Seq::empty(),
            );
            match items.result {
                Ok(list) => done(items.pos, Datum::List(list)),
                Err(f) => failed(items.pos, f),
            }
        },
        Count::Bad => failed(pos, Failure::LeafCodecError(LeafError::WrongCount)),
    }
}

/// Field `k` from `pos`, once it is known to be enabled and the padding
/// before it is behind: the field's codec, then its transform, then its
/// assertions in order, then the padding after it.
pub open spec fn parse_content(
    reg: Seq<Input>,
    tid: nat,
    field: Field,
    k: usize,
    data: Seq<u8>,
    pos: nat,
    big: bool,
    args: Seq<u64>,
    env: Seq<u64>,
) -> Outcome<Datum>
    decreases tid, 2nat, 1nat,
{
    let d = field.directive;
    let decoded = parse_raw(reg, tid, field, data, pos, big, args, env);
    match decoded.result {
        Err(f) => decoded,
        Ok(raw) => match d.map_read(raw, env, args) {
            None => failed(decoded.pos, Failure::MapFailed { field: k }),
            Some(value) => match first_failed(d.assertions@, 0, env, args, value.scalar()) {
                Some(j) => failed(
                    decoded.pos,
                    Failure::AssertionFailed {
                        field: k,
                        description: d.assertions@[j as int].description@,
                    },
                ),
                None => match advance(decoded.pos, d.pad_after, d.align_after) {
                    Some(end) => done(end, value),
                    None => failed(
                        decoded.pos,
                        Failure::LeafCodecError(LeafError::PositionOverflow),
                    ),
                },
            },
        },
    }
}

/// Field `k` from `pos`. A field whose condition is 0 is skipped whole: it
/// takes its default and the stream stays. Else the padding before it is
/// skipped and the field is read; with `restore_position` the stream then
/// goes back to where the field started, whether the read failed or not.
pub open spec fn parse_field(
    reg: Seq<Input>,
    tid: nat,
    field: Field,
    k: usize,
    data: Seq<u8>,
    pos: nat,
    big: bool,
    args: Seq<u64>,
    env: Seq<u64>,
) -> Outcome<Datum>
    decreases tid, 3nat, 0nat,
{
    let d = field.directive;
    if !d.enabled(env, args) {
        done(pos, d.default_of(field.ty))
    } else {
        match advance(pos, d.pad_before, d.align_before) {
            None => failed(pos, Failure::LeafCodecError(LeafError::PositionOverflow)),
            Some(start) => {
                let inner = parse_content(reg, tid, field, k, data, start, big, args, env);
                if d.restore_position {
                    Outcome { pos: start, result: inner.result }
                } else {
                    inner
                }
            },
        }
    }
}

/// The fields from `k` on, in declaration order. `env` holds the numbers of
/// the fields before `k`, temporary ones included; `out` holds their values,
/// temporary ones left out. The first failure ends the read.
pub open spec fn parse_fields(
    reg: Seq<Input>,
    tid: nat,
    fields: Seq<Field>,
    k: nat,
    data: Seq<u8>,
    pos: nat,
    big: bool,
    args: Seq<u64>,
    env: Seq<u64>,
    out: Seq<Datum>,
) -> Outcome<Seq<Datum>>
    decreases tid, 4nat, fields.len() - k,
{
    if k >= fields.len() {
        done(pos, out)
    } else {
        let field = fields[k as int];
        let r = parse_field(reg, tid, field, k as usize, data, pos, big, args, env);
        match r.result {
            Err(f) => failed(r.pos, f),
            Ok(d) => parse_fields(
                reg,
                tid,
                fields,
                k + 1,
                data,
                r.pos,
                big,
                args,
                env.push(d.scalar()),
                if field.directive.temporary {
                    out
                } else {
                    out.push(d)
                },
            ),
        }
    }
}

/// A body from `pos`: its magic bytes, which must be there, then its fields.
pub open spec fn parse_body(
    reg: Seq<Input>,
    tid: nat,
    body: Body,
    data: Seq<u8>,
    pos: nat,
    big: bool,
    args: Seq<u64>,
) -> Outcome<Seq<Datum>>
    decreases tid, 5nat, 0nat,
{
    if body.magic@.len() == 0 {
        parse_fields(reg, tid, body.fields@, 0, data, pos, big, args, Seq::empty(), Seq::empty())
    } else {
        match (Stream { data, pos }).peek(body.magic@.len()) {
            None => failed(pos, Failure::LeafCodecError(LeafError::UnexpectedEof)),
            Some(bytes) => if bytes == body.magic@ {
                parse_fields(
                    reg,
                    tid,
                    body.fields@,
                    0,
                    data,
                    pos + body.magic@.len(),
                    big,
                    args,
                    Seq::empty(),
                    Seq::empty(),
                )
            } else {
                failed(pos, Failure::LeafCodecError(LeafError::BadMagic))
            },
        }
    }
}

/// The variants from `i` on, each tried from `pos`, in declaration order:
/// the first whose body reads without failure is the value. `failures` holds
/// what the variants before `i` failed with.
pub open spec fn parse_trial(
    reg: Seq<Input>,
    tid: nat,
    variants: Seq<Variant>,
    i: nat,
    data: Seq<u8>,
    pos: nat,
    big: bool,
    args: Seq<u64>,
    failures: Seq<Failure>,
) -> Outcome<Datum>
    decreases tid, 6nat, variants.len() - i,
{
    if i >= variants.len() {
        failed(pos, Failure::NoVariantMatched { failures })
    } else {
        let r = parse_body(reg, tid, variants[i as int].body, data, pos, big, args);
        match r.result {
            Ok(out) => done(r.pos, Datum::Variant(i as usize, out)),
            Err(f) => parse_trial(reg, tid, variants, i + 1, data, pos, big, args, failures.push(f)),
        }
    }
}

/// The first variant, from `from` on, whose discriminant is `tag`.
pub open spec fn find_variant(variants: Seq<Variant>, tag: u64, from: nat) -> Option<nat>
    decreases variants.len() - from,
{
    if from >= variants.len() {
        None
    } else if variants[from as int].discriminant == Some(tag) {
        Some(from)
    } else {
        find_variant(variants, tag, from + 1)
    }
}

/// An enum with a tag of type `tag_type` from `pos`: the tag, then the body
/// of the first variant that declares it. A tag that no variant declares
/// matches none.
pub open spec fn parse_tagged(
    reg: Seq<Input>,
    tid: nat,
    variants: Seq<Variant>,
    tag_type: IntType,
    data: Seq<u8>,
    pos: nat,
    big: bool,
    args: Seq<u64>,
) -> Outcome<Datum>
    decreases tid, 6nat, 0nat,
{
    let tag = parse_int(tag_type, data, pos, big);
    match tag.result {
        Err(f) => failed(tag.pos, f),
        Ok(d) => match find_variant(variants, d.scalar(), 0) {
            None => failed(tag.pos, Failure::NoVariantMatched { failures: Seq::empty() }),
            Some(i) => {
                let r = parse_body(reg, tid, variants[i as int].body, data, tag.pos, big, args);
                match r.result {
                    Ok(out) => done(r.pos, Datum::Variant(i as usize, out)),
                    Err(f) => failed(r.pos, f),
                }
            },
        },
    }
}

/// A value of plan `tid` from `pos`. A struct is its body. An enum with a
/// tag type reads the tag and then the body of the first variant that
/// declares it; an enum without one tries its variants in order.
pub open spec fn parse_type(
    reg: Seq<Input>,
    tid: nat,
    data: Seq<u8>,
    pos: nat,
    big: bool,
    args: Seq<u64>,
) -> Outcome<Datum>
    decreases tid, 7nat, 0nat,
{
    if tid >= reg.len() {
        failed(pos, Failure::UnresolvedReference { field: None })
    } else {
        let input = reg[tid as int];
        let order = Endian::over(input.endian, big);
        match input.shape {
            Shape::Struct(body) => {
                let r = parse_body(reg, tid, body, data, pos, order, args);
                match r.result {
                    Ok(out) => done(r.pos, Datum::Record(out)),
                    Err(f) => failed(r.pos, f),
                }
            },
            Shape::Enum(variants) => match input.repr {
                Some(t) => parse_tagged(reg, tid, variants@, t, data, pos, order, args),
                None => parse_trial(reg, tid, variants@, 0, data, pos, order, args, Seq::empty()),
            },
        }
    }
}

/// Reads an integer of type `ty`.
pub fn read_int(ty: IntType, reader: &mut Cursor, big: bool) -> (result: BinResult<Value>)
    ensures
        final(reader)@.data == old(reader)@.data,
        viewed(final(reader)@.pos, result) == parse_int(
            ty,
            old(reader)@.data,
            old(reader)@.pos,
            big,
        ),
{
    match read_uint(reader, ty.width(), big) {
        Ok(n) => {
            proof {
                let bytes = old(reader)@.peek(ty.size())->0;
                crate::ints::lemma_bytes_int_fits(bytes, big);
                crate::value::lemma_holds_fits(ty, n);
            }
            Ok(ty.value(n))
        },
        Err(e) => Err(e),
    }
}

/// Reads one item of type `ty`.
pub fn read_item(
    reg: &Registry,
    tid: usize,
    ty: FieldType,
    reader: &mut Cursor,
    big: bool,
    args: &Vec<u64>,
) -> (result: BinResult<Value>)
    ensures
        final(reader)@.data == old(reader)@.data,
        viewed(final(reader)@.pos, result) == parse_item(
            reg.inputs@,
            tid as nat,
            ty,
            old(reader)@.data,
            old(reader)@.pos,
            big,
            args@,
        ),
    decreases tid, 0nat, 0nat,
{
    match ty {
        FieldType::Int(t) => read_int(t, reader, big),
        FieldType::Nested(t) => {
            if t < tid {
                read_type(reg, t, reader, big, args)
            } else {
                Err(Error::UnresolvedReference { field: None })
            }
        },
    }
}

/// Reads `n` items of type `ty`, one after the other.
pub fn read_items(
    reg: &Registry,
    tid: usize,
    ty: FieldType,
    reader: &mut Cursor,
    big: bool,
    args: &Vec<u64>,
    n: u64,
) -> (result: BinResult<Vec<Value>>)
    ensures
        final(reader)@.data == old(reader)@.data,
        viewed_all(final(reader)@.pos, result) == parse_items(
            reg.inputs@,
            tid as nat,
            ty,
            old(reader)@.data,
            old(reader)@.pos,
            big,
            args@,
            n as nat,
            Seq::empty(),
        ),
    decreases tid, 1nat, 0nat,
{
    let ghost data = reader@.data;
    let ghost start = reader@.pos;
    let mut out: Vec<Value> = Vec::new();
    let mut left: u64 = n;
    proof {
        assert(views(out@) =~= Seq::<Datum>::empty());
    }
    while left > 0
        invariant
            reader@.data == data,
            data == old(reader)@.data,
            start == old(reader)@.pos,
            parse_items(
                reg.inputs@,
                tid as nat,
                ty,
                data,
                start,
                big,
                args@,
                n as nat,
                Seq::empty(),
            ) == parse_items(
                reg.inputs@,
                tid as nat,
                ty,
                data,
                reader@.pos,
                big,
                args@,
                left as nat,
                views(out@),
            ),
        decreases left,
    {
        match read_item(reg, tid, ty, reader, big, args) {
            Ok(v) => {
                proof {
                    assert(views(out@.push(v)) =~= views(out@).push(v@));
                }
                out.push(v);
                left = left - 1;
            },
            Err(e) => {
                return Err(e);
            },
        }
    }
    Ok(out)
}

/// Reads field `k` behind its padding.
pub fn read_content(
    reg: &Registry,
    tid: usize,
    field: &Field,
    k: usize,
    reader: &mut Cursor,
    big: bool,
    args: &Vec<u64>,
    env: &Vec<u64>,
) -> (result: BinResult<Value>)
    ensures
        final(reader)@.data == old(reader)@.data,
        viewed(final(reader)@.pos, result) == parse_content(
            reg.inputs@,
            tid as nat,
            *field,
            k,
            old(reader)@.data,
            old(reader)@.pos,
            big,
            args@,
            env@,
        ),
    decreases tid, 2nat, 1nat,
{
    let d = &field.directive;
    let order = Endian::resolve(d.endian_override, big);
    let inner = eval_each(&d.args_expr, env, args);
    let raw = match d.item_count(field.ty, env) {
        Count::One => match read_item(reg, tid, field.ty, reader, order, &inner) {
            Ok(v) => v,
            Err(e) => {
                return Err(e);
            },
        },
        Count::Many(n) => match read_items(reg, tid, field.ty, reader, order, &inner, n) {
            Ok(items) => {
                let list = Value::List(items);
                proof {
                    lemma_views(list);
                }
                list
            },
            Err(e) => {
                return Err(e);
            },
        },
        Count::Bad => {
            return Err(Error::LeafCodecError(LeafError::WrongCount));
        },
    };
    let value = match d.transform(&raw, env, args, true) {
        Mapped::Same => raw,
        Mapped::New(v) => v,
        Mapped::Failed => {
            return Err(Error::MapFailed { field: k });
        },
    };
    match d.check(env, args, value.scalar()) {
        Some(j) => {
            let e = Error::AssertionFailed {
                field: k,
                description: d.assertions[j].description.clone(),
            };
            assert(e@ == Failure::AssertionFailed {
                field: k,
                description: d.assertions@[j as int].description@,
            });
            return Err(e);
        },
        None => {},
    }
    match advanced(reader.position(), d.pad_after, d.align_after) {
        Some(end) => {
            reader.set_position(end);
            Ok(value)
        },
        None => Err(Error::LeafCodecError(LeafError::PositionOverflow)),
    }
}

/// Reads field `k`.
pub fn read_field(
    reg: &Registry,
    tid: usize,
    field: &Field,
    k: usize,
    reader: &mut Cursor,
    big: bool,
    args: &Vec<u64>,
    env: &Vec<u64>,
) -> (result: BinResult<Value>)
    ensures
        final(reader)@.data == old(reader)@.data,
        viewed(final(reader)@.pos, result) == parse_field(
            reg.inputs@,
            tid as nat,
            *field,
            k,
            old(reader)@.data,
            old(reader)@.pos,
            big,
            args@,
            env@,
        ),
    decreases tid, 3nat, 0nat,
{
    let d = &field.directive;
    if !d.is_enabled(env, args) {
        return Ok(d.default_value(field.ty));
    }
    let start = match advanced(reader.position(), d.pad_before, d.align_before) {
        Some(p) => p,
        None => {
            return Err(Error::LeafCodecError(LeafError::PositionOverflow));
        },
    };
    reader.set_position(start);
    let result = read_content(reg, tid, field, k, reader, big, args, env);
    if d.restore_position {
        reader.set_position(start);
    }
    result
}

/// Reads all of `fields` in declaration order and gives back the values of
/// those that are not temporary.
pub fn read_fields(
    reg: &Registry,
    tid: usize,
    fields: &Vec<Field>,
    reader: &mut Cursor,
    big: bool,
    args: &Vec<u64>,
) -> (result: BinResult<Vec<Value>>)
    ensures
        final(reader)@.data == old(reader)@.data,
        viewed_all(final(reader)@.pos, result) == parse_fields(
            reg.inputs@,
            tid as nat,
            fields@,
            0,
            old(reader)@.data,
            old(reader)@.pos,
            big,
            args@,
            Seq::empty(),
            Seq::empty(),
        ),
    decreases tid, 4nat, 0nat,
{
    let ghost data = reader@.data;
    let ghost start = reader@.pos;
    let mut env: Vec<u64> = Vec::new();
    let mut out: Vec<Value> = Vec::new();
    let mut k: usize = 0;
    proof {
        assert(views(out@) =~= Seq::<Datum>::empty());
        assert(env@ =~= Seq::<u64>::empty());
    }
    while k < fields.len()
        invariant
            k <= fields@.len(),
            reader@.data == data,
            data == old(reader)@.data,
            start == old(reader)@.pos,
            parse_fields(
                reg.inputs@,
                tid as nat,
                fields@,
                0,
                data,
                start,
                big,
                args@,
                Seq::empty(),
                Seq::empty(),
            ) == parse_fields(
                reg.inputs@,
                tid as nat,
                fields@,
                k as nat,
                data,
                reader@.pos,
                big,
                args@,
                env@,
                views(out@),
            ),
        decreases fields@.len() - k,
    {
        match read_field(reg, tid, &fields[k], k, reader, big, args, &env) {
            Ok(v) => {
                env.push(v.scalar());
                if !fields[k].directive.temporary {
                    proof {
                        assert(views(out@.push(v)) =~= views(out@).push(v@));
                    }
                    out.push(v);
                }
            },
            Err(e) => {
                return Err(e);
            },
        }
        k = k + 1;
    }
    Ok(out)
}

fn same_bytes(a: &Vec<u8>, b: &Vec<u8>) -> (same: bool)
    ensures
        same == (a@ == b@),
{
    if a.len() != b.len() {
        return false;
    }
    let mut i: usize = 0;
    while i < a.len()
        invariant
            i <= a@.len(),
            a@.len() == b@.len(),
            forall|j: int| 0 <= j < i ==> a@[j] == b@[j],
        decreases a@.len() - i,
    {
        if a[i] != b[i] {
            return false;
        }
        i = i + 1;
    }
    assert(a@ =~= b@);
    true
}

/// Reads a body: its magic bytes, then its fields.
pub fn read_body(
    reg: &Registry,
    tid: usize,
    body: &Body,
    reader: &mut Cursor,
    big: bool,
    args: &Vec<u64>,
) -> (result: BinResult<Vec<Value>>)
    ensures
        final(reader)@.data == old(reader)@.data,
        viewed_all(final(reader)@.pos, result) == parse_body(
            reg.inputs@,
            tid as nat,
            *body,
            old(reader)@.data,
            old(reader)@.pos,
            big,
            args@,
        ),
    decreases tid, 5nat, 0nat,
{
    if body.magic.len() > 0 {
        let start = reader.position();
        match reader.read_exact(body.magic.len()) {
            Ok(bytes) => {
                if !same_bytes(&bytes, &body.magic) {
                    reader.set_position(start);
                    return Err(Error::LeafCodecError(LeafError::BadMagic));
                }
            },
            Err(e) => {
                return Err(e);
            },
        }
    }
    read_fields(reg, tid, &body.fields, reader, big, args)
}

/// Tries the variants in declaration order, each from where the stream
/// stands now, and gives back the first that reads without failure.
pub fn read_trial(
    reg: &Registry,
    tid: usize,
    variants: &Vec<Variant>,
    reader: &mut Cursor,
    big: bool,
    args: &Vec<u64>,
) -> (result: BinResult<Value>)
    ensures
        final(reader)@.data == old(reader)@.data,
        viewed(final(reader)@.pos, result) == parse_trial(
            reg.inputs@,
            tid as nat,
            variants@,
            0,
            old(reader)@.data,
            old(reader)@.pos,
            big,
            args@,
            Seq::empty(),
        ),
    decreases tid, 6nat, 0nat,
{
    let ghost data = reader@.data;
    let start = reader.position();
    let mut failures: Vec<Error> = Vec::new();
    let mut i: usize = 0;
    proof {
        assert(failures_of(failures@) =~= Seq::<Failure>::empty());
    }
    while i < variants.len()
        invariant
            i <= variants@.len(),
            reader@.data == data,
            reader@.pos == start,
            data == old(reader)@.data,
            start == old(reader)@.pos,
            parse_trial(
                reg.inputs@,
                tid as nat,
                variants@,
                0,
                data,
                start as nat,
                big,
                args@,
                Seq::empty(),
            ) == parse_trial(
                reg.inputs@,
                tid as nat,
                variants@,
                i as nat,
                data,
                start as nat,
                big,
                args@,
                failures_of(failures@),
            ),
        decreases variants@.len() - i,
    {
        match read_body(reg, tid, &variants[i].body, reader, big, args) {
            Ok(out) => {
                let value = Value::Variant(i, out);
                proof {
                    lemma_views(value);
                }
                return Ok(value);
            },
            Err(e) => {
                proof {
                    assert(failures_of(failures@.push(e)) =~= failures_of(failures@).push(e@));
                }
                reader.set_position(start);
                failures.push(e);
            },
        }
        i = i + 1;
    }
    let e = Error::NoVariantMatched { failures };
    proof {
        assert(e@->NoVariantMatched_failures =~= failures_of(failures@));
    }
    Err(e)
}

/// The place of the first variant whose discriminant is `tag`.
pub fn variant_of(variants: &Vec<Variant>, tag: u64) -> (found: Option<usize>)
    ensures
        find_variant(variants@, tag, 0) == match found {
            Some(i) => Some(i as nat),
            None => None,
        },
        found matches Some(i) ==> i < variants@.len(),
{
    let mut i: usize = 0;
    while i < variants.len()
        invariant
            i <= variants@.len(),
            find_variant(variants@, tag, 0) == find_variant(variants@, tag, i as nat),
        decreases variants@.len() - i,
    {
        match variants[i].discriminant {
            Some(t) => {
                if t == tag {
                    return Some(i);
                }
            },
            None => {},
        }
        i = i + 1;
    }
    None
}

/// Reads the tag of an enum and then the body of the variant that declares
/// it.
pub fn read_tagged(
    reg: &Registry,
    tid: usize,
    variants: &Vec<Variant>,
    tag_type: IntType,
    reader: &mut Cursor,
    big: bool,
    args: &Vec<u64>,
) -> (result: BinResult<Value>)
    ensures
        final(reader)@.data == old(reader)@.data,
        viewed(final(reader)@.pos, result) == parse_tagged(
            reg.inputs@,
            tid as nat,
            variants@,
            tag_type,
            old(reader)@.data,
            old(reader)@.pos,
            big,
            args@,
        ),
    decreases tid, 6nat, 0nat,
{
    let tag = match read_int(tag_type, reader, big) {
        Ok(v) => v.scalar(),
        Err(e) => {
            return Err(e);
        },
    };
    match variant_of(variants, tag) {
        None => {
            let e = Error::NoVariantMatched { failures: Vec::new() };
            proof {
                assert(e@->NoVariantMatched_failures =~= Seq::<Failure>::empty());
            }
            Err(e)
        },
        Some(i) => match read_body(reg, tid, &variants[i].body, reader, big, args) {
            Ok(out) => {
                let value = Value::Variant(i, out);
                proof {
                    lemma_views(value);
                }
                Ok(value)
            },
            Err(e) => Err(e),
        },
    }
}

/// Reads a value of plan `tid`, most significant byte first where `big`
/// holds and no plan on the way says otherwise.
pub fn read_type(reg: &Registry, tid: usize, reader: &mut Cursor, big: bool, args: &Vec<u64>) -> (result:
    BinResult<Value>)
    ensures
        final(reader)@.data == old(reader)@.data,
        viewed(final(reader)@.pos, result) == parse_type(
            reg.inputs@,
            tid as nat,
            old(reader)@.data,
            old(reader)@.pos,
            big,
            args@,
        ),
    decreases tid, 7nat, 0nat,
{
    if tid >= reg.inputs.len() {
        return Err(Error::UnresolvedReference { field: None });
    }
    let input = &reg.inputs[tid];
    let order = Endian::resolve(input.endian, big);
    match &input.shape {
        Shape::Struct(body) => match read_body(reg, tid, body, reader, order, args) {
            Ok(out) => {
                let value = Value::Record(out);
                proof {
                    lemma_views(value);
                }
                Ok(value)
            },
            Err(e) => Err(e),
        },
        Shape::Enum(variants) => match input.repr {
            Some(t) => read_tagged(reg, tid, variants, t, reader, order, args),
            None => read_trial(reg, tid, variants, reader, order, args),
        },
    }
}

impl Registry {
    /// Reads a value of plan `id` under `options`, with `args`.
    pub fn read_options(
        &self,
        id: usize,
        reader: &mut Cursor,
        options: &ReadOptions,
        args: &Vec<u64>,
    ) -> (result: BinResult<Value>)
        ensures
            final(reader)@.data == old(reader)@.data,
            exists|big: bool|
                options@.admits(big) && (#[trigger] parse_type(
                    self.inputs@,
                    id as nat,
                    old(reader)@.data,
                    old(reader)@.pos,
                    big,
                    args@,
                )) == viewed(final(reader)@.pos, result),
    {
        let big = options.endian().is_big();
        let result = read_type(self, id, reader, big, args);
        assert(parse_type(self.inputs@, id as nat, old(reader)@.data, old(reader)@.pos, big, args@)
            == viewed(reader@.pos, result));
        result
    }
}

} // verus!
