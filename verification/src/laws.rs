//! What holds of every read: the order of the fields, the place of temporary
//! fields, the choice among variants, and the end that a failure puts to a
//! read.

use crate::binread::{done, failed, Outcome};
use crate::directive::{advance, first_failed, lemma_padded, Count, Directive, FieldType};
use crate::error::Failure;
use crate::plan::{value_count, Body, Field, Input, Shape, Variant};
use crate::read::{
    parse_body, parse_content, parse_field, parse_fields, parse_int, parse_item, parse_items,
    parse_raw, parse_tagged, parse_trial, parse_type,
};
use crate::value::Datum;
use vstd::prelude::*;

verus! {

/// How far a read of a sequence of fields has come.
pub struct Progress {
    /// Where the stream stands.
    pub pos: nat,
    /// The numbers of the fields that were read, temporary ones included.
    pub env: Seq<u64>,
    /// The values of the fields that were read, temporary ones left out.
    pub out: Seq<Datum>,
    /// The failure that ended the read, if one did.
    pub failure: Option<Failure>,
}

/// The read of the first `upto` fields from `pos`, in declaration order.
pub open spec fn parse_prefix(
    reg: Seq<Input>,
    tid: nat,
    fields: Seq<Field>,
    upto: nat,
    data: Seq<u8>,
    pos: nat,
    big: bool,
    args: Seq<u64>,
) -> Progress
    decreases upto,
{
    if upto == 0 {
        Progress { pos, env: Seq::empty(), out: Seq::empty(), failure: None }
    } else {
        let before = parse_prefix(reg, tid, fields, (upto - 1) as nat, data, pos, big, args);
        if before.failure is Some || upto > fields.len() {
            before
        } else {
            let field = fields[upto - 1];
            let r = parse_field(
                reg,
                tid,
                field,
                (upto - 1) as usize,
                data,
                before.pos,
                big,
                args,
                before.env,
            );
            match r.result {
                Ok(d) => Progress {
                    pos: r.pos,
                    env: before.env.push(d.scalar()),
                    out: if field.directive.temporary {
                        before.out
                    } else {
                        before.out.push(d)
                    },
                    failure: None,
                },
                Err(f) => Progress {
                    pos: r.pos,
                    env: before.env,
                    out: before.out,
                    failure: Some(f),
                },
            }
        }
    }
}

/// The read of the fields from `k` on, taken up where `so_far` left off.
pub open spec fn resume(
    reg: Seq<Input>,
    tid: nat,
    fields: Seq<Field>,
    k: nat,
    data: Seq<u8>,
    big: bool,
    args: Seq<u64>,
    so_far: Progress,
) -> Outcome<Seq<Datum>> {
    match so_far.failure {
        Some(f) => failed(so_far.pos, f),
        None => parse_fields(reg, tid, fields, k, data, so_far.pos, big, args, so_far.env, so_far.out),
    }
}

/// A read of all fields is the read of the first `k` of them, taken up from
/// there.
pub proof fn lemma_parse_split(
    reg: Seq<Input>,
    tid: nat,
    fields: Seq<Field>,
    k: nat,
    data: Seq<u8>,
    pos: nat,
    big: bool,
    args: Seq<u64>,
)
    requires
        k <= fields.len(),
    ensures
        parse_fields(reg, tid, fields, 0, data, pos, big, args, Seq::empty(), Seq::empty())
            == resume(
            reg,
            tid,
            fields,
            k,
            data,
            big,
            args,
            parse_prefix(reg, tid, fields, k, data, pos, big, args),
        ),
    decreases k,
{
    if k > 0 {
        lemma_parse_split(reg, tid, fields, (k - 1) as nat, data, pos, big, args);
        let before = parse_prefix(reg, tid, fields, (k - 1) as nat, data, pos, big, args);
        if before.failure is None {
            assert(parse_fields(
                reg,
                tid,
                fields,
                (k - 1) as nat,
                data,
                before.pos,
                big,
                args,
                before.env,
                before.out,
            ) == resume(
                reg,
                tid,
                fields,
                k,
                data,
                big,
                args,
                parse_prefix(reg, tid, fields, k, data, pos, big, args),
            ));
        }
    }
}

/// The read of the first `k` fields looks at no field behind them.
pub proof fn lemma_prefix_local(
    reg: Seq<Input>,
    tid: nat,
    fields: Seq<Field>,
    others: Seq<Field>,
    k: nat,
    data: Seq<u8>,
    pos: nat,
    big: bool,
    args: Seq<u64>,
)
    requires
        k <= fields.len(),
        k <= others.len(),
        forall|i: int| 0 <= i < k ==> others[i] == fields[i],
    ensures
        parse_prefix(reg, tid, others, k, data, pos, big, args) == parse_prefix(
            reg,
            tid,
            fields,
            k,
            data,
            pos,
            big,
            args,
        ),
    decreases k,
{
    if k > 0 {
        lemma_prefix_local(reg, tid, fields, others, (k - 1) as nat, data, pos, big, args);
    }
}

/// The assertion of `field` that fails when the field is read from `pos`,
/// if the read gets as far as the field's assertions and one of them fails.
pub open spec fn failing_assertion(
    reg: Seq<Input>,
    tid: nat,
    field: Field,
    data: Seq<u8>,
    pos: nat,
    big: bool,
    args: Seq<u64>,
    env: Seq<u64>,
) -> Option<nat> {
    let d = field.directive;
    if !d.enabled(env, args) {
        None
    } else {
        match advance(pos, d.pad_before, d.align_before) {
            None => None,
            Some(start) => match parse_raw(reg, tid, field, data, start, big, args, env).result {
                Err(_) => None,
                Ok(raw) => match d.map_read(raw, env, args) {
                    None => None,
                    Some(value) => first_failed(d.assertions@, 0, env, args, value.scalar()),
                },
            },
        }
    }
}

/// Where an assertion of field `k` fails, the read of the fields ends in
/// that failure, which names field `k` and carries the assertion's
/// description; and no field behind `k` is processed: with any other fields
/// in their place the read ends the same.
pub proof fn law_assertion_short_circuit(
    reg: Seq<Input>,
    tid: nat,
    fields: Seq<Field>,
    others: Seq<Field>,
    k: nat,
    data: Seq<u8>,
    pos: nat,
    big: bool,
    args: Seq<u64>,
)
    requires
        k < fields.len(),
        k < others.len(),
        k <= usize::MAX,
        forall|i: int| 0 <= i <= k ==> others[i] == fields[i],
        parse_prefix(reg, tid, fields, k, data, pos, big, args).failure is None,
        failing_assertion(
            reg,
            tid,
            fields[k as int],
            data,
            parse_prefix(reg, tid, fields, k, data, pos, big, args).pos,
            big,
            args,
            parse_prefix(reg, tid, fields, k, data, pos, big, args).env,
        ) is Some,
    ensures
        ({
            let at = parse_prefix(reg, tid, fields, k, data, pos, big, args);
            let j = failing_assertion(reg, tid, fields[k as int], data, at.pos, big, args, at.env)->0;
            let whole = parse_fields(
                reg,
                tid,
                fields,
                0,
                data,
                pos,
                big,
                args,
                Seq::empty(),
                Seq::empty(),
            );
            &&& whole.result == Err::<Seq<Datum>, Failure>(
                Failure::AssertionFailed {
                    field: k as usize,
                    description: fields[k as int].directive.assertions@[j as int].description@,
                },
            )
            &&& whole == parse_fields(
                reg,
                tid,
                others,
                0,
                data,
                pos,
                big,
                args,
                Seq::empty(),
                Seq::empty(),
            )
        }),
{
    let at = parse_prefix(reg, tid, fields, k, data, pos, big, args);
    lemma_parse_split(reg, tid, fields, k, data, pos, big, args);
    lemma_parse_split(reg, tid, others, k, data, pos, big, args);
    lemma_prefix_local(reg, tid, fields, others, k, data, pos, big, args);
    let field = fields[k as int];
    let d = field.directive;
    let start = advance(at.pos, d.pad_before, d.align_before)->0;
    let inner = parse_content(reg, tid, field, k as usize, data, start, big, args, at.env);
    let r = parse_field(reg, tid, field, k as usize, data, at.pos, big, args, at.env);
    assert(inner.result is Err);
    assert(r.result == inner.result);
    assert(parse_fields(reg, tid, fields, k, data, at.pos, big, args, at.env, at.out) == failed::<
        Seq<Datum>,
    >(r.pos, r.result->Err_0));
    assert(parse_fields(reg, tid, others, k, data, at.pos, big, args, at.env, at.out) == failed::<
        Seq<Datum>,
    >(r.pos, r.result->Err_0));
}

/// The field as it would be if it were not temporary.
pub open spec fn exposed(field: Field) -> Field {
    Field {
        ty: field.ty,
        directive: Directive {
            endian_override: field.directive.endian_override,
            condition: field.directive.condition,
            temporary: false,
            count_source: field.directive.count_source,
            length_source: field.directive.length_source,
            pad_before: field.directive.pad_before,
            pad_after: field.directive.pad_after,
            align_before: field.directive.align_before,
            align_after: field.directive.align_after,
            restore_position: field.directive.restore_position,
            assertions: field.directive.assertions,
            map_fn: field.directive.map_fn,
            try_map_fn: field.directive.try_map_fn,
            args_expr: field.directive.args_expr,
        },
    }
}

/// The fields as they would be if none of them were temporary.
pub open spec fn all_exposed(fields: Seq<Field>) -> Seq<Field> {
    Seq::new(fields.len(), |i: int| exposed(fields[i]))
}

/// A read never exposes a temporary field, and never drops one from the
/// stream. After the first `upto` fields are read, every one of them has its
/// number in `env`, while `out` holds one value for each that is not
/// temporary and none for the others; and the stream stands where it would
/// stand, with the same numbers read, if none of the fields were temporary.
pub proof fn law_temporary_elision(
    reg: Seq<Input>,
    tid: nat,
    fields: Seq<Field>,
    upto: nat,
    data: Seq<u8>,
    pos: nat,
    big: bool,
    args: Seq<u64>,
)
    requires
        upto <= fields.len(),
    ensures
        ({
            let p = parse_prefix(reg, tid, fields, upto, data, pos, big, args);
            let q = parse_prefix(reg, tid, all_exposed(fields), upto, data, pos, big, args);
            &&& q.pos == p.pos
            &&& q.env == p.env
            &&& q.failure == p.failure
            &&& p.failure is None ==> p.env.len() == upto && q.out.len() == upto && p.out.len()
                == value_count(fields, upto)
        }),
    decreases upto,
{
    if upto > 0 {
        let k = (upto - 1) as nat;
        law_temporary_elision(reg, tid, fields, k, data, pos, big, args);
        let p = parse_prefix(reg, tid, fields, k, data, pos, big, args);
        let field = fields[k as int];
        let other = all_exposed(fields)[k as int];
        assert(other == exposed(field));
        if p.failure is None {
            lemma_exposed(reg, tid, field, k as usize, data, p.pos, big, args, p.env);
        }
    }
}

/// Whether a field is temporary makes no difference to how it is read.
pub proof fn lemma_exposed(
    reg: Seq<Input>,
    tid: nat,
    field: Field,
    k: usize,
    data: Seq<u8>,
    pos: nat,
    big: bool,
    args: Seq<u64>,
    env: Seq<u64>,
)
    ensures
        parse_field(reg, tid, exposed(field), k, data, pos, big, args, env) == parse_field(
            reg,
            tid,
            field,
            k,
            data,
            pos,
            big,
            args,
            env,
        ),
{
    let d = field.directive;
    let e = exposed(field);
    assert(e.directive.enabled(env, args) == d.enabled(env, args));
    assert(e.directive.default_of(e.ty) == d.default_of(field.ty));
    if d.enabled(env, args) {
        match advance(pos, d.pad_before, d.align_before) {
            Some(start) => {
                assert(parse_raw(reg, tid, e, data, start, big, args, env) == parse_raw(
                    reg,
                    tid,
                    field,
                    data,
                    start,
                    big,
                    args,
                    env,
                ));
                let raw = parse_raw(reg, tid, field, data, start, big, args, env);
                if let Ok(v) = raw.result {
                    assert(e.directive.map_read(v, env, args) == d.map_read(v, env, args));
                }
                assert(parse_content(reg, tid, e, k, data, start, big, args, env) == parse_content(
                    reg,
                    tid,
                    field,
                    k,
                    data,
                    start,
                    big,
                    args,
                    env,
                ));
            },
            None => {},
        }
    }
}

/// Among the variants from `from` on, an enum that finds its variant by
/// trying takes the first whose body reads without failure.
pub proof fn lemma_first_match(
    reg: Seq<Input>,
    tid: nat,
    variants: Seq<Variant>,
    from: nat,
    i: nat,
    data: Seq<u8>,
    pos: nat,
    big: bool,
    args: Seq<u64>,
    failures: Seq<Failure>,
)
    requires
        from <= i < variants.len(),
        i <= usize::MAX,
        parse_body(reg, tid, variants[i as int].body, data, pos, big, args).result is Ok,
    ensures
        ({
            let chosen = parse_trial(reg, tid, variants, from, data, pos, big, args, failures);
            &&& chosen.result matches Ok(Datum::Variant(c, out))
            &&& from <= c <= i
            &&& parse_body(reg, tid, variants[c as int].body, data, pos, big, args) == done(
                chosen.pos,
                out,
            )
            &&& forall|m: int|
                from <= m < c ==> (#[trigger] parse_body(
                    reg,
                    tid,
                    variants[m].body,
                    data,
                    pos,
                    big,
                    args,
                )).result is Err
        }),
    decreases i - from,
{
    let r = parse_body(reg, tid, variants[from as int].body, data, pos, big, args);
    if r.result is Err {
        lemma_first_match(
            reg,
            tid,
            variants,
            from + 1,
            i,
            data,
            pos,
            big,
            args,
            failures.push(r.result->Err_0),
        );
    }
}

/// Where the bytes match the plans of two variants, the one that is declared
/// first of the two is never passed over for the other: the variant that is
/// selected is the first of all that match.
pub proof fn law_trial_order(
    reg: Seq<Input>,
    tid: nat,
    variants: Seq<Variant>,
    i: nat,
    j: nat,
    data: Seq<u8>,
    pos: nat,
    big: bool,
    args: Seq<u64>,
)
    requires
        i < j < variants.len(),
        j <= usize::MAX,
        parse_body(reg, tid, variants[i as int].body, data, pos, big, args).result is Ok,
        parse_body(reg, tid, variants[j as int].body, data, pos, big, args).result is Ok,
    ensures
        ({
            let chosen = parse_trial(reg, tid, variants, 0, data, pos, big, args, Seq::empty());
            &&& chosen.result matches Ok(Datum::Variant(c, out))
            &&& c <= i
            &&& c != j
            &&& parse_body(reg, tid, variants[c as int].body, data, pos, big, args) == done(
                chosen.pos,
                out,
            )
            &&& forall|m: int|
                0 <= m < c ==> (#[trigger] parse_body(
                    reg,
                    tid,
                    variants[m].body,
                    data,
                    pos,
                    big,
                    args,
                )).result is Err
        }),
{
    lemma_first_match(reg, tid, variants, 0, i, data, pos, big, args, Seq::empty());
}

/// No read of an item ends before the position that it started from.
pub proof fn lemma_item_forward(
    reg: Seq<Input>,
    tid: nat,
    ty: FieldType,
    data: Seq<u8>,
    pos: nat,
    big: bool,
    args: Seq<u64>,
)
    ensures
        parse_item(reg, tid, ty, data, pos, big, args).pos >= pos,
        ty is Int && parse_item(reg, tid, ty, data, pos, big, args).result is Ok ==> parse_item(
            reg,
            tid,
            ty,
            data,
            pos,
            big,
            args,
        ).pos > pos,
    decreases tid, 0nat, 0nat,
{
    match ty {
        FieldType::Int(t) => {},
        FieldType::Nested(t) => {
            if t < tid {
                lemma_type_forward(reg, t as nat, data, pos, big, args);
            }
        },
    }
}

/// No read of items ends before the position that it started from.
pub proof fn lemma_items_forward(
    reg: Seq<Input>,
    tid: nat,
    ty: FieldType,
    data: Seq<u8>,
    pos: nat,
    big: bool,
    args: Seq<u64>,
    n: nat,
    acc: Seq<Datum>,
)
    ensures
        parse_items(reg, tid, ty, data, pos, big, args, n, acc).pos >= pos,
    decreases tid, 1nat, n,
{
    if n > 0 {
        lemma_item_forward(reg, tid, ty, data, pos, big, args);
        let item = parse_item(reg, tid, ty, data, pos, big, args);
        if let Ok(d) = item.result {
            lemma_items_forward(reg, tid, ty, data, item.pos, big, args, (n - 1) as nat, acc.push(d));
        }
    }
}

/// No read of a field ends before the position that it started from, and
/// the read of an integer that is there ends behind it.
pub proof fn lemma_field_forward(
    reg: Seq<Input>,
    tid: nat,
    field: Field,
    k: usize,
    data: Seq<u8>,
    pos: nat,
    big: bool,
    args: Seq<u64>,
    env: Seq<u64>,
)
    ensures
        parse_field(reg, tid, field, k, data, pos, big, args, env).pos >= pos,
        takes_bytes(field, env, args) && parse_field(
            reg,
            tid,
            field,
            k,
            data,
            pos,
            big,
            args,
            env,
        ).result is Ok ==> parse_field(reg, tid, field, k, data, pos, big, args, env).pos > pos,
    decreases tid, 3nat, 0nat,
{
    let d = field.directive;
    if d.enabled(env, args) {
        lemma_padded(pos, d.pad_before, d.align_before);
        match advance(pos, d.pad_before, d.align_before) {
            Some(start) => {
                let order = crate::endian::Endian::over(d.endian_override, big);
                let inner = crate::expr::eval_all(d.args_expr@, env, args);
                lemma_item_forward(reg, tid, field.ty, data, start, order, inner);
                match d.count(field.ty, env) {
                    Count::Many(n) => {
                        lemma_items_forward(
                            reg,
                            tid,
                            field.ty,
                            data,
                            start,
                            order,
                            inner,
                            n as nat,
                            Seq::empty(),
                        );
                    },
                    _ => {},
                }
                let raw = parse_raw(reg, tid, field, data, start, big, args, env);
                assert(raw.pos >= start);
                lemma_padded(raw.pos, d.pad_after, d.align_after);
                let content = parse_content(reg, tid, field, k, data, start, big, args, env);
                assert(content.pos >= raw.pos);
            },
            None => {},
        }
    }
}

/// Whether a field, where it is read at all, takes at least one byte: it is
/// enabled, it is one integer, and the stream does not go back behind it.
pub open spec fn takes_bytes(field: Field, env: Seq<u64>, args: Seq<u64>) -> bool {
    &&& field.directive.enabled(env, args)
    &&& !field.directive.restore_position
    &&& field.ty is Int
    &&& field.directive.count(field.ty, env) is One
}

/// No read of fields ends before the position that it started from.
pub proof fn lemma_fields_forward(
    reg: Seq<Input>,
    tid: nat,
    fields: Seq<Field>,
    k: nat,
    data: Seq<u8>,
    pos: nat,
    big: bool,
    args: Seq<u64>,
    env: Seq<u64>,
    out: Seq<Datum>,
)
    ensures
        parse_fields(reg, tid, fields, k, data, pos, big, args, env, out).pos >= pos,
    decreases tid, 4nat, fields.len() - k,
{
    if k < fields.len() {
        let field = fields[k as int];
        lemma_field_forward(reg, tid, field, k as usize, data, pos, big, args, env);
        let r = parse_field(reg, tid, field, k as usize, data, pos, big, args, env);
        if let Ok(d) = r.result {
            lemma_fields_forward(
                reg,
                tid,
                fields,
                k + 1,
                data,
                r.pos,
                big,
                args,
                env.push(d.scalar()),
                if field.directive.temporary {
                    out
                } else {
                    out.push(d)
                },
            );
        }
    }
}

/// No read of a body ends before the position that it started from.
pub proof fn lemma_body_forward(
    reg: Seq<Input>,
    tid: nat,
    body: Body,
    data: Seq<u8>,
    pos: nat,
    big: bool,
    args: Seq<u64>,
)
    ensures
        parse_body(reg, tid, body, data, pos, big, args).pos >= pos,
    decreases tid, 5nat, 0nat,
{
    lemma_fields_forward(
        reg,
        tid,
        body.fields@,
        0,
        data,
        pos,
        big,
        args,
        Seq::empty(),
        Seq::empty(),
    );
    lemma_fields_forward(
        reg,
        tid,
        body.fields@,
        0,
        data,
        pos + body.magic@.len(),
        big,
        args,
        Seq::empty(),
        Seq::empty(),
    );
}

/// No trial of variants ends before the position that it started from.
pub proof fn lemma_trial_forward(
    reg: Seq<Input>,
    tid: nat,
    variants: Seq<Variant>,
    i: nat,
    data: Seq<u8>,
    pos: nat,
    big: bool,
    args: Seq<u64>,
    failures: Seq<Failure>,
)
    ensures
        parse_trial(reg, tid, variants, i, data, pos, big, args, failures).pos >= pos,
    decreases tid, 6nat, variants.len() - i,
{
    if i < variants.len() {
        lemma_body_forward(reg, tid, variants[i as int].body, data, pos, big, args);
        let r = parse_body(reg, tid, variants[i as int].body, data, pos, big, args);
        if let Err(f) = r.result {
            lemma_trial_forward(reg, tid, variants, i + 1, data, pos, big, args, failures.push(f));
        }
    }
}

/// No read of a value ends before the position that it started from.
pub proof fn lemma_type_forward(
    reg: Seq<Input>,
    tid: nat,
    data: Seq<u8>,
    pos: nat,
    big: bool,
    args: Seq<u64>,
)
    ensures
        parse_type(reg, tid, data, pos, big, args).pos >= pos,
    decreases tid, 7nat, 0nat,
{
    if tid < reg.len() {
        let input = reg[tid as int];
        let order = crate::endian::Endian::over(input.endian, big);
        match input.shape {
            Shape::Struct(body) => {
                lemma_body_forward(reg, tid, body, data, pos, order, args);
            },
            Shape::Enum(variants) => match input.repr {
                Some(t) => {
                    let tag = parse_int(t, data, pos, order);
                    if let Ok(d) = tag.result {
                        if let Some(i) = crate::read::find_variant(variants@, d.scalar(), 0) {
                            lemma_found(variants@, d.scalar(), 0);
                            lemma_body_forward(
                                reg,
                                tid,
                                variants@[i as int].body,
                                data,
                                tag.pos,
                                order,
                                args,
                            );
                        }
                    }
                    assert(parse_tagged(reg, tid, variants@, t, data, pos, order, args).pos >= pos);
                },
                None => {
                    lemma_trial_forward(reg, tid, variants@, 0, data, pos, order, args, Seq::empty());
                },
            },
        }
    }
}

/// A variant that is found by its tag is one of the variants, declares the
/// tag, and is the first from `from` on that does.
pub proof fn lemma_found(variants: Seq<Variant>, tag: u64, from: nat)
    ensures
        crate::read::find_variant(variants, tag, from) matches Some(i) ==> from <= i
            < variants.len() && variants[i as int].discriminant == Some(tag) && forall|m: int|
            from <= m < i ==> (#[trigger] variants[m]).discriminant != Some(tag),
    decreases variants.len() - from,
{
    if from < variants.len() && variants[from as int].discriminant != Some(tag) {
        lemma_found(variants, tag, from + 1);
    }
}

/// The fields are visited in declaration order and the stream never goes
/// back between them: the position at which a field is reached is not
/// before the position at which any earlier field was reached.
pub proof fn law_field_order(
    reg: Seq<Input>,
    tid: nat,
    fields: Seq<Field>,
    i: nat,
    j: nat,
    data: Seq<u8>,
    pos: nat,
    big: bool,
    args: Seq<u64>,
)
    requires
        i <= j <= fields.len(),
    ensures
        parse_prefix(reg, tid, fields, i, data, pos, big, args).pos <= parse_prefix(
            reg,
            tid,
            fields,
            j,
            data,
            pos,
            big,
            args,
        ).pos,
    decreases j - i,
{
    if i < j {
        law_field_order(reg, tid, fields, i, (j - 1) as nat, data, pos, big, args);
        let before = parse_prefix(reg, tid, fields, (j - 1) as nat, data, pos, big, args);
        if before.failure is None {
            lemma_field_forward(
                reg,
                tid,
                fields[j - 1],
                (j - 1) as usize,
                data,
                before.pos,
                big,
                args,
                before.env,
            );
        }
    }
}

/// Behind a field that holds one integer the stream stands strictly further
/// on: the positions at which such fields are reached are strictly
/// increasing.
pub proof fn law_field_order_strict(
    reg: Seq<Input>,
    tid: nat,
    fields: Seq<Field>,
    k: nat,
    data: Seq<u8>,
    pos: nat,
    big: bool,
    args: Seq<u64>,
)
    requires
        k < fields.len(),
        parse_prefix(reg, tid, fields, k + 1, data, pos, big, args).failure is None,
        takes_bytes(
            fields[k as int],
            parse_prefix(reg, tid, fields, k, data, pos, big, args).env,
            args,
        ),
    ensures
        parse_prefix(reg, tid, fields, k, data, pos, big, args).pos < parse_prefix(
            reg,
            tid,
            fields,
            k + 1,
            data,
            pos,
            big,
            args,
        ).pos,
{
    let before = parse_prefix(reg, tid, fields, k, data, pos, big, args);
    lemma_field_forward(reg, tid, fields[k as int], k as usize, data, before.pos, big, args, before.env);
}

/// A field that goes back to its start leaves the stream where the field
/// started, behind the padding before it, whether its read failed or not.
pub proof fn law_restore_position(
    reg: Seq<Input>,
    tid: nat,
    field: Field,
    k: usize,
    data: Seq<u8>,
    pos: nat,
    big: bool,
    args: Seq<u64>,
    env: Seq<u64>,
)
    requires
        field.directive.restore_position,
        field.directive.enabled(env, args),
        advance(pos, field.directive.pad_before, field.directive.align_before) is Some,
    ensures
        parse_field(reg, tid, field, k, data, pos, big, args, env).pos == advance(
            pos,
            field.directive.pad_before,
            field.directive.align_before,
        )->0,
        parse_field(reg, tid, field, k, data, pos, big, args, env).result == parse_content(
            reg,
            tid,
            field,
            k,
            data,
            advance(pos, field.directive.pad_before, field.directive.align_before)->0,
            big,
            args,
            env,
        ).result,
{
}

/// Where every variant of an enum that finds its variant by trying fails,
/// the read fails with one failure for each variant, in declaration order,
/// and the stream stays where it was.
pub proof fn law_trial_exhausted(
    reg: Seq<Input>,
    tid: nat,
    variants: Seq<Variant>,
    from: nat,
    data: Seq<u8>,
    pos: nat,
    big: bool,
    args: Seq<u64>,
    failures: Seq<Failure>,
)
    requires
        from <= variants.len(),
        forall|m: int|
            from <= m < variants.len() ==> (#[trigger] parse_body(
                reg,
                tid,
                variants[m].body,
                data,
                pos,
                big,
                args,
            )).result is Err,
    ensures
        ({
            let tried = parse_trial(reg, tid, variants, from, data, pos, big, args, failures);
            &&& tried.pos == pos
            &&& tried.result matches Err(Failure::NoVariantMatched { failures: all })
            &&& all.len() == failures.len() + variants.len() - from
            &&& forall|m: int|
                from <= m < variants.len() ==> all[failures.len() + m - from] == (#[trigger] parse_body(
                    reg,
                    tid,
                    variants[m].body,
                    data,
                    pos,
                    big,
                    args,
                )).result->Err_0
            &&& forall|m: int| 0 <= m < failures.len() ==> all[m] == failures[m]
        }),
    decreases variants.len() - from,
{
    if from < variants.len() {
        let r = parse_body(reg, tid, variants[from as int].body, data, pos, big, args);
        assert(r.result is Err);
        law_trial_exhausted(
            reg,
            tid,
            variants,
            from + 1,
            data,
            pos,
            big,
            args,
            failures.push(r.result->Err_0),
        );
    }
}

} // verus!
