//! What holds of every plan that the schema extractor gives: nothing in it
//! refers forward.

use crate::definition::{Attribute, Data, Definition, FieldDef, Meta, RawExpr};
use crate::directive::FieldType;
use crate::expr::Expr;
use crate::parser::{
    apply_attrs, apply_field, apply_metas, apply_predicate, arg_named, bare, container_attrs, extract, extract_field, extract_fields, extract_variant, extract_variants, field_named, keyword, listed,
    resolve, resolve_all, Keyword,
};
use crate::plan::{blank, position_of, BodyModel, DirectiveModel, FieldModel, Input, ShapeModel, VariantModel};
use vstd::prelude::*;

verus! {

/// Whether `expr` speaks only of fields before field `k` and of the first
/// `args` arguments, and of the field itself only where `this` allows it.
pub open spec fn looks_back(expr: Expr, k: nat, args: nat, this: bool) -> bool
    decreases expr,
{
    match expr {
        Expr::Lit(_) => true,
        Expr::Field(i) => i < k,
        Expr::Arg(j) => j < args,
        Expr::This => this,
        Expr::Not(inner) => looks_back(*inner, k, args, this),
        Expr::Binary(_, l, r) => looks_back(*l, k, args, this) && looks_back(*r, k, args, this),
    }
}

/// Whether the directives of field `k` refer to nothing but fields that are
/// declared before it and arguments that the definition declares.
pub open spec fn backward(d: DirectiveModel, k: nat, args: nat) -> bool {
    &&& d.condition matches Some(c) ==> looks_back(c, k, args, false)
    &&& d.count_source matches Some(i) ==> i < k
    &&& d.length_source matches Some(i) ==> i < k
    &&& forall|j: int|
        0 <= j < d.assertions.len() ==> looks_back((#[trigger] d.assertions[j]).predicate, k, args, true)
    &&& d.map_fn matches Some(m) ==> looks_back(m.decode, k, args, true) && looks_back(
        m.encode,
        k,
        args,
        true,
    )
    &&& d.try_map_fn matches Some(m) ==> looks_back(m.decode, k, args, true) && looks_back(
        m.encode,
        k,
        args,
        true,
    )
    &&& forall|j: int| 0 <= j < d.args_expr.len() ==> looks_back(#[trigger] d.args_expr[j], k, args, false)
}

/// Whether field `k` refers to nothing but what is declared before it, in
/// its definition or, for the type that it nests, in the registry.
pub open spec fn field_backward(field: FieldModel, k: nat, args: nat, plans: nat) -> bool {
    &&& backward(field.directive, k, args)
    &&& field.ty matches FieldType::Nested(t) ==> t < plans
}

/// Whether every field of a body refers to nothing but what is declared
/// before it.
pub open spec fn body_backward(body: BodyModel, args: nat, plans: nat) -> bool {
    forall|k: int|
        0 <= k < body.fields.len() ==> field_backward(#[trigger] body.fields[k], k as nat, args, plans)
}

/// A field that is found by its name stands before the bound.
pub proof fn lemma_field_named(fields: Seq<FieldDef>, upto: nat, name: Seq<char>, from: nat)
    requires
        upto <= usize::MAX,
    ensures
        field_named(fields, upto, name, from) matches Some(i) ==> from <= i < upto,
    decreases upto - from,
{
    if from < upto && from < fields.len() {
        lemma_field_named(fields, upto, name, from + 1);
    }
}

/// An argument that is found by its name is one of the arguments.
pub proof fn lemma_arg_named(imports: Seq<String>, name: Seq<char>, from: nat)
    requires
        imports.len() <= usize::MAX,
    ensures
        arg_named(imports, name, from) matches Some(j) ==> from <= j < imports.len(),
    decreases imports.len() - from,
{
    if from < imports.len() {
        lemma_arg_named(imports, name, from + 1);
    }
}

/// A plan that is found by its name is one of the plans.
pub proof fn lemma_position(inputs: Seq<Input>, name: Seq<char>, from: nat)
    requires
        inputs.len() <= usize::MAX,
    ensures
        position_of(inputs, name, from) matches Some(i) ==> from <= i < inputs.len(),
    decreases inputs.len() - from,
{
    if from < inputs.len() {
        lemma_position(inputs, name, from + 1);
    }
}

/// An expression whose names were looked up looks back.
pub proof fn lemma_resolve(
    raw: RawExpr,
    fields: Seq<FieldDef>,
    upto: nat,
    imports: Seq<String>,
    this: bool,
)
    requires
        upto <= usize::MAX,
        imports.len() <= usize::MAX,
    ensures
        resolve(raw, fields, upto, imports, this) matches Some(e) ==> looks_back(
            e,
            upto,
            imports.len(),
            this,
        ),
    decreases raw,
{
    match raw {
        RawExpr::Name(s) => {
            lemma_field_named(fields, upto, s@, 0);
            lemma_arg_named(imports, s@, 0);
        },
        RawExpr::Not(inner) => {
            lemma_resolve(*inner, fields, upto, imports, this);
        },
        RawExpr::Binary(op, l, r) => {
            lemma_resolve(*l, fields, upto, imports, this);
            lemma_resolve(*r, fields, upto, imports, this);
        },
        _ => {},
    }
}

/// Expressions whose names were looked up look back.
pub proof fn lemma_resolve_all(
    raws: Seq<RawExpr>,
    from: nat,
    acc: Seq<Expr>,
    fields: Seq<FieldDef>,
    upto: nat,
    imports: Seq<String>,
)
    requires
        upto <= usize::MAX,
        imports.len() <= usize::MAX,
        forall|j: int| 0 <= j < acc.len() ==> looks_back(#[trigger] acc[j], upto, imports.len(), false),
    ensures
        resolve_all(raws, from, acc, fields, upto, imports) matches Some(es) ==> forall|j: int|
            0 <= j < es.len() ==> looks_back(#[trigger] es[j], upto, imports.len(), false),
    decreases raws.len() - from,
{
    if from < raws.len() {
        lemma_resolve(raws[from as int], fields, upto, imports, false);
        if let Some(e) = resolve(raws[from as int], fields, upto, imports, false) {
            lemma_resolve_all(raws, from + 1, acc.push(e), fields, upto, imports);
        }
    }
}

/// A directive keeps the directives of a field looking back.
pub proof fn lemma_apply_field(
    d: DirectiveModel,
    meta: Meta,
    k: usize,
    fields: Seq<FieldDef>,
    imports: Seq<String>,
)
    requires
        imports.len() <= usize::MAX,
        backward(d, k as nat, imports.len()),
    ensures
        apply_field(d, meta, k, fields, imports) matches Ok(next) ==> backward(
            next,
            k as nat,
            imports.len(),
        ),
{
    let n = imports.len();
    match keyword(meta.name@) {
        Some(word) => match word {
            Keyword::Count | Keyword::Length => {
                if let Some(name) = crate::parser::one_name(meta.values@) {
                    lemma_field_named(fields, k as nat, name@, 0);
                }
            },
            Keyword::If | Keyword::Check => {
                if meta.values@.len() == 1 {
                    lemma_resolve(meta.values@[0], fields, k as nat, imports, word == Keyword::Check);
                    if let Ok(next) = apply_predicate(d, word, meta, k, fields, imports) {
                        assert forall|j: int| 0 <= j < next.assertions.len() implies looks_back(
                            (#[trigger] next.assertions[j]).predicate,
                            k as nat,
                            n,
                            true,
                        ) by {
                            if j < d.assertions.len() {
                                assert(next.assertions[j] == d.assertions[j]);
                            }
                        }
                    }
                }
            },
            Keyword::Transform | Keyword::TryTransform => {
                if meta.values@.len() == 2 {
                    lemma_resolve(meta.values@[0], fields, k as nat, imports, true);
                    lemma_resolve(meta.values@[1], fields, k as nat, imports, true);
                }
            },
            Keyword::Args => {
                lemma_resolve_all(meta.values@, 0, Seq::empty(), fields, k as nat, imports);
            },
            _ => {},
        },
        None => {},
    }
}

/// Directives keep the directives of a field looking back.
pub proof fn lemma_apply_metas(
    d: DirectiveModel,
    metas: Seq<Meta>,
    from: nat,
    k: usize,
    fields: Seq<FieldDef>,
    imports: Seq<String>,
)
    requires
        imports.len() <= usize::MAX,
        backward(d, k as nat, imports.len()),
    ensures
        apply_metas(d, metas, from, k, fields, imports) matches Ok(next) ==> backward(
            next,
            k as nat,
            imports.len(),
        ),
    decreases metas.len() - from,
{
    if from < metas.len() {
        lemma_apply_field(d, metas[from as int], k, fields, imports);
        if let Ok(next) = apply_field(d, metas[from as int], k, fields, imports) {
            lemma_apply_metas(next, metas, from + 1, k, fields, imports);
        }
    }
}

/// Attributes keep the directives of a field looking back.
pub proof fn lemma_apply_attrs(
    d: DirectiveModel,
    attrs: Seq<Attribute>,
    from: nat,
    k: usize,
    fields: Seq<FieldDef>,
    imports: Seq<String>,
)
    requires
        imports.len() <= usize::MAX,
        backward(d, k as nat, imports.len()),
    ensures
        apply_attrs(d, attrs, from, k, fields, imports) matches Ok(next) ==> backward(
            next,
            k as nat,
            imports.len(),
        ),
    decreases attrs.len() - from,
{
    if from < attrs.len() {
        if crate::definition::codec_attr(attrs[from as int]) {
            lemma_apply_metas(d, attrs[from as int].metas@, 0, k, fields, imports);
            if let Ok(next) = apply_metas(d, attrs[from as int].metas@, 0, k, fields, imports) {
                lemma_apply_attrs(next, attrs, from + 1, k, fields, imports);
            }
        } else {
            lemma_apply_attrs(d, attrs, from + 1, k, fields, imports);
        }
    }
}

/// The plan of a field refers to nothing but what is declared before the
/// field.
pub proof fn lemma_extract_field(fields: Seq<FieldDef>, k: nat, imports: Seq<String>, reg: Seq<Input>)
    requires
        k <= usize::MAX,
        imports.len() <= usize::MAX,
        reg.len() <= usize::MAX,
    ensures
        extract_field(fields, k, imports, reg) matches Ok(f) ==> field_backward(
            f,
            k,
            imports.len(),
            reg.len(),
        ),
{
    lemma_position(reg, fields[k as int].ty@, 0);
    lemma_apply_attrs(blank(), fields[k as int].attrs@, 0, k as usize, fields, imports);
}

/// The plans of fields refer to nothing but what is declared before them.
pub proof fn lemma_extract_fields(
    fields: Seq<FieldDef>,
    k: nat,
    acc: Seq<FieldModel>,
    imports: Seq<String>,
    reg: Seq<Input>,
)
    requires
        fields.len() <= usize::MAX,
        imports.len() <= usize::MAX,
        reg.len() <= usize::MAX,
        acc.len() == k,
        forall|j: int|
            0 <= j < acc.len() ==> field_backward(#[trigger] acc[j], j as nat, imports.len(), reg.len()),
    ensures
        extract_fields(fields, k, acc, imports, reg) matches Ok(fs) ==> forall|j: int|
            0 <= j < fs.len() ==> field_backward(#[trigger] fs[j], j as nat, imports.len(), reg.len()),
    decreases fields.len() - k,
{
    if k < fields.len() {
        lemma_extract_field(fields, k, imports, reg);
        if let Ok(f) = extract_field(fields, k, imports, reg) {
            lemma_extract_fields(fields, k + 1, acc.push(f), imports, reg);
        }
    }
}

/// The plans of variants refer to nothing but what is declared before.
pub proof fn lemma_extract_variants(
    variants: Seq<crate::definition::VariantDef>,
    from: nat,
    acc: Seq<VariantModel>,
    tagged: bool,
    imports: Seq<String>,
    reg: Seq<Input>,
)
    requires
        imports.len() <= usize::MAX,
        reg.len() <= usize::MAX,
        forall|i: int| 0 <= i < variants.len() ==> listed(#[trigger] variants[i].fields).len() <= usize::MAX,
        forall|i: int| 0 <= i < acc.len() ==> body_backward((#[trigger] acc[i]).body, imports.len(), reg.len()),
    ensures
        extract_variants(variants, from, acc, tagged, imports, reg) matches Ok(vs) ==> forall|i: int|
            0 <= i < vs.len() ==> body_backward((#[trigger] vs[i]).body, imports.len(), reg.len()),
    decreases variants.len() - from,
{
    if from < variants.len() {
        let variant = variants[from as int];
        assert(listed(variant.fields).len() <= usize::MAX);
        lemma_extract_fields(listed(variant.fields), 0, Seq::empty(), imports, reg);
        if let Ok(v) = extract_variant(variant, tagged, imports, reg) {
            lemma_extract_variants(variants, from + 1, acc.push(v), tagged, imports, reg);
        }
    }
}

/// Names are imported from as many values as there are.
pub proof fn lemma_import_names(values: Seq<RawExpr>, from: nat, acc: Seq<String>)
    requires
        from <= values.len(),
    ensures
        crate::parser::import_names(values, from, acc) matches Some(names) ==> names.len() == acc.len()
            + values.len() - from,
    decreases values.len() - from,
{
    if from < values.len() {
        if let RawExpr::Name(s) = values[from as int] {
            lemma_import_names(values, from + 1, acc.push(s));
        }
    }
}

/// No attribute declares more arguments than the machine can count.
pub proof fn lemma_container_metas(c: crate::parser::ContainerModel, metas: Seq<Meta>, from: nat)
    requires
        c.imports.len() <= usize::MAX,
    ensures
        crate::parser::container_metas(c, metas, from) matches Ok(next) ==> next.imports.len()
            <= usize::MAX,
    decreases metas.len() - from,
{
    if from < metas.len() {
        let meta = metas[from as int];
        lemma_import_names(meta.values@, 0, Seq::empty());
        vstd::std_specs::vec::axiom_spec_len(&meta.values);
        if let Ok(next) = crate::parser::apply_container(c, meta) {
            lemma_container_metas(next, metas, from + 1);
        }
    }
}

/// No definition declares more arguments than the machine can count.
pub proof fn lemma_container_attrs(c: crate::parser::ContainerModel, attrs: Seq<Attribute>, from: nat)
    requires
        c.imports.len() <= usize::MAX,
    ensures
        container_attrs(c, attrs, from) matches Ok(next) ==> next.imports.len() <= usize::MAX,
    decreases attrs.len() - from,
{
    if from < attrs.len() {
        if crate::definition::codec_attr(attrs[from as int]) {
            lemma_container_metas(c, attrs[from as int].metas@, 0);
            if let Ok(next) = crate::parser::container_metas(c, attrs[from as int].metas@, 0) {
                lemma_container_attrs(next, attrs, from + 1);
            }
        } else {
            lemma_container_attrs(c, attrs, from + 1);
        }
    }
}

/// How many arguments a definition declares.
pub open spec fn declared_args(definition: Definition) -> nat {
    match container_attrs(bare(), definition.attrs@, 0) {
        Ok(c) => c.imports.len(),
        Err(_) => 0,
    }
}

/// No plan refers forward. In the plan of a definition every condition,
/// count, length, assertion, transform and argument of a field speaks only
/// of fields that are declared before that field and of arguments that the
/// definition declares, and every type that a field nests is a plan that the
/// registry holds already.
pub proof fn law_no_forward_references(definition: Definition, reg: Seq<Input>)
    requires
        reg.len() <= usize::MAX,
        extract(definition, reg) is Ok,
    ensures
        match extract(definition, reg)->Ok_0.shape {
            ShapeModel::Struct(body) => body_backward(body, declared_args(definition), reg.len()),
            ShapeModel::Enum(variants) => forall|i: int|
                0 <= i < variants.len() ==> body_backward(
                    (#[trigger] variants[i]).body,
                    declared_args(definition),
                    reg.len(),
                ),
        },
{
    let c = container_attrs(bare(), definition.attrs@, 0)->Ok_0;
    lemma_container_attrs(bare(), definition.attrs@, 0);
    match definition.data {
        Data::Struct(fields) => {
            lemma_listed(fields);
            lemma_extract_fields(listed(fields), 0, Seq::empty(), c.imports, reg);
        },
        Data::Enum(variants) => {
            assert forall|i: int| 0 <= i < variants@.len() implies listed(
                #[trigger] variants@[i].fields,
            ).len() <= usize::MAX by {
                lemma_listed(variants@[i].fields);
            }
            lemma_extract_variants(variants@, 0, Seq::empty(), c.repr is Some, c.imports, reg);
        },
        Data::Union(_) => {},
    }
}

/// A definition lists no more fields than the machine can count.
pub proof fn lemma_listed(fields: crate::definition::Fields)
    ensures
        listed(fields).len() <= usize::MAX,
{
    match fields {
        crate::definition::Fields::Named(list) => {
            vstd::std_specs::vec::axiom_spec_len(&list);
        },
        crate::definition::Fields::Unnamed(list) => {
            vstd::std_specs::vec::axiom_spec_len(&list);
        },
        crate::definition::Fields::Unit => {},
    }
}

} // verus!
