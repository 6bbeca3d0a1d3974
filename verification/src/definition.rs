//! A data-structure definition as it is written down: its shape, and the
//! attributes that stand on it, on its fields and on its variants.

use crate::expr::BinOp;
use crate::plan::Input;
use vstd::prelude::*;

verus! {

/// An expression of a directive as it is written: names are not yet looked
/// up.
#[derive(Debug, PartialEq, Eq)]
pub enum RawExpr {
    /// A literal.
    Lit(u64),
    /// The name of a field or of an argument.
    Name(String),
    /// The value of the field that the directive stands on.
    This,
    /// 1 where the operand is 0, else 0.
    Not(Box<RawExpr>),
    /// A binary operation.
    Binary(BinOp, Box<RawExpr>, Box<RawExpr>),
}

/// One directive as it is written: its name, its values, and its text.
#[derive(Debug, PartialEq, Eq)]
pub struct Meta {
    pub name: String,
    pub values: Vec<RawExpr>,
    /// The directive as the author wrote it; an assertion is described by
    /// it when it fails.
    pub text: String,
}

/// An attribute: the path that it is written under, and its directives.
#[derive(Debug, PartialEq, Eq)]
pub struct Attribute {
    pub path: String,
    pub metas: Vec<Meta>,
}

/// A field of a definition.
#[derive(Debug, PartialEq, Eq)]
pub struct FieldDef {
    /// The field's visibility, as it is written.
    pub vis: String,
    /// The field's name; none for a positional field.
    pub ident: Option<String>,
    /// The name of the field's type.
    pub ty: String,
    pub attrs: Vec<Attribute>,
}

/// The fields of a struct or of a variant.
#[derive(Debug, PartialEq, Eq)]
pub enum Fields {
    Named(Vec<FieldDef>),
    Unnamed(Vec<FieldDef>),
    Unit,
}

/// A variant of an enum.
#[derive(Debug, PartialEq, Eq)]
pub struct VariantDef {
    pub ident: String,
    pub attrs: Vec<Attribute>,
    pub fields: Fields,
    /// The tag that the variant is given in the definition.
    pub discriminant: Option<u64>,
}

/// The shape of a definition.
#[derive(Debug, PartialEq, Eq)]
pub enum Data {
    Struct(Fields),
    Enum(Vec<VariantDef>),
    Union(Vec<FieldDef>),
}

/// A data-structure definition.
#[derive(Debug, PartialEq, Eq)]
pub struct Definition {
    pub ident: String,
    pub attrs: Vec<Attribute>,
    pub data: Data,
}

/// Whether an attribute is one of the codec's own: it is written under `br`
/// or under `binread`.
pub open spec fn codec_attr(attr: Attribute) -> bool {
    attr.path@ == "br"@ || attr.path@ == "binread"@
}

/// Whether an attribute is one of the codec's own.
pub fn is_binread_attr(attr: &Attribute) -> (yes: bool)
    ensures
        yes == codec_attr(*attr),
{
    let short = "br".to_owned();
    let long = "binread".to_owned();
    attr.path == short || attr.path == long
}

/// The attributes that are not the codec's own, in their order.
pub open spec fn kept(attrs: Seq<Attribute>) -> Seq<Attribute>
    decreases attrs.len(),
{
    if attrs.len() == 0 {
        Seq::empty()
    } else if codec_attr(attrs.last()) {
        kept(attrs.drop_last())
    } else {
        kept(attrs.drop_last()).push(attrs.last())
    }
}

/// What is kept is no longer than what there was, and holds none of the
/// codec's attributes.
pub proof fn lemma_kept(attrs: Seq<Attribute>)
    ensures
        kept(attrs).len() <= attrs.len(),
        forall|i: int| 0 <= i < kept(attrs).len() ==> !codec_attr(#[trigger] kept(attrs)[i]),
    decreases attrs.len(),
{
    if attrs.len() > 0 {
        lemma_kept(attrs.drop_last());
    }
}

/// Takes the codec's own attributes out of `attrs` and leaves the others in
/// their order.
pub fn clean_struct_attrs(attrs: &mut Vec<Attribute>)
    ensures
        final(attrs)@ == kept(old(attrs)@),
        final(attrs)@.len() <= old(attrs)@.len(),
        forall|i: int| 0 <= i < final(attrs)@.len() ==> !codec_attr(#[trigger] final(attrs)@[i]),
{
    let ghost before = attrs@;
    let ghost mut seen: nat = 0;
    let mut i: usize = 0;
    proof {
        assert(before.take(0) =~= Seq::<Attribute>::empty());
        assert(before.skip(0) =~= before);
    }
    while i < attrs.len()
        invariant
            before == old(attrs)@,
            seen <= before.len(),
            i == kept(before.take(seen as int)).len(),
            attrs@ == kept(before.take(seen as int)) + before.skip(seen as int),
        decreases before.len() - seen,
    {
        proof {
            let done = before.take(seen as int);
            let more = before.take(seen as int + 1);
            assert(more.drop_last() =~= done);
            assert(more.last() == before[seen as int]);
            assert(attrs@[i as int] == before[seen as int]);
            assert(before.skip(seen as int).skip(1) =~= before.skip(seen as int + 1));
        }
        if is_binread_attr(&attrs[i]) {
            attrs.remove(i);
            proof {
                assert(attrs@ =~= kept(before.take(seen as int + 1)) + before.skip(seen as int + 1));
            }
        } else {
            proof {
                assert(attrs@ =~= kept(before.take(seen as int + 1)) + before.skip(seen as int + 1));
            }
            i = i + 1;
        }
        proof {
            seen = seen + 1;
        }
    }
    proof {
        assert(before.take(before.len() as int) =~= before);
        assert(attrs@ =~= kept(before));
        lemma_kept(before);
    }
}

/// What a field is made of, with its attributes as a sequence.
pub struct FieldShape {
    pub vis: String,
    pub ident: Option<String>,
    pub ty: String,
    pub attrs: Seq<Attribute>,
}

impl FieldDef {
    /// What the field is made of.
    pub open spec fn shape(self) -> FieldShape {
        FieldShape { vis: self.vis, ident: self.ident, ty: self.ty, attrs: self.attrs@ }
    }
}

/// What each of `fields` is made of.
pub open spec fn shapes(fields: Seq<FieldDef>) -> Seq<FieldShape> {
    Seq::new(fields.len(), |i: int| fields[i].shape())
}

/// The first `upto` fields as the value has them: the temporary ones of the
/// body that `variant_index` picks in `input` are gone, and the others have
/// lost the codec's attributes.
pub open spec fn cleaned(
    input: Input,
    variant_index: usize,
    fields: Seq<FieldShape>,
    upto: nat,
) -> Seq<FieldShape>
    decreases upto,
{
    if upto == 0 || upto > fields.len() {
        Seq::empty()
    } else {
        let before = cleaned(input, variant_index, fields, (upto - 1) as nat);
        let field = fields[upto - 1];
        if input.temp_field(variant_index, (upto - 1) as usize) {
            before
        } else {
            before.push(
                FieldShape {
                    vis: field.vis,
                    ident: field.ident,
                    ty: field.ty,
                    attrs: kept(field.attrs),
                },
            )
        }
    }
}

/// The fields as the value has them, if there is a plan to go by; else the
/// fields as they are.
pub open spec fn value_fields(plan: Option<Input>, variant_index: usize, fields: Seq<FieldDef>) -> Seq<
    FieldShape,
> {
    match plan {
        Some(input) => cleaned(input, variant_index, shapes(fields), fields.len()),
        None => shapes(fields),
    }
}

/// Whether `after` is `before` as the value has it.
pub open spec fn cleaned_fields(
    plan: Option<Input>,
    variant_index: usize,
    before: Fields,
    after: Fields,
) -> bool {
    match before {
        Fields::Named(fields) => after matches Fields::Named(rest) && shapes(rest@) == value_fields(
            plan,
            variant_index,
            fields@,
        ),
        Fields::Unnamed(fields) => after matches Fields::Unnamed(rest) && shapes(rest@)
            == value_fields(plan, variant_index, fields@),
        Fields::Unit => after is Unit,
    }
}

/// Takes the temporary fields out of a list of fields, and the codec's
/// attributes off the others.
fn clean_field_list(input: &Input, variant_index: usize, fields: &mut Vec<FieldDef>)
    ensures
        shapes(final(fields)@) == cleaned(
            *input,
            variant_index,
            shapes(old(fields)@),
            old(fields)@.len(),
        ),
{
    let ghost before = shapes(fields@);
    let ghost mut seen: nat = 0;
    let mut index: usize = 0;
    let mut i: usize = 0;
    let total: usize = fields.len();
    while index < total
        invariant
            before == shapes(old(fields)@),
            total == before.len(),
            index == seen,
            seen <= before.len(),
            i <= index,
            fields@.len() == i + (before.len() - seen),
            shapes(fields@).take(i as int) == cleaned(*input, variant_index, before, seen),
            shapes(fields@).skip(i as int) == before.skip(seen as int),
        decreases total - index,
    {
        proof {
            assert(shapes(fields@)[i as int] == shapes(fields@).skip(i as int)[0]);
            assert(fields@[i as int].shape() == before[seen as int]);
        }
        let ghost prior = fields@;
        if input.is_temp_field(variant_index, index) {
            fields.remove(i);
            proof {
                assert(shapes(fields@).take(i as int) =~= shapes(prior).take(i as int));
                assert(shapes(fields@).skip(i as int) =~= shapes(prior).skip(i as int).skip(1));
                assert(before.skip(seen as int).skip(1) =~= before.skip(seen as int + 1));
            }
        } else {
            let mut field = fields.remove(i);
            clean_struct_attrs(&mut field.attrs);
            let ghost changed = field.shape();
            fields.insert(i, field);
            proof {
                assert(changed == FieldShape {
                    vis: before[seen as int].vis,
                    ident: before[seen as int].ident,
                    ty: before[seen as int].ty,
                    attrs: kept(before[seen as int].attrs),
                });
                assert(shapes(fields@).take(i + 1) =~= shapes(prior).take(i as int).push(changed));
                assert(shapes(fields@).skip(i + 1) =~= shapes(prior).skip(i as int).skip(1));
                assert(before.skip(seen as int).skip(1) =~= before.skip(seen as int + 1));
            }
            i = i + 1;
        }
        index = index + 1;
        proof {
            seen = seen + 1;
        }
    }
    proof {
        assert(shapes(fields@).take(i as int) =~= shapes(fields@));
    }
}

/// Brings the fields of a struct, or of variant `variant_index` of an enum,
/// into the shape that the value has: the fields that the plan marks as
/// temporary are taken out, and the codec's attributes are taken off the
/// others. Without a plan the fields stay as they are.
pub fn clean_field_attrs(binread_input: &Option<Input>, variant_index: usize, fields: &mut Fields)
    ensures
        binread_input is Some ==> cleaned_fields(
            *binread_input,
            variant_index,
            *old(fields),
            *final(fields),
        ),
        binread_input is None ==> *final(fields) == *old(fields),
{
    if let Some(input) = binread_input {
        let mut taken = Fields::Unit;
        std::mem::swap(fields, &mut taken);
        match taken {
            Fields::Named(mut list) => {
                clean_field_list(input, variant_index, &mut list);
                *fields = Fields::Named(list);
            },
            Fields::Unnamed(mut list) => {
                clean_field_list(input, variant_index, &mut list);
                *fields = Fields::Unnamed(list);
            },
            Fields::Unit => {},
        }
    }
}

} // verus!
