//! Deriving a codec for a definition: the plan that reads and writes it, and
//! the definition as the value has it.

use crate::definition::{
    clean_field_attrs, clean_struct_attrs, cleaned_fields, kept, Data, Definition, FieldDef, Fields,
    VariantDef,
};
use crate::error::{Error, ParseResult};
use crate::parser::{extract, planned};
use crate::plan::{Input, Registry};
use vstd::prelude::*;

verus! {

/// What deriving a definition gives.
#[derive(Debug, PartialEq, Eq)]
pub struct Expansion {
    /// The definition as the value has it: without the codec's attributes
    /// and, where there is a plan, without the temporary fields.
    pub definition: Definition,
    /// The plan by which values of the definition are read and written, or
    /// the reason why there is none.
    pub plan: ParseResult<Input>,
}

/// The plan, if there is one.
pub open spec fn plan_of(result: Result<Input, Error>) -> Option<Input> {
    match result {
        Ok(input) => Some(input),
        Err(_) => None,
    }
}

/// Whether `after` is the fields `before` as the value has them under
/// `plan`; without a plan they are the same.
pub open spec fn fields_shown(plan: Option<Input>, index: usize, before: Fields, after: Fields) -> bool {
    match plan {
        Some(_) => cleaned_fields(plan, index, before, after),
        None => after == before,
    }
}

/// Whether `after` is variant `index` as the value has it.
pub open spec fn variant_shown(
    plan: Option<Input>,
    index: usize,
    before: VariantDef,
    after: VariantDef,
) -> bool {
    &&& after.ident == before.ident
    &&& after.discriminant == before.discriminant
    &&& after.attrs@ == kept(before.attrs@)
    &&& fields_shown(plan, index, before.fields, after.fields)
}

/// Whether `after` is the field `before` of a union without the codec's
/// attributes.
pub open spec fn member_shown(before: FieldDef, after: FieldDef) -> bool {
    &&& after.vis == before.vis
    &&& after.ident == before.ident
    &&& after.ty == before.ty
    &&& after.attrs@ == kept(before.attrs@)
}

/// Whether `after` is the definition `before` as the value has it under
/// `plan`: its name is the same, the codec's attributes are gone from the
/// definition, from its variants and from its fields, and the temporary
/// fields are gone where there is a plan.
pub open spec fn shown(plan: Option<Input>, before: Definition, after: Definition) -> bool {
    &&& after.ident == before.ident
    &&& after.attrs@ == kept(before.attrs@)
    &&& match before.data {
        Data::Struct(fields) => after.data matches Data::Struct(rest) && fields_shown(
            plan,
            0,
            fields,
            rest,
        ),
        Data::Enum(variants) => after.data matches Data::Enum(rest) && rest@.len()
            == variants@.len() && forall|i: int|
            0 <= i < variants@.len() ==> variant_shown(
                plan,
                i as usize,
                variants@[i],
                #[trigger] rest@[i],
            ),
        Data::Union(members) => after.data matches Data::Union(rest) && rest@.len()
            == members@.len() && forall|i: int|
            0 <= i < members@.len() ==> member_shown(members@[i], #[trigger] rest@[i]),
    }
}

/// Compiles a definition into its plan.
pub fn derive_from_input(derive_input: &Definition, registry: &Registry) -> (result: ParseResult<Input>)
    ensures
        planned(extract(*derive_input, registry.inputs@), result),
{
    Input::from_input(derive_input, registry)
}

fn clean_variants(plan: &Option<Input>, variants: Vec<VariantDef>) -> (rest: Vec<VariantDef>)
    ensures
        rest@.len() == variants@.len(),
        forall|i: int|
            0 <= i < variants@.len() ==> variant_shown(
                *plan,
                i as usize,
                variants@[i],
                #[trigger] rest@[i],
            ),
{
    let mut rest = variants;
    let mut index: usize = 0;
    while index < rest.len()
        invariant
            rest@.len() == variants@.len(),
            index <= rest@.len(),
            forall|i: int|
                0 <= i < index ==> variant_shown(
                    *plan,
                    i as usize,
                    variants@[i],
                    #[trigger] rest@[i],
                ),
            forall|i: int| index <= i < rest@.len() ==> (#[trigger] rest@[i]) == variants@[i],
        decreases rest@.len() - index,
    {
        let mut variant = rest.remove(index);
        clean_struct_attrs(&mut variant.attrs);
        clean_field_attrs(plan, index, &mut variant.fields);
        rest.insert(index, variant);
        index = index + 1;
    }
    rest
}

fn clean_members(members: Vec<FieldDef>) -> (rest: Vec<FieldDef>)
    ensures
        rest@.len() == members@.len(),
        forall|i: int| 0 <= i < members@.len() ==> member_shown(members@[i], #[trigger] rest@[i]),
{
    let mut rest = members;
    let mut index: usize = 0;
    while index < rest.len()
        invariant
            rest@.len() == members@.len(),
            index <= rest@.len(),
            forall|i: int| 0 <= i < index ==> member_shown(members@[i], #[trigger] rest@[i]),
            forall|i: int| index <= i < rest@.len() ==> (#[trigger] rest@[i]) == members@[i],
        decreases rest@.len() - index,
    {
        let mut member = rest.remove(index);
        clean_struct_attrs(&mut member.attrs);
        rest.insert(index, member);
        index = index + 1;
    }
    rest
}

/// Derives a codec for a definition: compiles its plan, and brings the
/// definition into the shape that the value has. A definition without a
/// plan keeps all its fields and loses only the codec's attributes.
pub fn derive_from_attribute(derive_input: Definition, registry: &Registry) -> (expansion: Expansion)
    ensures
        planned(extract(derive_input, registry.inputs@), expansion.plan),
        shown(plan_of(expansion.plan), derive_input, expansion.definition),
{
    let (binread_input, failure) = match derive_from_input(&derive_input, registry) {
        Ok(input) => (Some(input), None),
        Err(e) => (None, Some(e)),
    };
    let Definition { ident, attrs, data } = derive_input;
    let mut attrs = attrs;
    clean_struct_attrs(&mut attrs);
    let data = match data {
        Data::Struct(fields) => {
            let mut fields = fields;
            clean_field_attrs(&binread_input, 0, &mut fields);
            Data::Struct(fields)
        },
        Data::Enum(variants) => Data::Enum(clean_variants(&binread_input, variants)),
        Data::Union(members) => Data::Union(clean_members(members)),
    };
    let plan = match binread_input {
        Some(input) => Ok(input),
        None => match failure {
            Some(e) => Err(e),
            None => Err(Error::UnsupportedShape),
        },
    };
    Expansion { definition: Definition { ident, attrs, data }, plan }
}

impl Registry {
    /// Derives a codec for a definition and, if it has a plan, adds the plan
    /// to the registry. Gives back the definition as the value has it, and
    /// the place of the plan.
    pub fn define(&mut self, definition: Definition) -> (result: (Definition, Result<usize, Error>))
        ensures
            match extract(definition, old(self).inputs@) {
                Ok(m) => {
                    &&& result.1 == Ok::<usize, Error>(old(self).inputs@.len() as usize)
                    &&& final(self).inputs@.len() == old(self).inputs@.len() + 1
                    &&& final(self).inputs@.drop_last() == old(self).inputs@
                    &&& final(self).inputs@.last().model() == m
                    &&& shown(Some(final(self).inputs@.last()), definition, result.0)
                },
                Err(f) => {
                    &&& result.1 matches Err(e) && e@ == f
                    &&& final(self).inputs@ == old(self).inputs@
                    &&& shown(None, definition, result.0)
                },
            },
    {
        let expansion = derive_from_attribute(definition, self);
        let Expansion { definition: value_shape, plan } = expansion;
        match plan {
            Ok(input) => {
                let id = self.add(input);
                proof {
                    assert(self.inputs@.drop_last() =~= old(self).inputs@);
                }
                (value_shape, Ok(id))
            },
            Err(e) => (value_shape, Err(e)),
        }
    }
}

} // verus!
