//! The compiled plan of a definition.

use crate::directive::{Assertion, Directive, FieldType, Mapping};
use crate::expr::Expr;
use crate::endian::Endian;
use crate::value::IntType;
use vstd::prelude::*;

verus! {

/// One field of a plan: its type and what its attributes say.
#[derive(Debug, PartialEq, Eq)]
pub struct Field {
    pub ty: FieldType,
    pub directive: Directive,
}

/// A sequence of fields behind optional magic bytes: the body of a struct or
/// of an enum's variant.
#[derive(Debug, PartialEq, Eq)]
pub struct Body {
    /// The bytes that the body starts with on the wire.
    pub magic: Vec<u8>,
    /// The fields in declaration order, temporary ones included.
    pub fields: Vec<Field>,
}

/// A variant of an enum.
#[derive(Debug, PartialEq, Eq)]
pub struct Variant {
    /// The tag that names the variant on the wire; without one the variant
    /// is found by trying.
    pub discriminant: Option<u64>,
    pub body: Body,
}

/// What a definition is made of.
#[derive(Debug, PartialEq, Eq)]
pub enum Shape {
    Struct(Body),
    Enum(Vec<Variant>),
}

/// The plan of one definition.
#[derive(Debug, PartialEq, Eq)]
pub struct Input {
    /// The definition's name, by which other definitions nest it.
    pub name: String,
    /// The byte order that the definition asks for, if it asks for one.
    pub endian: Option<Endian>,
    /// How many arguments the definition declares.
    pub args: usize,
    /// The integer type of an enum's tag.
    pub repr: Option<IntType>,
    pub shape: Shape,
}

/// The plans that are known, each under its place. A plan nests only plans
/// that stand before it.
#[derive(Debug, PartialEq, Eq)]
pub struct Registry {
    pub inputs: Vec<Input>,
}

/// The fields of the body that `variant_index` picks: the struct's own, or
/// those of that variant.
pub open spec fn fields_of(input: Input, variant_index: usize) -> Seq<Field> {
    match input.shape {
        Shape::Struct(body) => body.fields@,
        Shape::Enum(variants) => if variant_index < variants@.len() {
            variants@[variant_index as int].body.fields@
        } else {
            Seq::empty()
        },
    }
}

/// How many of the first `upto` fields are part of the value.
pub open spec fn value_count(fields: Seq<Field>, upto: nat) -> nat
    decreases upto,
{
    if upto == 0 || upto > fields.len() {
        0
    } else {
        value_count(fields, (upto - 1) as nat) + if fields[upto - 1].directive.temporary {
            0nat
        } else {
            1nat
        }
    }
}

impl Input {
    /// Whether field `index` of the body that `variant_index` picks is
    /// temporary. A field that does not exist is not.
    pub open spec fn temp_field(self, variant_index: usize, index: usize) -> bool {
        index < fields_of(self, variant_index).len() && fields_of(
            self,
            variant_index,
        )[index as int].directive.temporary
    }

    /// Whether field `index` of the body that `variant_index` picks is
    /// temporary. For a struct `variant_index` is not looked at.
    pub fn is_temp_field(&self, variant_index: usize, index: usize) -> (temp: bool)
        ensures
            temp == self.temp_field(variant_index, index),
    {
        match &self.shape {
            Shape::Struct(body) => index < body.fields.len() && body.fields[index].directive.temporary,
            Shape::Enum(variants) => {
                if variant_index < variants.len() {
                    let fields = &variants[variant_index].body.fields;
                    index < fields.len() && fields[index].directive.temporary
                } else {
                    false
                }
            },
        }
    }
}

impl Registry {
    /// A registry without plans.
    pub fn new() -> (registry: Registry)
        ensures
            registry.inputs@.len() == 0,
    {
        Registry { inputs: Vec::new() }
    }

    /// Adds a plan and gives back its place.
    pub fn add(&mut self, input: Input) -> (id: usize)
        ensures
            id == old(self).inputs@.len(),
            final(self).inputs@ == old(self).inputs@.push(input),
    {
        let id = self.inputs.len();
        self.inputs.push(input);
        id
    }

    /// The number of plans.
    pub fn len(&self) -> (n: usize)
        ensures
            n == self.inputs@.len(),
    {
        self.inputs.len()
    }

    /// The place of the first plan with the given name.
    pub fn find(&self, name: &String) -> (id: Option<usize>)
        ensures
            id == position_of(self.inputs@, name@, 0),
    {
        let mut i: usize = 0;
        while i < self.inputs.len()
            invariant
                i <= self.inputs@.len(),
                position_of(self.inputs@, name@, 0) == position_of(self.inputs@, name@, i as nat),
            decreases self.inputs@.len() - i,
        {
            if self.inputs[i].name == *name {
                return Some(i);
            }
            i = i + 1;
        }
        None
    }
}

/// The place of the first plan, from `from` on, with the given name.
pub open spec fn position_of(inputs: Seq<Input>, name: Seq<char>, from: nat) -> Option<usize>
    decreases inputs.len() - from,
{
    if from >= inputs.len() {
        None
    } else if inputs[from as int].name@ == name {
        Some(from as usize)
    } else {
        position_of(inputs, name, from + 1)
    }
}

/// The mathematical content of an [`Assertion`](crate::directive::Assertion).
pub struct AssertionModel {
    pub predicate: Expr,
    pub description: Seq<char>,
}

/// The mathematical content of a [`Directive`].
pub struct DirectiveModel {
    pub endian_override: Option<Endian>,
    pub condition: Option<Expr>,
    pub temporary: bool,
    pub count_source: Option<usize>,
    pub length_source: Option<usize>,
    pub pad_before: u64,
    pub pad_after: u64,
    pub align_before: u64,
    pub align_after: u64,
    pub restore_position: bool,
    pub assertions: Seq<AssertionModel>,
    pub map_fn: Option<Mapping>,
    pub try_map_fn: Option<Mapping>,
    pub args_expr: Seq<Expr>,
}

/// The mathematical content of a [`Field`].
pub struct FieldModel {
    pub ty: FieldType,
    pub directive: DirectiveModel,
}

/// The mathematical content of a [`Body`].
pub struct BodyModel {
    pub magic: Seq<u8>,
    pub fields: Seq<FieldModel>,
}

/// The mathematical content of a [`Variant`].
pub struct VariantModel {
    pub discriminant: Option<u64>,
    pub body: BodyModel,
}

/// The mathematical content of a [`Shape`].
pub enum ShapeModel {
    Struct(BodyModel),
    Enum(Seq<VariantModel>),
}

/// The mathematical content of an [`Input`].
pub struct InputModel {
    pub name: Seq<char>,
    pub endian: Option<Endian>,
    pub args: usize,
    pub repr: Option<IntType>,
    pub shape: ShapeModel,
}

/// The directive that says nothing.
pub open spec fn blank() -> DirectiveModel {
    DirectiveModel {
        endian_override: None,
        condition: None,
        temporary: false,
        count_source: None,
        length_source: None,
        pad_before: 0,
        pad_after: 0,
        align_before: 0,
        align_after: 0,
        restore_position: false,
        assertions: Seq::empty(),
        map_fn: None,
        try_map_fn: None,
        args_expr: Seq::empty(),
    }
}

/// The contents of `assertions`, in order.
pub open spec fn assertion_models(assertions: Seq<Assertion>) -> Seq<AssertionModel> {
    Seq::new(
        assertions.len(),
        |i: int|
            AssertionModel {
                predicate: assertions[i].predicate,
                description: assertions[i].description@,
            },
    )
}

impl Directive {
    /// The mathematical content of the directive.
    pub open spec fn model(self) -> DirectiveModel {
        DirectiveModel {
            endian_override: self.endian_override,
            condition: self.condition,
            temporary: self.temporary,
            count_source: self.count_source,
            length_source: self.length_source,
            pad_before: self.pad_before,
            pad_after: self.pad_after,
            align_before: self.align_before,
            align_after: self.align_after,
            restore_position: self.restore_position,
            assertions: assertion_models(self.assertions@),
            map_fn: self.map_fn,
            try_map_fn: self.try_map_fn,
            args_expr: self.args_expr@,
        }
    }
}

impl Field {
    /// The mathematical content of the field.
    pub open spec fn model(self) -> FieldModel {
        FieldModel { ty: self.ty, directive: self.directive.model() }
    }
}

/// The contents of `fields`, in order.
pub open spec fn field_models(fields: Seq<Field>) -> Seq<FieldModel> {
    Seq::new(fields.len(), |i: int| fields[i].model())
}

impl Body {
    /// The mathematical content of the body.
    pub open spec fn model(self) -> BodyModel {
        BodyModel { magic: self.magic@, fields: field_models(self.fields@) }
    }
}

impl Variant {
    /// The mathematical content of the variant.
    pub open spec fn model(self) -> VariantModel {
        VariantModel { discriminant: self.discriminant, body: self.body.model() }
    }
}

/// The contents of `variants`, in order.
pub open spec fn variant_models(variants: Seq<Variant>) -> Seq<VariantModel> {
    Seq::new(variants.len(), |i: int| variants[i].model())
}

impl Shape {
    /// The mathematical content of the shape.
    pub open spec fn model(self) -> ShapeModel {
        match self {
            Shape::Struct(body) => ShapeModel::Struct(body.model()),
            Shape::Enum(variants) => ShapeModel::Enum(variant_models(variants@)),
        }
    }
}

impl Input {
    /// The mathematical content of the plan.
    pub open spec fn model(self) -> InputModel {
        InputModel {
            name: self.name@,
            endian: self.endian,
            args: self.args,
            repr: self.repr,
            shape: self.shape.model(),
        }
    }
}

} // verus!
