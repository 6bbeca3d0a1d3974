//! The schema extractor: from a definition as it is written to its plan.
//!
//! The `extract*` functions say what the plan of a definition is, or why it
//! has none; [`Input::from_input`] computes it.

use crate::definition::{codec_attr, is_binread_attr, Attribute, Data, Definition, FieldDef, Fields, Meta, RawExpr, VariantDef};
use crate::directive::{Assertion, Directive, FieldType, Mapping};
use crate::endian::Endian;
use crate::error::{Error, Failure, ParseResult};
use crate::expr::Expr;
use crate::plan::{
    blank, position_of, AssertionModel, Body, BodyModel, DirectiveModel, Field, FieldModel, Input,
    InputModel, Registry, Shape, ShapeModel, Variant, VariantModel,
};
use crate::value::IntType;
use vstd::prelude::*;

verus! {

/// The words that directives are written with.
#[derive(Clone, Copy, Debug, PartialEq, Eq, Structural)]
pub enum Keyword {
    Big,
    Little,
    Temp,
    RestorePosition,
    If,
    Count,
    Length,
    PadBefore,
    PadAfter,
    AlignBefore,
    AlignAfter,
    Check,
    Transform,
    TryTransform,
    Args,
    Magic,
    Import,
    Repr,
}

/// The keyword that a directive's name spells.
pub open spec fn keyword(name: Seq<char>) -> Option<Keyword> {
    if name == "big"@ {
        Some(Keyword::Big)
    } else if name == "little"@ {
        Some(Keyword::Little)
    } else if name == "temp"@ {
        Some(Keyword::Temp)
    } else if name == "restore_position"@ {
        Some(Keyword::RestorePosition)
    } else if name == "if"@ {
        Some(Keyword::If)
    } else if name == "count"@ {
        Some(Keyword::Count)
    } else if name == "length"@ {
        Some(Keyword::Length)
    } else if name == "pad_before"@ {
        Some(Keyword::PadBefore)
    } else if name == "pad_after"@ {
        Some(Keyword::PadAfter)
    } else if name == "align_before"@ {
        Some(Keyword::AlignBefore)
    } else if name == "align_after"@ {
        Some(Keyword::AlignAfter)
    } else if name == "assert"@ {
        Some(Keyword::Check)
    } else if name == "map"@ {
        Some(Keyword::Transform)
    } else if name == "try_map"@ {
        Some(Keyword::TryTransform)
    } else if name == "args"@ {
        Some(Keyword::Args)
    } else if name == "magic"@ {
        Some(Keyword::Magic)
    } else if name == "import"@ {
        Some(Keyword::Import)
    } else if name == "repr"@ {
        Some(Keyword::Repr)
    } else {
        None
    }
}

fn spells(name: &String, word: &str) -> (yes: bool)
    ensures
        yes == (name@ == word@),
{
    let owned = word.to_owned();
    *name == owned
}

/// The keyword that a directive's name spells.
pub fn keyword_of(name: &String) -> (word: Option<Keyword>)
    ensures
        word == keyword(name@),
{
    if spells(name, "big") {
        Some(Keyword::Big)
    } else if spells(name, "little") {
        Some(Keyword::Little)
    } else if spells(name, "temp") {
        Some(Keyword::Temp)
    } else if spells(name, "restore_position") {
        Some(Keyword::RestorePosition)
    } else if spells(name, "if") {
        Some(Keyword::If)
    } else if spells(name, "count") {
        Some(Keyword::Count)
    } else if spells(name, "length") {
        Some(Keyword::Length)
    } else if spells(name, "pad_before") {
        Some(Keyword::PadBefore)
    } else if spells(name, "pad_after") {
        Some(Keyword::PadAfter)
    } else if spells(name, "align_before") {
        Some(Keyword::AlignBefore)
    } else if spells(name, "align_after") {
        Some(Keyword::AlignAfter)
    } else if spells(name, "assert") {
        Some(Keyword::Check)
    } else if spells(name, "map") {
        Some(Keyword::Transform)
    } else if spells(name, "try_map") {
        Some(Keyword::TryTransform)
    } else if spells(name, "args") {
        Some(Keyword::Args)
    } else if spells(name, "magic") {
        Some(Keyword::Magic)
    } else if spells(name, "import") {
        Some(Keyword::Import)
    } else if spells(name, "repr") {
        Some(Keyword::Repr)
    } else {
        None
    }
}

/// The integer type that a name spells.
pub open spec fn int_named(name: Seq<char>) -> Option<IntType> {
    if name == "u8"@ {
        Some(IntType::U8)
    } else if name == "u16"@ {
        Some(IntType::U16)
    } else if name == "u32"@ {
        Some(IntType::U32)
    } else if name == "u64"@ {
        Some(IntType::U64)
    } else {
        None
    }
}

/// The integer type that a name spells.
pub fn int_type_of(name: &String) -> (ty: Option<IntType>)
    ensures
        ty == int_named(name@),
{
    if spells(name, "u8") {
        Some(IntType::U8)
    } else if spells(name, "u16") {
        Some(IntType::U16)
    } else if spells(name, "u32") {
        Some(IntType::U32)
    } else if spells(name, "u64") {
        Some(IntType::U64)
    } else {
        None
    }
}

/// The type that a name spells: an integer type, or the first plan of the
/// registry with that name.
pub open spec fn type_named(name: Seq<char>, reg: Seq<Input>) -> Option<FieldType> {
    match int_named(name) {
        Some(t) => Some(FieldType::Int(t)),
        None => match position_of(reg, name, 0) {
            Some(i) => Some(FieldType::Nested(i)),
            None => None,
        },
    }
}

/// The type that a name spells.
pub fn type_of(name: &String, registry: &Registry) -> (ty: Option<FieldType>)
    ensures
        ty == type_named(name@, registry.inputs@),
{
    match int_type_of(name) {
        Some(t) => Some(FieldType::Int(t)),
        None => match registry.find(name) {
            Some(i) => Some(FieldType::Nested(i)),
            None => None,
        },
    }
}

/// The place of the first field, from `from` on and before `upto`, with the
/// given name.
pub open spec fn field_named(fields: Seq<FieldDef>, upto: nat, name: Seq<char>, from: nat) -> Option<
    usize,
>
    decreases upto - from,
{
    if from >= upto || from >= fields.len() {
        None
    } else if fields[from as int].ident matches Some(id) && id@ == name {
        Some(from as usize)
    } else {
        field_named(fields, upto, name, from + 1)
    }
}

/// The place of the first field before `upto` with the given name.
pub fn find_field(fields: &Vec<FieldDef>, upto: usize, name: &String) -> (place: Option<usize>)
    ensures
        place == field_named(fields@, upto as nat, name@, 0),
{
    let mut i: usize = 0;
    while i < upto && i < fields.len()
        invariant
            field_named(fields@, upto as nat, name@, 0) == field_named(
                fields@,
                upto as nat,
                name@,
                i as nat,
            ),
        decreases fields@.len() - i,
    {
        let same = match &fields[i].ident {
            Some(id) => *id == *name,
            None => false,
        };
        if same {
            return Some(i);
        }
        i = i + 1;
    }
    None
}

/// The place of the first argument, from `from` on, with the given name.
pub open spec fn arg_named(imports: Seq<String>, name: Seq<char>, from: nat) -> Option<usize>
    decreases imports.len() - from,
{
    if from >= imports.len() {
        None
    } else if imports[from as int]@ == name {
        Some(from as usize)
    } else {
        arg_named(imports, name, from + 1)
    }
}

/// The place of the first argument with the given name.
pub fn find_arg(imports: &Vec<String>, name: &String) -> (place: Option<usize>)
    ensures
        place == arg_named(imports@, name@, 0),
{
    let mut i: usize = 0;
    while i < imports.len()
        invariant
            arg_named(imports@, name@, 0) == arg_named(imports@, name@, i as nat),
        decreases imports@.len() - i,
    {
        if imports[i] == *name {
            return Some(i);
        }
        i = i + 1;
    }
    None
}

/// The expression that `raw` stands for on field `upto`: a name is a field
/// that is declared before the field, else an argument that the definition
/// imports; `This` is taken only where `this` allows it. Nothing where a
/// name is neither.
pub open spec fn resolve(
    raw: RawExpr,
    fields: Seq<FieldDef>,
    upto: nat,
    imports: Seq<String>,
    this: bool,
) -> Option<Expr>
    decreases raw,
{
    match raw {
        RawExpr::Lit(n) => Some(Expr::Lit(n)),
        RawExpr::Name(s) => match field_named(fields, upto, s@, 0) {
            Some(i) => Some(Expr::Field(i)),
            None => match arg_named(imports, s@, 0) {
                Some(j) => Some(Expr::Arg(j)),
                None => None,
            },
        },
        RawExpr::This => if this {
            Some(Expr::This)
        } else {
            None
        },
        RawExpr::Not(inner) => match resolve(*inner, fields, upto, imports, this) {
            Some(e) => Some(Expr::Not(Box::new(e))),
            None => None,
        },
        RawExpr::Binary(op, l, r) => match resolve(*l, fields, upto, imports, this) {
            Some(a) => match resolve(*r, fields, upto, imports, this) {
                Some(b) => Some(Expr::Binary(op, Box::new(a), Box::new(b))),
                None => None,
            },
            None => None,
        },
    }
}

/// Looks up the names of an expression.
pub fn resolve_expr(
    raw: &RawExpr,
    fields: &Vec<FieldDef>,
    upto: usize,
    imports: &Vec<String>,
    this: bool,
) -> (expr: Option<Expr>)
    ensures
        expr == resolve(*raw, fields@, upto as nat, imports@, this),
    decreases raw,
{
    match raw {
        RawExpr::Lit(n) => Some(Expr::Lit(*n)),
        RawExpr::Name(s) => match find_field(fields, upto, s) {
            Some(i) => Some(Expr::Field(i)),
            None => match find_arg(imports, s) {
                Some(j) => Some(Expr::Arg(j)),
                None => None,
            },
        },
        RawExpr::This => if this {
            Some(Expr::This)
        } else {
            None
        },
        RawExpr::Not(inner) => match resolve_expr(inner, fields, upto, imports, this) {
            Some(e) => Some(Expr::Not(Box::new(e))),
            None => None,
        },
        RawExpr::Binary(op, l, r) => match resolve_expr(l, fields, upto, imports, this) {
            Some(a) => match resolve_expr(r, fields, upto, imports, this) {
                Some(b) => Some(Expr::Binary(*op, Box::new(a), Box::new(b))),
                None => None,
            },
            None => None,
        },
    }
}

/// The expressions that `raws` stand for, from the one at `from` on, behind
/// the expressions `acc`; nothing where one of them stands for none.
pub open spec fn resolve_all(
    raws: Seq<RawExpr>,
    from: nat,
    acc: Seq<Expr>,
    fields: Seq<FieldDef>,
    upto: nat,
    imports: Seq<String>,
) -> Option<Seq<Expr>>
    decreases raws.len() - from,
{
    if from >= raws.len() {
        Some(acc)
    } else {
        match resolve(raws[from as int], fields, upto, imports, false) {
            Some(e) => resolve_all(raws, from + 1, acc.push(e), fields, upto, imports),
            None => None,
        }
    }
}

/// Looks up the names of each of `raws`.
pub fn resolve_each(raws: &Vec<RawExpr>, fields: &Vec<FieldDef>, upto: usize, imports: &Vec<String>) -> (exprs:
    Option<Vec<Expr>>)
    ensures
        match resolve_all(raws@, 0, Seq::empty(), fields@, upto as nat, imports@) {
            Some(es) => exprs matches Some(v) && v@ == es,
            None => exprs is None,
        },
{
    let mut out: Vec<Expr> = Vec::new();
    let mut i: usize = 0;
    while i < raws.len()
        invariant
            i <= raws@.len(),
            resolve_all(raws@, 0, Seq::empty(), fields@, upto as nat, imports@) == resolve_all(
                raws@,
                i as nat,
                out@,
                fields@,
                upto as nat,
                imports@,
            ),
        decreases raws@.len() - i,
    {
        match resolve_expr(&raws[i], fields, upto, imports, false) {
            Some(e) => {
                out.push(e);
            },
            None => {
                return None;
            },
        }
        i = i + 1;
    }
    Some(out)
}

/// The one literal that a directive is given, if that is what it is given.
pub open spec fn one_literal(values: Seq<RawExpr>) -> Option<u64> {
    if values.len() == 1 {
        match values[0] {
            RawExpr::Lit(n) => Some(n),
            _ => None,
        }
    } else {
        None
    }
}

/// The one name that a directive is given, if that is what it is given.
pub open spec fn one_name(values: Seq<RawExpr>) -> Option<String> {
    if values.len() == 1 {
        match values[0] {
            RawExpr::Name(s) => Some(s),
            _ => None,
        }
    } else {
        None
    }
}

fn literal_of(values: &Vec<RawExpr>) -> (n: Option<u64>)
    ensures
        n == one_literal(values@),
{
    if values.len() == 1 {
        match &values[0] {
            RawExpr::Lit(n) => Some(*n),
            _ => None,
        }
    } else {
        None
    }
}

fn name_of(values: &Vec<RawExpr>) -> (name: Option<&String>)
    ensures
        match one_name(values@) {
            Some(s) => name == Some(&s),
            None => name is None,
        },
{
    if values.len() == 1 {
        match &values[0] {
            RawExpr::Name(s) => Some(s),
            _ => None,
        }
    } else {
        None
    }
}

/// What a directive without a value does to the directives `d` of field
/// `k`: `big` and `little` set the byte order, which must not be set to the
/// other already; `temp` and `restore_position` set their mark.
pub open spec fn apply_flag(d: DirectiveModel, word: Keyword, meta: Meta, k: usize) -> Result<
    DirectiveModel,
    Failure,
> {
    if meta.values@.len() != 0 {
        Err(Failure::Syntax { field: Some(k) })
    } else {
        match word {
            Keyword::Temp => Ok(DirectiveModel { temporary: true, ..d }),
            Keyword::RestorePosition => Ok(DirectiveModel { restore_position: true, ..d }),
            _ => {
                let order = if word == Keyword::Big {
                    Endian::Big
                } else {
                    Endian::Little
                };
                match d.endian_override {
                    Some(set) => if set == order {
                        Ok(d)
                    } else {
                        Err(Failure::ConflictingDirectives { field: Some(k) })
                    },
                    None => Ok(DirectiveModel { endian_override: Some(order), ..d }),
                }
            },
        }
    }
}

/// What a directive with one number does: it sets a padding or an
/// alignment, which must not be set already.
pub open spec fn apply_number(d: DirectiveModel, word: Keyword, meta: Meta, k: usize) -> Result<
    DirectiveModel,
    Failure,
> {
    match one_literal(meta.values@) {
        None => Err(Failure::Syntax { field: Some(k) }),
        Some(n) => {
            let set = match word {
                Keyword::PadBefore => d.pad_before,
                Keyword::PadAfter => d.pad_after,
                Keyword::AlignBefore => d.align_before,
                _ => d.align_after,
            };
            if set != 0 {
                Err(Failure::ConflictingDirectives { field: Some(k) })
            } else {
                match word {
                    Keyword::PadBefore => Ok(DirectiveModel { pad_before: n, ..d }),
                    Keyword::PadAfter => Ok(DirectiveModel { pad_after: n, ..d }),
                    Keyword::AlignBefore => Ok(DirectiveModel { align_before: n, ..d }),
                    _ => Ok(DirectiveModel { align_after: n, ..d }),
                }
            }
        },
    }
}

/// What a directive with the name of a field does: it sets the count or the
/// length of the field to a field that is declared before it; the same must
/// not be set already.
pub open spec fn apply_reference(
    d: DirectiveModel,
    word: Keyword,
    meta: Meta,
    k: usize,
    fields: Seq<FieldDef>,
) -> Result<DirectiveModel, Failure> {
    match one_name(meta.values@) {
        None => Err(Failure::Syntax { field: Some(k) }),
        Some(name) => match field_named(fields, k as nat, name@, 0) {
            None => Err(Failure::UnresolvedReference { field: Some(k) }),
            Some(i) => if word == Keyword::Count {
                if d.count_source is Some {
                    Err(Failure::ConflictingDirectives { field: Some(k) })
                } else {
                    Ok(DirectiveModel { count_source: Some(i), ..d })
                }
            } else {
                if d.length_source is Some {
                    Err(Failure::ConflictingDirectives { field: Some(k) })
                } else {
                    Ok(DirectiveModel { length_source: Some(i), ..d })
                }
            },
        },
    }
}

/// What a directive with a condition or an assertion does. A condition
/// cannot speak of the field itself and must not be set already; an
/// assertion joins those that are there, with the directive's text as its
/// description.
pub open spec fn apply_predicate(
    d: DirectiveModel,
    word: Keyword,
    meta: Meta,
    k: usize,
    fields: Seq<FieldDef>,
    imports: Seq<String>,
) -> Result<DirectiveModel, Failure> {
    if meta.values@.len() != 1 {
        Err(Failure::Syntax { field: Some(k) })
    } else {
        match resolve(meta.values@[0], fields, k as nat, imports, word == Keyword::Check) {
            None => Err(Failure::UnresolvedReference { field: Some(k) }),
            Some(e) => if word == Keyword::Check {
                Ok(
                    DirectiveModel {
                        assertions: d.assertions.push(
                            AssertionModel { predicate: e, description: meta.text@ },
                        ),
                        ..d
                    },
                )
            } else if d.condition is Some {
                Err(Failure::ConflictingDirectives { field: Some(k) })
            } else {
                Ok(DirectiveModel { condition: Some(e), ..d })
            },
        }
    }
}

/// What a directive with a transform does: it sets the transform, or the
/// fallible transform, from the two expressions that it is given, the first
/// for reading and the second for writing; the same must not be set
/// already.
pub open spec fn apply_mapping(
    d: DirectiveModel,
    word: Keyword,
    meta: Meta,
    k: usize,
    fields: Seq<FieldDef>,
    imports: Seq<String>,
) -> Result<DirectiveModel, Failure> {
    if meta.values@.len() != 2 {
        Err(Failure::Syntax { field: Some(k) })
    } else {
        match resolve(meta.values@[0], fields, k as nat, imports, true) {
            None => Err(Failure::UnresolvedReference { field: Some(k) }),
            Some(decode) => match resolve(meta.values@[1], fields, k as nat, imports, true) {
                None => Err(Failure::UnresolvedReference { field: Some(k) }),
                Some(encode) => if word == Keyword::Transform {
                    if d.map_fn is Some {
                        Err(Failure::ConflictingDirectives { field: Some(k) })
                    } else {
                        Ok(DirectiveModel { map_fn: Some(Mapping { decode, encode }), ..d })
                    }
                } else {
                    if d.try_map_fn is Some {
                        Err(Failure::ConflictingDirectives { field: Some(k) })
                    } else {
                        Ok(DirectiveModel { try_map_fn: Some(Mapping { decode, encode }), ..d })
                    }
                },
            },
        }
    }
}

/// What the directive `args` does: it sets the arguments for the field's
/// own definition, which must not be set already.
pub open spec fn apply_args(
    d: DirectiveModel,
    meta: Meta,
    k: usize,
    fields: Seq<FieldDef>,
    imports: Seq<String>,
) -> Result<DirectiveModel, Failure> {
    match resolve_all(meta.values@, 0, Seq::empty(), fields, k as nat, imports) {
        None => Err(Failure::UnresolvedReference { field: Some(k) }),
        Some(es) => if d.args_expr.len() != 0 {
            Err(Failure::ConflictingDirectives { field: Some(k) })
        } else {
            Ok(DirectiveModel { args_expr: es, ..d })
        },
    }
}

/// What one directive does to the directives `d` of field `k`. A name that
/// is no keyword, or a keyword that belongs on a definition, is a syntax
/// error.
pub open spec fn apply_field(
    d: DirectiveModel,
    meta: Meta,
    k: usize,
    fields: Seq<FieldDef>,
    imports: Seq<String>,
) -> Result<DirectiveModel, Failure> {
    match keyword(meta.name@) {
        None => Err(Failure::Syntax { field: Some(k) }),
        Some(word) => match word {
            Keyword::Big | Keyword::Little | Keyword::Temp | Keyword::RestorePosition => apply_flag(
                d,
                word,
                meta,
                k,
            ),
            Keyword::PadBefore | Keyword::PadAfter | Keyword::AlignBefore | Keyword::AlignAfter => apply_number(
                d,
                word,
                meta,
                k,
            ),
            Keyword::Count | Keyword::Length => apply_reference(d, word, meta, k, fields),
            Keyword::If | Keyword::Check => apply_predicate(d, word, meta, k, fields, imports),
            Keyword::Transform | Keyword::TryTransform => apply_mapping(d, word, meta, k, fields, imports),
            Keyword::Args => apply_args(d, meta, k, fields, imports),
            _ => Err(Failure::Syntax { field: Some(k) }),
        },
    }
}

/// Whether an executable step gave what the specification says.
pub open spec fn settled(spec: Result<DirectiveModel, Failure>, result: Result<Directive, Error>) -> bool {
    match spec {
        Ok(m) => result matches Ok(d) && d.model() == m,
        Err(f) => result matches Err(e) && e@ == f,
    }
}

fn set_flag(d: Directive, word: Keyword, meta: &Meta, k: usize) -> (result: Result<Directive, Error>)
    requires
        word == Keyword::Big || word == Keyword::Little || word == Keyword::Temp || word
            == Keyword::RestorePosition,
    ensures
        settled(apply_flag(d.model(), word, *meta, k), result),
{
    let mut d = d;
    if meta.values.len() != 0 {
        return Err(Error::Syntax { field: Some(k) });
    }
    match word {
        Keyword::Temp => {
            d.temporary = true;
            Ok(d)
        },
        Keyword::RestorePosition => {
            d.restore_position = true;
            Ok(d)
        },
        _ => {
            let order = match word {
                Keyword::Big => Endian::Big,
                _ => Endian::Little,
            };
            match d.endian_override {
                Some(set) => {
                    if set == order {
                        Ok(d)
                    } else {
                        Err(Error::ConflictingDirectives { field: Some(k) })
                    }
                },
                None => {
                    d.endian_override = Some(order);
                    Ok(d)
                },
            }
        },
    }
}

fn set_number(d: Directive, word: Keyword, meta: &Meta, k: usize) -> (result: Result<Directive, Error>)
    requires
        word == Keyword::PadBefore || word == Keyword::PadAfter || word == Keyword::AlignBefore
            || word == Keyword::AlignAfter,
    ensures
        settled(apply_number(d.model(), word, *meta, k), result),
{
    let mut d = d;
    let n = match literal_of(&meta.values) {
        Some(n) => n,
        None => {
            return Err(Error::Syntax { field: Some(k) });
        },
    };
    let set = match word {
        Keyword::PadBefore => d.pad_before,
        Keyword::PadAfter => d.pad_after,
        Keyword::AlignBefore => d.align_before,
        _ => d.align_after,
    };
    if set != 0 {
        return Err(Error::ConflictingDirectives { field: Some(k) });
    }
    match word {
        Keyword::PadBefore => {
            d.pad_before = n;
        },
        Keyword::PadAfter => {
            d.pad_after = n;
        },
        Keyword::AlignBefore => {
            d.align_before = n;
        },
        _ => {
            d.align_after = n;
        },
    }
    Ok(d)
}

fn set_reference(d: Directive, word: Keyword, meta: &Meta, k: usize, fields: &Vec<FieldDef>) -> (result:
    Result<Directive, Error>)
    requires
        word == Keyword::Count || word == Keyword::Length,
    ensures
        settled(apply_reference(d.model(), word, *meta, k, fields@), result),
{
    let mut d = d;
    let name = match name_of(&meta.values) {
        Some(s) => s,
        None => {
            return Err(Error::Syntax { field: Some(k) });
        },
    };
    let i = match find_field(fields, k, name) {
        Some(i) => i,
        None => {
            return Err(Error::UnresolvedReference { field: Some(k) });
        },
    };
    match word {
        Keyword::Count => {
            if d.count_source.is_some() {
                return Err(Error::ConflictingDirectives { field: Some(k) });
            }
            d.count_source = Some(i);
        },
        _ => {
            if d.length_source.is_some() {
                return Err(Error::ConflictingDirectives { field: Some(k) });
            }
            d.length_source = Some(i);
        },
    }
    Ok(d)
}

fn set_predicate(
    d: Directive,
    word: Keyword,
    meta: &Meta,
    k: usize,
    fields: &Vec<FieldDef>,
    imports: &Vec<String>,
) -> (result: Result<Directive, Error>)
    requires
        word == Keyword::If || word == Keyword::Check,
    ensures
        settled(apply_predicate(d.model(), word, *meta, k, fields@, imports@), result),
{
    let mut d = d;
    if meta.values.len() != 1 {
        return Err(Error::Syntax { field: Some(k) });
    }
    let asserting = match word {
        Keyword::Check => true,
        _ => false,
    };
    let e = match resolve_expr(&meta.values[0], fields, k, imports, asserting) {
        Some(e) => e,
        None => {
            return Err(Error::UnresolvedReference { field: Some(k) });
        },
    };
    if asserting {
        let ghost before = d.model();
        let assertion = Assertion { predicate: e, description: meta.text.clone() };
        d.assertions.push(assertion);
        proof {
            assert(d.model().assertions =~= before.assertions.push(
                AssertionModel { predicate: e, description: meta.text@ },
            ));
        }
        Ok(d)
    } else {
        if d.condition.is_some() {
            return Err(Error::ConflictingDirectives { field: Some(k) });
        }
        d.condition = Some(e);
        Ok(d)
    }
}

fn set_mapping(
    d: Directive,
    word: Keyword,
    meta: &Meta,
    k: usize,
    fields: &Vec<FieldDef>,
    imports: &Vec<String>,
) -> (result: Result<Directive, Error>)
    requires
        word == Keyword::Transform || word == Keyword::TryTransform,
    ensures
        settled(apply_mapping(d.model(), word, *meta, k, fields@, imports@), result),
{
    let mut d = d;
    if meta.values.len() != 2 {
        return Err(Error::Syntax { field: Some(k) });
    }
    let decode = match resolve_expr(&meta.values[0], fields, k, imports, true) {
        Some(e) => e,
        None => {
            return Err(Error::UnresolvedReference { field: Some(k) });
        },
    };
    let encode = match resolve_expr(&meta.values[1], fields, k, imports, true) {
        Some(e) => e,
        None => {
            return Err(Error::UnresolvedReference { field: Some(k) });
        },
    };
    match word {
        Keyword::Transform => {
            if d.map_fn.is_some() {
                return Err(Error::ConflictingDirectives { field: Some(k) });
            }
            d.map_fn = Some(Mapping { decode, encode });
        },
        _ => {
            if d.try_map_fn.is_some() {
                return Err(Error::ConflictingDirectives { field: Some(k) });
            }
            d.try_map_fn = Some(Mapping { decode, encode });
        },
    }
    Ok(d)
}

fn set_args(d: Directive, meta: &Meta, k: usize, fields: &Vec<FieldDef>, imports: &Vec<String>) -> (result:
    Result<Directive, Error>)
    ensures
        settled(apply_args(d.model(), *meta, k, fields@, imports@), result),
{
    let mut d = d;
    let es = match resolve_each(&meta.values, fields, k, imports) {
        Some(es) => es,
        None => {
            return Err(Error::UnresolvedReference { field: Some(k) });
        },
    };
    if d.args_expr.len() != 0 {
        return Err(Error::ConflictingDirectives { field: Some(k) });
    }
    d.args_expr = es;
    Ok(d)
}

/// Applies one directive to the directives of field `k`.
pub fn set_field(d: Directive, meta: &Meta, k: usize, fields: &Vec<FieldDef>, imports: &Vec<String>) -> (result:
    Result<Directive, Error>)
    ensures
        settled(apply_field(d.model(), *meta, k, fields@, imports@), result),
{
    match keyword_of(&meta.name) {
        None => Err(Error::Syntax { field: Some(k) }),
        Some(word) => match word {
            Keyword::Big | Keyword::Little | Keyword::Temp | Keyword::RestorePosition => set_flag(
                d,
                word,
                meta,
                k,
            ),
            Keyword::PadBefore | Keyword::PadAfter | Keyword::AlignBefore | Keyword::AlignAfter => set_number(
                d,
                word,
                meta,
                k,
            ),
            Keyword::Count | Keyword::Length => set_reference(d, word, meta, k, fields),
            Keyword::If | Keyword::Check => set_predicate(d, word, meta, k, fields, imports),
            Keyword::Transform | Keyword::TryTransform => set_mapping(d, word, meta, k, fields, imports),
            Keyword::Args => set_args(d, meta, k, fields, imports),
            _ => Err(Error::Syntax { field: Some(k) }),
        },
    }
}

/// What the directives of `metas`, from the one at `from` on, do to the
/// directives `d` of field `k`, one after the other; the first that fails
/// ends it.
pub open spec fn apply_metas(
    d: DirectiveModel,
    metas: Seq<Meta>,
    from: nat,
    k: usize,
    fields: Seq<FieldDef>,
    imports: Seq<String>,
) -> Result<DirectiveModel, Failure>
    decreases metas.len() - from,
{
    if from >= metas.len() {
        Ok(d)
    } else {
        match apply_field(d, metas[from as int], k, fields, imports) {
            Ok(next) => apply_metas(next, metas, from + 1, k, fields, imports),
            Err(f) => Err(f),
        }
    }
}

/// What the attributes from `from` on do to the directives `d` of field
/// `k`: those of the codec are applied in their order, the others are
/// passed over.
pub open spec fn apply_attrs(
    d: DirectiveModel,
    attrs: Seq<Attribute>,
    from: nat,
    k: usize,
    fields: Seq<FieldDef>,
    imports: Seq<String>,
) -> Result<DirectiveModel, Failure>
    decreases attrs.len() - from,
{
    if from >= attrs.len() {
        Ok(d)
    } else if codec_attr(attrs[from as int]) {
        match apply_metas(d, attrs[from as int].metas@, 0, k, fields, imports) {
            Ok(next) => apply_attrs(next, attrs, from + 1, k, fields, imports),
            Err(f) => Err(f),
        }
    } else {
        apply_attrs(d, attrs, from + 1, k, fields, imports)
    }
}

/// Whether the directives of a field of type `ty` exclude each other: a
/// count beside a length; a transform beside a fallible transform; a
/// temporary field or a transform on anything but one integer; a condition
/// on one nested value, which has no default; a field that goes back to its
/// start and is a collection.
pub open spec fn conflicting(d: DirectiveModel, ty: FieldType) -> bool {
    let repeated = d.count_source is Some || d.length_source is Some;
    let composite = ty is Nested || repeated;
    ||| d.count_source is Some && d.length_source is Some
    ||| d.map_fn is Some && d.try_map_fn is Some
    ||| d.temporary && composite
    ||| (d.map_fn is Some || d.try_map_fn is Some) && composite
    ||| d.condition is Some && ty is Nested && !repeated
    ||| d.restore_position && repeated
}

/// The plan of field `k`: its type must be known, its directives must be
/// well written and must refer to nothing but what is declared before the
/// field, and they must not exclude each other.
pub open spec fn extract_field(
    fields: Seq<FieldDef>,
    k: nat,
    imports: Seq<String>,
    reg: Seq<Input>,
) -> Result<FieldModel, Failure> {
    match type_named(fields[k as int].ty@, reg) {
        None => Err(Failure::UnresolvedReference { field: Some(k as usize) }),
        Some(ty) => match apply_attrs(blank(), fields[k as int].attrs@, 0, k as usize, fields, imports) {
            Err(f) => Err(f),
            Ok(d) => if conflicting(d, ty) {
                Err(Failure::ConflictingDirectives { field: Some(k as usize) })
            } else {
                Ok(FieldModel { ty, directive: d })
            },
        },
    }
}

/// The plans of the fields from `k` on, behind the plans `acc`, in
/// declaration order; the first field without a plan ends it.
pub open spec fn extract_fields(
    fields: Seq<FieldDef>,
    k: nat,
    acc: Seq<FieldModel>,
    imports: Seq<String>,
    reg: Seq<Input>,
) -> Result<Seq<FieldModel>, Failure>
    decreases fields.len() - k,
{
    if k >= fields.len() {
        Ok(acc)
    } else {
        match extract_field(fields, k, imports, reg) {
            Ok(f) => extract_fields(fields, k + 1, acc.push(f), imports, reg),
            Err(f) => Err(f),
        }
    }
}

fn set_metas(
    d: Directive,
    metas: &Vec<Meta>,
    k: usize,
    fields: &Vec<FieldDef>,
    imports: &Vec<String>,
) -> (result: Result<Directive, Error>)
    ensures
        settled(apply_metas(d.model(), metas@, 0, k, fields@, imports@), result),
{
    let ghost start = d.model();
    let mut current = d;
    let mut i: usize = 0;
    while i < metas.len()
        invariant
            i <= metas@.len(),
            start == d.model(),
            apply_metas(start, metas@, 0, k, fields@, imports@) == apply_metas(
                current.model(),
                metas@,
                i as nat,
                k,
                fields@,
                imports@,
            ),
        decreases metas@.len() - i,
    {
        match set_field(current, &metas[i], k, fields, imports) {
            Ok(next) => {
                current = next;
            },
            Err(e) => {
                return Err(e);
            },
        }
        i = i + 1;
    }
    Ok(current)
}

fn set_attrs(
    attrs: &Vec<Attribute>,
    k: usize,
    fields: &Vec<FieldDef>,
    imports: &Vec<String>,
) -> (result: Result<Directive, Error>)
    ensures
        settled(apply_attrs(blank(), attrs@, 0, k, fields@, imports@), result),
{
    let ghost whole = apply_attrs(blank(), attrs@, 0, k, fields@, imports@);
    let mut d = Directive::new();
    proof {
        assert(d.model().assertions =~= blank().assertions);
        assert(d.model().args_expr =~= blank().args_expr);
        assert(d.model() == blank());
    }
    let mut i: usize = 0;
    while i < attrs.len()
        invariant
            i <= attrs@.len(),
            whole == apply_attrs(blank(), attrs@, 0, k, fields@, imports@),
            whole == apply_attrs(d.model(), attrs@, i as nat, k, fields@, imports@),
        decreases attrs@.len() - i,
    {
        if is_binread_attr(&attrs[i]) {
            match set_metas(d, &attrs[i].metas, k, fields, imports) {
                Ok(next) => {
                    d = next;
                },
                Err(e) => {
                    return Err(e);
                },
            }
        }
        i = i + 1;
    }
    Ok(d)
}

fn conflicts(d: &Directive, ty: FieldType) -> (yes: bool)
    ensures
        yes == conflicting(d.model(), ty),
{
    let repeated = d.count_source.is_some() || d.length_source.is_some();
    let nested = match ty {
        FieldType::Nested(_) => true,
        FieldType::Int(_) => false,
    };
    let composite = nested || repeated;
    (d.count_source.is_some() && d.length_source.is_some()) || (d.map_fn.is_some()
        && d.try_map_fn.is_some()) || (d.temporary && composite) || ((d.map_fn.is_some()
        || d.try_map_fn.is_some()) && composite) || (d.condition.is_some() && nested && !repeated)
        || (d.restore_position && repeated)
}

/// Whether an executable step gave the field that the specification says.
pub open spec fn field_settled(spec: Result<FieldModel, Failure>, result: Result<Field, Error>) -> bool {
    match spec {
        Ok(m) => result matches Ok(f) && f.model() == m,
        Err(f) => result matches Err(e) && e@ == f,
    }
}

fn build_field(fields: &Vec<FieldDef>, k: usize, imports: &Vec<String>, registry: &Registry) -> (result:
    Result<Field, Error>)
    requires
        k < fields@.len(),
    ensures
        field_settled(extract_field(fields@, k as nat, imports@, registry.inputs@), result),
{
    let ty = match type_of(&fields[k].ty, registry) {
        Some(ty) => ty,
        None => {
            return Err(Error::UnresolvedReference { field: Some(k) });
        },
    };
    let d = match set_attrs(&fields[k].attrs, k, fields, imports) {
        Ok(d) => d,
        Err(e) => {
            return Err(e);
        },
    };
    if conflicts(&d, ty) {
        return Err(Error::ConflictingDirectives { field: Some(k) });
    }
    Ok(Field { ty, directive: d })
}

fn build_fields(fields: &Vec<FieldDef>, imports: &Vec<String>, registry: &Registry) -> (result: Result<
    Vec<Field>,
    Error,
>)
    ensures
        match extract_fields(fields@, 0, Seq::empty(), imports@, registry.inputs@) {
            Ok(ms) => result matches Ok(fs) && crate::plan::field_models(fs@) == ms,
            Err(f) => result matches Err(e) && e@ == f,
        },
{
    let ghost whole = extract_fields(fields@, 0, Seq::empty(), imports@, registry.inputs@);
    let mut out: Vec<Field> = Vec::new();
    let mut k: usize = 0;
    proof {
        assert(crate::plan::field_models(out@) =~= Seq::<FieldModel>::empty());
    }
    while k < fields.len()
        invariant
            k <= fields@.len(),
            whole == extract_fields(fields@, 0, Seq::empty(), imports@, registry.inputs@),
            whole == extract_fields(
                fields@,
                k as nat,
                crate::plan::field_models(out@),
                imports@,
                registry.inputs@,
            ),
        decreases fields@.len() - k,
    {
        match build_field(fields, k, imports, registry) {
            Ok(f) => {
                proof {
                    assert(crate::plan::field_models(out@.push(f)) =~= crate::plan::field_models(
                        out@,
                    ).push(f.model()));
                }
                out.push(f);
            },
            Err(e) => {
                return Err(e);
            },
        }
        k = k + 1;
    }
    Ok(out)
}

/// What the attributes of a definition, or of a variant, say.
#[derive(Debug, PartialEq, Eq)]
pub struct Container {
    pub endian: Option<Endian>,
    pub magic: Vec<u8>,
    pub imports: Vec<String>,
    pub repr: Option<IntType>,
}

/// The mathematical content of a [`Container`].
pub struct ContainerModel {
    pub endian: Option<Endian>,
    pub magic: Seq<u8>,
    pub imports: Seq<String>,
    pub repr: Option<IntType>,
}

impl Container {
    /// The mathematical content of the container.
    pub open spec fn model(self) -> ContainerModel {
        ContainerModel {
            endian: self.endian,
            magic: self.magic@,
            imports: self.imports@,
            repr: self.repr,
        }
    }
}

/// The container that says nothing.
pub open spec fn bare() -> ContainerModel {
    ContainerModel { endian: None, magic: Seq::empty(), imports: Seq::empty(), repr: None }
}

/// The bytes that `values` spell from `from` on, behind the bytes `acc`:
/// each value must be a literal below 256.
pub open spec fn magic_bytes(values: Seq<RawExpr>, from: nat, acc: Seq<u8>) -> Option<Seq<u8>>
    decreases values.len() - from,
{
    if from >= values.len() {
        Some(acc)
    } else {
        match values[from as int] {
            RawExpr::Lit(n) => if n < 256 {
                magic_bytes(values, from + 1, acc.push(n as u8))
            } else {
                None
            },
            _ => None,
        }
    }
}

/// The names that `values` spell from `from` on, behind the names `acc`:
/// each value must be a name.
pub open spec fn import_names(values: Seq<RawExpr>, from: nat, acc: Seq<String>) -> Option<
    Seq<String>,
>
    decreases values.len() - from,
{
    if from >= values.len() {
        Some(acc)
    } else {
        match values[from as int] {
            RawExpr::Name(s) => import_names(values, from + 1, acc.push(s)),
            _ => None,
        }
    }
}

/// What one directive does to what the attributes of a definition say:
/// `big` and `little` set the byte order, `magic` the magic bytes, `import`
/// the names of the arguments, `repr` the type of the tag. Nothing may be
/// set twice, and no other directive may stand on a definition.
pub open spec fn apply_container(c: ContainerModel, meta: Meta) -> Result<ContainerModel, Failure> {
    match keyword(meta.name@) {
        Some(Keyword::Big) | Some(Keyword::Little) => if meta.values@.len() != 0 {
            Err(Failure::Syntax { field: None })
        } else if c.endian is Some {
            Err(Failure::ConflictingDirectives { field: None })
        } else {
            Ok(
                ContainerModel {
                    endian: Some(
                        if keyword(meta.name@) == Some(Keyword::Big) {
                            Endian::Big
                        } else {
                            Endian::Little
                        },
                    ),
                    ..c
                },
            )
        },
        Some(Keyword::Magic) => match magic_bytes(meta.values@, 0, Seq::empty()) {
            None => Err(Failure::Syntax { field: None }),
            Some(bytes) => if c.magic.len() != 0 {
                Err(Failure::ConflictingDirectives { field: None })
            } else {
                Ok(ContainerModel { magic: bytes, ..c })
            },
        },
        Some(Keyword::Import) => match import_names(meta.values@, 0, Seq::empty()) {
            None => Err(Failure::Syntax { field: None }),
            Some(names) => if c.imports.len() != 0 {
                Err(Failure::ConflictingDirectives { field: None })
            } else {
                Ok(ContainerModel { imports: names, ..c })
            },
        },
        Some(Keyword::Repr) => match one_name(meta.values@) {
            None => Err(Failure::Syntax { field: None }),
            Some(name) => match int_named(name@) {
                None => Err(Failure::Syntax { field: None }),
                Some(t) => if c.repr is Some {
                    Err(Failure::ConflictingDirectives { field: None })
                } else {
                    Ok(ContainerModel { repr: Some(t), ..c })
                },
            },
        },
        _ => Err(Failure::Syntax { field: None }),
    }
}

/// What the directives of `metas`, from the one at `from` on, do to `c`.
pub open spec fn container_metas(c: ContainerModel, metas: Seq<Meta>, from: nat) -> Result<
    ContainerModel,
    Failure,
>
    decreases metas.len() - from,
{
    if from >= metas.len() {
        Ok(c)
    } else {
        match apply_container(c, metas[from as int]) {
            Ok(next) => container_metas(next, metas, from + 1),
            Err(f) => Err(f),
        }
    }
}

/// What the attributes from `from` on do to `c`: those of the codec are
/// applied in their order, the others are passed over.
pub open spec fn container_attrs(c: ContainerModel, attrs: Seq<Attribute>, from: nat) -> Result<
    ContainerModel,
    Failure,
>
    decreases attrs.len() - from,
{
    if from >= attrs.len() {
        Ok(c)
    } else if codec_attr(attrs[from as int]) {
        match container_metas(c, attrs[from as int].metas@, 0) {
            Ok(next) => container_attrs(next, attrs, from + 1),
            Err(f) => Err(f),
        }
    } else {
        container_attrs(c, attrs, from + 1)
    }
}

/// Whether an executable step gave the container that the specification
/// says.
pub open spec fn container_settled(
    spec: Result<ContainerModel, Failure>,
    result: Result<Container, Error>,
) -> bool {
    match spec {
        Ok(m) => result matches Ok(c) && c.model() == m,
        Err(f) => result matches Err(e) && e@ == f,
    }
}

fn bytes_of(values: &Vec<RawExpr>) -> (bytes: Option<Vec<u8>>)
    ensures
        match magic_bytes(values@, 0, Seq::empty()) {
            Some(b) => bytes matches Some(v) && v@ == b,
            None => bytes is None,
        },
{
    let mut out: Vec<u8> = Vec::new();
    let mut i: usize = 0;
    while i < values.len()
        invariant
            i <= values@.len(),
            magic_bytes(values@, 0, Seq::empty()) == magic_bytes(values@, i as nat, out@),
        decreases values@.len() - i,
    {
        match &values[i] {
            RawExpr::Lit(n) => {
                if *n < 256 {
                    out.push(*n as u8);
                } else {
                    return None;
                }
            },
            _ => {
                return None;
            },
        }
        i = i + 1;
    }
    Some(out)
}

fn names_of(values: &Vec<RawExpr>) -> (names: Option<Vec<String>>)
    ensures
        match import_names(values@, 0, Seq::empty()) {
            Some(n) => names matches Some(v) && v@ == n,
            None => names is None,
        },
{
    let mut out: Vec<String> = Vec::new();
    let mut i: usize = 0;
    while i < values.len()
        invariant
            i <= values@.len(),
            import_names(values@, 0, Seq::empty()) == import_names(values@, i as nat, out@),
        decreases values@.len() - i,
    {
        match &values[i] {
            RawExpr::Name(s) => {
                out.push(s.clone());
            },
            _ => {
                return None;
            },
        }
        i = i + 1;
    }
    Some(out)
}

fn set_container(c: Container, meta: &Meta) -> (result: Result<Container, Error>)
    ensures
        container_settled(apply_container(c.model(), *meta), result),
{
    let mut c = c;
    match keyword_of(&meta.name) {
        Some(Keyword::Big) => {
            if meta.values.len() != 0 {
                return Err(Error::Syntax { field: None });
            }
            if c.endian.is_some() {
                return Err(Error::ConflictingDirectives { field: None });
            }
            c.endian = Some(Endian::Big);
            Ok(c)
        },
        Some(Keyword::Little) => {
            if meta.values.len() != 0 {
                return Err(Error::Syntax { field: None });
            }
            if c.endian.is_some() {
                return Err(Error::ConflictingDirectives { field: None });
            }
            c.endian = Some(Endian::Little);
            Ok(c)
        },
        Some(Keyword::Magic) => {
            let bytes = match bytes_of(&meta.values) {
                Some(b) => b,
                None => {
                    return Err(Error::Syntax { field: None });
                },
            };
            if c.magic.len() != 0 {
                return Err(Error::ConflictingDirectives { field: None });
            }
            c.magic = bytes;
            Ok(c)
        },
        Some(Keyword::Import) => {
            let names = match names_of(&meta.values) {
                Some(n) => n,
                None => {
                    return Err(Error::Syntax { field: None });
                },
            };
            if c.imports.len() != 0 {
                return Err(Error::ConflictingDirectives { field: None });
            }
            c.imports = names;
            Ok(c)
        },
        Some(Keyword::Repr) => {
            let name = match name_of(&meta.values) {
                Some(s) => s,
                None => {
                    return Err(Error::Syntax { field: None });
                },
            };
            let t = match int_type_of(name) {
                Some(t) => t,
                None => {
                    return Err(Error::Syntax { field: None });
                },
            };
            if c.repr.is_some() {
                return Err(Error::ConflictingDirectives { field: None });
            }
            c.repr = Some(t);
            Ok(c)
        },
        _ => Err(Error::Syntax { field: None }),
    }
}

fn set_container_metas(c: Container, metas: &Vec<Meta>) -> (result: Result<Container, Error>)
    ensures
        container_settled(container_metas(c.model(), metas@, 0), result),
{
    let ghost start = c.model();
    let mut current = c;
    let mut i: usize = 0;
    while i < metas.len()
        invariant
            i <= metas@.len(),
            start == c.model(),
            container_metas(start, metas@, 0) == container_metas(current.model(), metas@, i as nat),
        decreases metas@.len() - i,
    {
        match set_container(current, &metas[i]) {
            Ok(next) => {
                current = next;
            },
            Err(e) => {
                return Err(e);
            },
        }
        i = i + 1;
    }
    Ok(current)
}

/// Reads what the attributes of a definition, or of a variant, say.
pub fn container_of(attrs: &Vec<Attribute>) -> (result: Result<Container, Error>)
    ensures
        container_settled(container_attrs(bare(), attrs@, 0), result),
{
    let ghost whole = container_attrs(bare(), attrs@, 0);
    let mut c = Container { endian: None, magic: Vec::new(), imports: Vec::new(), repr: None };
    let mut i: usize = 0;
    proof {
        assert(c.model().magic =~= bare().magic);
        assert(c.model().imports =~= bare().imports);
        assert(c.model() == bare());
    }
    while i < attrs.len()
        invariant
            i <= attrs@.len(),
            whole == container_attrs(bare(), attrs@, 0),
            whole == container_attrs(c.model(), attrs@, i as nat),
        decreases attrs@.len() - i,
    {
        if is_binread_attr(&attrs[i]) {
            match set_container_metas(c, &attrs[i].metas) {
                Ok(next) => {
                    c = next;
                },
                Err(e) => {
                    return Err(e);
                },
            }
        }
        i = i + 1;
    }
    Ok(c)
}

/// The fields of a struct or of a variant, in declaration order.
pub open spec fn listed(fields: Fields) -> Seq<FieldDef> {
    match fields {
        Fields::Named(list) => list@,
        Fields::Unnamed(list) => list@,
        Fields::Unit => Seq::empty(),
    }
}

/// The plan of a body with the given magic bytes.
pub open spec fn extract_body(
    fields: Fields,
    magic: Seq<u8>,
    imports: Seq<String>,
    reg: Seq<Input>,
) -> Result<BodyModel, Failure> {
    match extract_fields(listed(fields), 0, Seq::empty(), imports, reg) {
        Ok(fs) => Ok(BodyModel { magic, fields: fs }),
        Err(f) => Err(f),
    }
}

/// The plan of a variant. Of the definition-level directives a variant may
/// carry only `magic`; and it declares a tag exactly where the enum has a
/// tag type.
pub open spec fn extract_variant(
    variant: VariantDef,
    tagged: bool,
    imports: Seq<String>,
    reg: Seq<Input>,
) -> Result<VariantModel, Failure> {
    match container_attrs(bare(), variant.attrs@, 0) {
        Err(f) => Err(f),
        Ok(c) => if c.endian is Some || c.imports.len() != 0 || c.repr is Some || tagged != (
        variant.discriminant is Some) {
            Err(Failure::ConflictingDirectives { field: None })
        } else {
            match extract_body(variant.fields, c.magic, imports, reg) {
                Ok(body) => Ok(VariantModel { discriminant: variant.discriminant, body }),
                Err(f) => Err(f),
            }
        },
    }
}

/// The plans of the variants from `from` on, behind the plans `acc`, in
/// declaration order.
pub open spec fn extract_variants(
    variants: Seq<VariantDef>,
    from: nat,
    acc: Seq<VariantModel>,
    tagged: bool,
    imports: Seq<String>,
    reg: Seq<Input>,
) -> Result<Seq<VariantModel>, Failure>
    decreases variants.len() - from,
{
    if from >= variants.len() {
        Ok(acc)
    } else {
        match extract_variant(variants[from as int], tagged, imports, reg) {
            Ok(v) => extract_variants(variants, from + 1, acc.push(v), tagged, imports, reg),
            Err(f) => Err(f),
        }
    }
}

/// The plan of a definition, or why it has none. A union has none: its
/// shape is not supported. A struct must not declare a tag type, an enum
/// must not declare magic bytes of its own.
pub open spec fn extract(definition: Definition, reg: Seq<Input>) -> Result<InputModel, Failure> {
    match definition.data {
        Data::Union(_) => Err(Failure::UnsupportedShape),
        Data::Struct(fields) => match container_attrs(bare(), definition.attrs@, 0) {
            Err(f) => Err(f),
            Ok(c) => if c.repr is Some {
                Err(Failure::ConflictingDirectives { field: None })
            } else {
                match extract_body(fields, c.magic, c.imports, reg) {
                    Ok(body) => Ok(
                        InputModel {
                            name: definition.ident@,
                            endian: c.endian,
                            args: c.imports.len() as usize,
                            repr: None,
                            shape: ShapeModel::Struct(body),
                        },
                    ),
                    Err(f) => Err(f),
                }
            },
        },
        Data::Enum(variants) => match container_attrs(bare(), definition.attrs@, 0) {
            Err(f) => Err(f),
            Ok(c) => if c.magic.len() != 0 {
                Err(Failure::ConflictingDirectives { field: None })
            } else {
                match extract_variants(
                    variants@,
                    0,
                    Seq::empty(),
                    c.repr is Some,
                    c.imports,
                    reg,
                ) {
                    Ok(vs) => Ok(
                        InputModel {
                            name: definition.ident@,
                            endian: c.endian,
                            args: c.imports.len() as usize,
                            repr: c.repr,
                            shape: ShapeModel::Enum(vs),
                        },
                    ),
                    Err(f) => Err(f),
                }
            },
        },
    }
}

/// Whether `result` is the plan, or the failure, that `spec` says.
pub open spec fn planned(spec: Result<InputModel, Failure>, result: Result<Input, Error>) -> bool {
    match spec {
        Ok(m) => result matches Ok(input) && input.model() == m,
        Err(f) => result matches Err(e) && e@ == f,
    }
}

fn build_body(fields: &Fields, magic: Vec<u8>, imports: &Vec<String>, registry: &Registry) -> (result:
    Result<Body, Error>)
    ensures
        match extract_body(*fields, magic@, imports@, registry.inputs@) {
            Ok(m) => result matches Ok(b) && b.model() == m,
            Err(f) => result matches Err(e) && e@ == f,
        },
{
    let built = match fields {
        Fields::Named(list) => build_fields(list, imports, registry),
        Fields::Unnamed(list) => build_fields(list, imports, registry),
        Fields::Unit => {
            let none: Vec<FieldDef> = Vec::new();
            build_fields(&none, imports, registry)
        },
    };
    match built {
        Ok(fs) => Ok(Body { magic, fields: fs }),
        Err(e) => Err(e),
    }
}

fn build_variant(variant: &VariantDef, tagged: bool, imports: &Vec<String>, registry: &Registry) -> (result:
    Result<Variant, Error>)
    ensures
        match extract_variant(*variant, tagged, imports@, registry.inputs@) {
            Ok(m) => result matches Ok(v) && v.model() == m,
            Err(f) => result matches Err(e) && e@ == f,
        },
{
    let c = match container_of(&variant.attrs) {
        Ok(c) => c,
        Err(e) => {
            return Err(e);
        },
    };
    if c.endian.is_some() || c.imports.len() != 0 || c.repr.is_some() || tagged
        != variant.discriminant.is_some() {
        return Err(Error::ConflictingDirectives { field: None });
    }
    match build_body(&variant.fields, c.magic, imports, registry) {
        Ok(body) => Ok(Variant { discriminant: variant.discriminant, body }),
        Err(e) => Err(e),
    }
}

fn build_variants(
    variants: &Vec<VariantDef>,
    tagged: bool,
    imports: &Vec<String>,
    registry: &Registry,
) -> (result: Result<Vec<Variant>, Error>)
    ensures
        match extract_variants(variants@, 0, Seq::empty(), tagged, imports@, registry.inputs@) {
            Ok(ms) => result matches Ok(vs) && crate::plan::variant_models(vs@) == ms,
            Err(f) => result matches Err(e) && e@ == f,
        },
{
    let ghost whole = extract_variants(
        variants@,
        0,
        Seq::empty(),
        tagged,
        imports@,
        registry.inputs@,
    );
    let mut out: Vec<Variant> = Vec::new();
    let mut i: usize = 0;
    proof {
        assert(crate::plan::variant_models(out@) =~= Seq::<VariantModel>::empty());
    }
    while i < variants.len()
        invariant
            i <= variants@.len(),
            whole == extract_variants(
                variants@,
                0,
                Seq::empty(),
                tagged,
                imports@,
                registry.inputs@,
            ),
            whole == extract_variants(
                variants@,
                i as nat,
                crate::plan::variant_models(out@),
                tagged,
                imports@,
                registry.inputs@,
            ),
        decreases variants@.len() - i,
    {
        match build_variant(&variants[i], tagged, imports, registry) {
            Ok(v) => {
                proof {
                    assert(crate::plan::variant_models(out@.push(v))
                        =~= crate::plan::variant_models(out@).push(v.model()));
                }
                out.push(v);
            },
            Err(e) => {
                return Err(e);
            },
        }
        i = i + 1;
    }
    Ok(out)
}

impl Input {
    /// Compiles a definition into its plan. The types that the definition
    /// nests are looked up in `registry`.
    pub fn from_input(definition: &Definition, registry: &Registry) -> (result: ParseResult<Input>)
        ensures
            planned(extract(*definition, registry.inputs@), result),
    {
        match &definition.data {
            Data::Union(_) => Err(Error::UnsupportedShape),
            Data::Struct(fields) => {
                let c = match container_of(&definition.attrs) {
                    Ok(c) => c,
                    Err(e) => {
                        return Err(e);
                    },
                };
                if c.repr.is_some() {
                    return Err(Error::ConflictingDirectives { field: None });
                }
                let args = c.imports.len();
                match build_body(fields, c.magic, &c.imports, registry) {
                    Ok(body) => Ok(
                        Input {
                            name: definition.ident.clone(),
                            endian: c.endian,
                            args,
                            repr: None,
                            shape: Shape::Struct(body),
                        },
                    ),
                    Err(e) => Err(e),
                }
            },
            Data::Enum(variants) => {
                let c = match container_of(&definition.attrs) {
                    Ok(c) => c,
                    Err(e) => {
                        return Err(e);
                    },
                };
                if c.magic.len() != 0 {
                    return Err(Error::ConflictingDirectives { field: None });
                }
                let args = c.imports.len();
                match build_variants(variants, c.repr.is_some(), &c.imports, registry) {
                    Ok(vs) => Ok(
                        Input {
                            name: definition.ident.clone(),
                            endian: c.endian,
                            args,
                            repr: c.repr,
                            shape: Shape::Enum(vs),
                        },
                    ),
                    Err(e) => Err(e),
                }
            },
        }
    }
}

} // verus!
