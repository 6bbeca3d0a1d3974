use binrw::definition::{Attribute, Data, Definition, FieldDef, Fields, Meta, RawExpr, VariantDef};
use binrw::derive::{derive_from_attribute, derive_from_input};
use binrw::directive::FieldType;
use binrw::expr::{BinOp, Expr};
use binrw::plan::{Input, Registry, Shape};
use binrw::value::IntType;
use binrw::{Endian, Error};

fn meta(name: &str, values: Vec<RawExpr>) -> Meta {
    Meta { name: name.to_string(), values, text: name.to_string() }
}

fn attr(path: &str, metas: Vec<Meta>) -> Attribute {
    Attribute { path: path.to_string(), metas }
}

fn field(name: &str, ty: &str, metas: Vec<Meta>) -> FieldDef {
    FieldDef { vis: String::new(), ident: Some(name.to_string()), ty: ty.to_string(), attrs: vec![attr("br", metas)] }
}

fn name(s: &str) -> RawExpr {
    RawExpr::Name(s.to_string())
}

fn strukt(metas: Vec<Meta>, fields: Vec<FieldDef>) -> Definition {
    Definition { ident: "S".to_string(), attrs: vec![attr("binread", metas)], data: Data::Struct(Fields::Named(fields)) }
}

fn plan(definition: Definition) -> Result<Input, Error> {
    derive_from_input(&definition, &Registry::new())
}

fn one(metas: Vec<Meta>) -> Result<Input, Error> {
    plan(strukt(Vec::new(), vec![field("a", "u8", Vec::new()), field("b", "u8", metas)]))
}

#[test]
fn plan_holds_what_the_directives_say() {
    let definition = strukt(
        vec![meta("big", Vec::new()), meta("import", vec![name("x"), name("y")]), meta("magic", vec![RawExpr::Lit(1)])],
        vec![
            field("n", "u16", vec![meta("temp", Vec::new()), meta("little", Vec::new())]),
            field(
                "items",
                "u32",
                vec![
                    meta("count", vec![name("n")]),
                    meta("if", vec![RawExpr::Binary(BinOp::Eq, Box::new(name("y")), Box::new(name("n")))]),
                    meta("pad_before", vec![RawExpr::Lit(3)]),
                    meta("align_before", vec![RawExpr::Lit(4)]),
                ],
            ),
        ],
    );
    let input = plan(definition).unwrap();
    assert_eq!(input.name, "S");
    assert_eq!(input.endian, Some(Endian::Big));
    assert_eq!(input.args, 2);
    assert_eq!(input.repr, None);
    match input.shape {
        Shape::Struct(body) => {
            assert_eq!(body.magic, vec![1]);
            assert_eq!(body.fields.len(), 2);
            assert_eq!(body.fields[0].ty, FieldType::Int(IntType::U16));
            assert!(body.fields[0].directive.temporary);
            assert_eq!(body.fields[0].directive.endian_override, Some(Endian::Little));
            let d = &body.fields[1].directive;
            assert_eq!(body.fields[1].ty, FieldType::Int(IntType::U32));
            assert_eq!(d.count_source, Some(0));
            assert_eq!(d.length_source, None);
            assert_eq!(d.pad_before, 3);
            assert_eq!(d.align_before, 4);
            assert_eq!(d.pad_after, 0);
            assert!(!d.temporary);
            assert!(!d.restore_position);
            assert_eq!(
                d.condition,
                Some(Expr::Binary(BinOp::Eq, Box::new(Expr::Arg(1)), Box::new(Expr::Field(0))))
            );
        }
        other => panic!("not a struct: {:?}", other),
    }
}

#[test]
fn attributes_of_others_are_passed_over() {
    let mut definition = strukt(Vec::new(), vec![field("a", "u8", Vec::new())]);
    definition.attrs.insert(0, attr("derive", vec![meta("nonsense", vec![RawExpr::This])]));
    let expansion = derive_from_attribute(definition, &Registry::new());
    assert!(expansion.plan.is_ok());
    assert_eq!(expansion.definition.attrs, vec![attr("derive", vec![meta("nonsense", vec![RawExpr::This])])]);
}

#[test]
fn unknown_directive_is_a_syntax_error() {
    assert_eq!(one(vec![meta("bigg", Vec::new())]), Err(Error::Syntax { field: Some(1) }));
    assert_eq!(one(vec![meta("magic", vec![RawExpr::Lit(1)])]), Err(Error::Syntax { field: Some(1) }));
    assert_eq!(
        plan(strukt(vec![meta("temp", Vec::new())], Vec::new())),
        Err(Error::Syntax { field: None })
    );
}

#[test]
fn malformed_values_are_syntax_errors() {
    assert_eq!(one(vec![meta("big", vec![RawExpr::Lit(1)])]), Err(Error::Syntax { field: Some(1) }));
    assert_eq!(one(vec![meta("pad_before", Vec::new())]), Err(Error::Syntax { field: Some(1) }));
    assert_eq!(one(vec![meta("pad_before", vec![name("a")])]), Err(Error::Syntax { field: Some(1) }));
    assert_eq!(one(vec![meta("count", vec![RawExpr::Lit(2)])]), Err(Error::Syntax { field: Some(1) }));
    assert_eq!(one(vec![meta("if", Vec::new())]), Err(Error::Syntax { field: Some(1) }));
    assert_eq!(one(vec![meta("map", vec![RawExpr::This])]), Err(Error::Syntax { field: Some(1) }));
    assert_eq!(
        plan(strukt(vec![meta("magic", vec![RawExpr::Lit(256)])], Vec::new())),
        Err(Error::Syntax { field: None })
    );
    assert_eq!(
        plan(strukt(vec![meta("repr", vec![name("i8")])], Vec::new())),
        Err(Error::Syntax { field: None })
    );
    assert_eq!(
        plan(strukt(vec![meta("import", vec![RawExpr::Lit(1)])], Vec::new())),
        Err(Error::Syntax { field: None })
    );
}

#[test]
fn forward_references_do_not_resolve() {
    let unresolved = Err(Error::UnresolvedReference { field: Some(1) });
    assert_eq!(one(vec![meta("count", vec![name("b")])]), unresolved);
    assert_eq!(one(vec![meta("count", vec![name("c")])]), unresolved);
    assert_eq!(one(vec![meta("if", vec![name("b")])]), unresolved);
    assert_eq!(one(vec![meta("if", vec![RawExpr::This])]), unresolved);
    assert_eq!(one(vec![meta("args", vec![RawExpr::Lit(1), name("zz")])]), unresolved);
    assert_eq!(one(vec![meta("assert", vec![name("later")])]), unresolved);
    assert!(one(vec![meta("assert", vec![RawExpr::This])]).is_ok());
    assert!(one(vec![meta("if", vec![name("a")])]).is_ok());
    let later = plan(strukt(
        Vec::new(),
        vec![field("a", "u8", vec![meta("count", vec![name("b")])]), field("b", "u8", Vec::new())],
    ));
    assert_eq!(later, Err(Error::UnresolvedReference { field: Some(0) }));
}

#[test]
fn unknown_type_does_not_resolve() {
    let definition = strukt(Vec::new(), vec![field("a", "u8", Vec::new()), field("b", "Missing", Vec::new())]);
    assert_eq!(plan(definition), Err(Error::UnresolvedReference { field: Some(1) }));
    let itself = strukt(Vec::new(), vec![field("a", "S", Vec::new())]);
    assert_eq!(plan(itself), Err(Error::UnresolvedReference { field: Some(0) }));
}

#[test]
fn directives_that_exclude_each_other_conflict() {
    let conflict = Err(Error::ConflictingDirectives { field: Some(1) });
    assert_eq!(one(vec![meta("big", Vec::new()), meta("little", Vec::new())]), conflict);
    assert!(one(vec![meta("big", Vec::new()), meta("big", Vec::new())]).is_ok());
    assert_eq!(one(vec![meta("count", vec![name("a")]), meta("length", vec![name("a")])]), conflict);
    assert_eq!(one(vec![meta("count", vec![name("a")]), meta("count", vec![name("a")])]), conflict);
    assert_eq!(one(vec![meta("restore_position", Vec::new()), meta("count", vec![name("a")])]), conflict);
    assert!(one(vec![meta("restore_position", Vec::new()), meta("pad_after", vec![RawExpr::Lit(1)])]).is_ok());
    assert_eq!(one(vec![meta("temp", Vec::new()), meta("count", vec![name("a")])]), conflict);
    assert_eq!(one(vec![meta("pad_before", vec![RawExpr::Lit(1)]), meta("pad_before", vec![RawExpr::Lit(2)])]), conflict);
    assert_eq!(one(vec![meta("if", vec![name("a")]), meta("if", vec![name("a")])]), conflict);
    assert_eq!(
        one(vec![
            meta("map", vec![RawExpr::This, RawExpr::This]),
            meta("try_map", vec![RawExpr::This, RawExpr::This]),
        ]),
        conflict
    );
    assert_eq!(
        one(vec![meta("map", vec![RawExpr::This, RawExpr::This]), meta("count", vec![name("a")])]),
        conflict
    );
    assert_eq!(
        plan(strukt(vec![meta("big", Vec::new()), meta("little", Vec::new())], Vec::new())),
        Err(Error::ConflictingDirectives { field: None })
    );
    assert_eq!(
        plan(strukt(vec![meta("repr", vec![name("u8")])], Vec::new())),
        Err(Error::ConflictingDirectives { field: None })
    );
}

#[test]
fn nested_fields_have_no_default_and_no_transform() {
    let mut registry = Registry::new();
    let (_, id) = registry.define(strukt(Vec::new(), vec![field("x", "u8", Vec::new())]));
    assert_eq!(id, Ok(0));
    let with = |metas: Vec<Meta>| {
        let definition = Definition {
            ident: "Outer".to_string(),
            attrs: Vec::new(),
            data: Data::Struct(Fields::Named(vec![field("a", "u8", Vec::new()), field("b", "S", metas)])),
        };
        derive_from_input(&definition, &registry)
    };
    let conflict = Err(Error::ConflictingDirectives { field: Some(1) });
    assert_eq!(with(vec![meta("if", vec![name("a")])]), conflict);
    assert_eq!(with(vec![meta("temp", Vec::new())]), conflict);
    assert_eq!(with(vec![meta("try_map", vec![RawExpr::This, RawExpr::This])]), conflict);
    let counted = with(vec![meta("if", vec![name("a")]), meta("count", vec![name("a")])]).unwrap();
    match counted.shape {
        Shape::Struct(body) => assert_eq!(body.fields[1].ty, FieldType::Nested(0)),
        other => panic!("not a struct: {:?}", other),
    }
}

#[test]
fn enum_tags_are_all_or_none() {
    let variant = |tag: Option<u64>, attrs: Vec<Attribute>| VariantDef {
        ident: "V".to_string(),
        attrs,
        fields: Fields::Unit,
        discriminant: tag,
    };
    let enumeration = |metas: Vec<Meta>, variants: Vec<VariantDef>| Definition {
        ident: "E".to_string(),
        attrs: vec![attr("br", metas)],
        data: Data::Enum(variants),
    };
    let conflict = Err(Error::ConflictingDirectives { field: None });
    let repr = || vec![meta("repr", vec![name("u16")])];
    assert_eq!(plan(enumeration(repr(), vec![variant(Some(1), Vec::new()), variant(None, Vec::new())])), conflict);
    assert_eq!(plan(enumeration(Vec::new(), vec![variant(Some(1), Vec::new())])), conflict);
    assert_eq!(plan(enumeration(vec![meta("magic", vec![RawExpr::Lit(1)])], Vec::new())), conflict);
    assert_eq!(
        plan(enumeration(Vec::new(), vec![variant(None, vec![attr("br", vec![meta("big", Vec::new())])])])),
        conflict
    );
    let tagged = plan(enumeration(repr(), vec![variant(Some(1), Vec::new()), variant(Some(2), Vec::new())])).unwrap();
    assert_eq!(tagged.repr, Some(IntType::U16));
    match tagged.shape {
        Shape::Enum(variants) => {
            assert_eq!(variants.len(), 2);
            assert_eq!(variants[1].discriminant, Some(2));
        }
        other => panic!("not an enum: {:?}", other),
    }
}

#[test]
fn temporary_fields_of_a_variant_leave_that_variant() {
    let variant = |ident: &str, fields: Vec<FieldDef>| VariantDef {
        ident: ident.to_string(),
        attrs: vec![attr("br", vec![meta("magic", vec![RawExpr::Lit(7)])]), attr("doc", Vec::new())],
        fields: Fields::Named(fields),
        discriminant: None,
    };
    let definition = Definition {
        ident: "E".to_string(),
        attrs: Vec::new(),
        data: Data::Enum(vec![
            variant("A", vec![field("x", "u8", Vec::new()), field("y", "u8", vec![meta("temp", Vec::new())])]),
            variant("B", vec![field("x", "u8", vec![meta("temp", Vec::new())]), field("y", "u8", Vec::new())]),
        ]),
    };
    let expansion = derive_from_attribute(definition, &Registry::new());
    let input = expansion.plan.unwrap();
    assert!(!input.is_temp_field(0, 0));
    assert!(input.is_temp_field(0, 1));
    assert!(input.is_temp_field(1, 0));
    assert!(!input.is_temp_field(1, 1));
    assert!(!input.is_temp_field(2, 0));
    match expansion.definition.data {
        Data::Enum(variants) => {
            assert_eq!(variants[0].attrs, vec![attr("doc", Vec::new())]);
            match (&variants[0].fields, &variants[1].fields) {
                (Fields::Named(a), Fields::Named(b)) => {
                    assert_eq!(a.len(), 1);
                    assert_eq!(a[0].ident.as_deref(), Some("x"));
                    assert!(a[0].attrs.is_empty());
                    assert_eq!(b.len(), 1);
                    assert_eq!(b[0].ident.as_deref(), Some("y"));
                }
                other => panic!("not named: {:?}", other),
            }
        }
        other => panic!("not an enum: {:?}", other),
    }
}

#[test]
fn without_a_plan_all_fields_stay() {
    let definition = strukt(
        Vec::new(),
        vec![field("a", "u8", vec![meta("temp", Vec::new())]), field("b", "u8", vec![meta("oops", Vec::new())])],
    );
    let expansion = derive_from_attribute(definition, &Registry::new());
    assert_eq!(expansion.plan, Err(Error::Syntax { field: Some(1) }));
    match expansion.definition.data {
        Data::Struct(Fields::Named(fields)) => {
            assert_eq!(fields.len(), 2);
            assert_eq!(fields[0].attrs.len(), 1);
            assert_eq!(fields[1].attrs.len(), 1);
        }
        other => panic!("not a struct: {:?}", other),
    }
    assert!(expansion.definition.attrs.is_empty());
}
