use binrw::definition::{Attribute, Data, Definition, FieldDef, Fields, Meta, RawExpr, VariantDef};
use binrw::derive::derive_from_attribute;
use binrw::expr::BinOp;
use binrw::io::Cursor;
use binrw::plan::Registry;
use binrw::read::read_type;
use binrw::value::Value;
use binrw::write::write_type;
use binrw::{Error, LeafError};

fn meta(name: &str, values: Vec<RawExpr>) -> Meta {
    Meta { name: name.to_string(), values, text: name.to_string() }
}

fn described(name: &str, values: Vec<RawExpr>, text: &str) -> Meta {
    Meta { name: name.to_string(), values, text: text.to_string() }
}

fn br(metas: Vec<Meta>) -> Vec<Attribute> {
    vec![
        Attribute { path: "doc".to_string(), metas: Vec::new() },
        Attribute { path: "br".to_string(), metas },
    ]
}

fn field(name: &str, ty: &str, metas: Vec<Meta>) -> FieldDef {
    FieldDef { vis: String::new(), ident: Some(name.to_string()), ty: ty.to_string(), attrs: br(metas) }
}

fn name(s: &str) -> RawExpr {
    RawExpr::Name(s.to_string())
}

fn binary(op: BinOp, l: RawExpr, r: RawExpr) -> RawExpr {
    RawExpr::Binary(op, Box::new(l), Box::new(r))
}

fn strukt(ident: &str, metas: Vec<Meta>, fields: Vec<FieldDef>) -> Definition {
    Definition { ident: ident.to_string(), attrs: br(metas), data: Data::Struct(Fields::Named(fields)) }
}

fn define(registry: &mut Registry, definition: Definition) -> usize {
    let (_, id) = registry.define(definition);
    id.unwrap()
}

fn write(registry: &Registry, id: usize, value: &Value, big: bool, args: &Vec<u64>) -> Result<Vec<u8>, Error> {
    let mut writer = Cursor::new(Vec::new());
    write_type(registry, id, value, &mut writer, big, args)?;
    Ok(writer.into_inner())
}

fn read(registry: &Registry, id: usize, bytes: &[u8], big: bool, args: &Vec<u64>) -> (Result<Value, Error>, usize) {
    let mut reader = Cursor::new(bytes.to_vec());
    let result = read_type(registry, id, &mut reader, big, args);
    (result, reader.position())
}

fn counted() -> Definition {
    strukt(
        "Counted",
        Vec::new(),
        vec![
            field("len", "u8", vec![meta("temp", Vec::new())]),
            field("items", "u16", vec![meta("count", vec![name("len")])]),
            field("tail", "u8", Vec::new()),
        ],
    )
}

#[test]
fn temporary_count_round_trips() {
    let mut registry = Registry::new();
    let id = define(&mut registry, counted());
    let value = Value::Record(vec![
        Value::List(vec![Value::U16(1), Value::U16(2), Value::U16(0x0304)]),
        Value::U8(9),
    ]);
    let bytes = write(&registry, id, &value, true, &Vec::new()).unwrap();
    assert_eq!(bytes, vec![3, 0, 1, 0, 2, 3, 4, 9]);
    let (back, pos) = read(&registry, id, &bytes, true, &Vec::new());
    assert_eq!(back.unwrap(), value);
    assert_eq!(pos, 8);
}

#[test]
fn temporary_field_is_read_but_not_exposed() {
    let mut registry = Registry::new();
    let id = define(&mut registry, counted());
    let (back, pos) = read(&registry, id, &[1, 0xaa, 0xbb, 7, 0xcc], false, &Vec::new());
    assert_eq!(back.unwrap(), Value::Record(vec![Value::List(vec![Value::U16(0xbbaa)]), Value::U8(7)]));
    assert_eq!(pos, 4);
}

#[test]
fn temporary_field_leaves_the_definition() {
    let registry = Registry::new();
    let expansion = derive_from_attribute(counted(), &registry);
    let plan = expansion.plan.unwrap();
    assert!(plan.is_temp_field(0, 0));
    assert!(!plan.is_temp_field(0, 1));
    assert!(!plan.is_temp_field(0, 2));
    assert!(!plan.is_temp_field(0, 3));
    assert_eq!(expansion.definition.attrs.len(), 1);
    assert_eq!(expansion.definition.attrs[0].path, "doc");
    match expansion.definition.data {
        Data::Struct(Fields::Named(fields)) => {
            assert_eq!(fields.len(), 2);
            assert_eq!(fields[0].ident.as_deref(), Some("items"));
            assert_eq!(fields[0].ty, "u16");
            assert_eq!(fields[0].attrs.len(), 1);
            assert_eq!(fields[0].attrs[0].path, "doc");
            assert_eq!(fields[1].ident.as_deref(), Some("tail"));
        }
        other => panic!("not a struct: {:?}", other),
    }
}

#[test]
fn count_held_against_the_value_on_write() {
    let mut registry = Registry::new();
    let id = define(
        &mut registry,
        strukt(
            "Pair",
            Vec::new(),
            vec![
                field("n", "u8", Vec::new()),
                field("items", "u8", vec![meta("count", vec![name("n")])]),
            ],
        ),
    );
    let good = Value::Record(vec![Value::U8(2), Value::List(vec![Value::U8(5), Value::U8(6)])]);
    assert_eq!(write(&registry, id, &good, true, &Vec::new()).unwrap(), vec![2, 5, 6]);
    let bad = Value::Record(vec![Value::U8(3), Value::List(vec![Value::U8(5), Value::U8(6)])]);
    assert_eq!(
        write(&registry, id, &bad, true, &Vec::new()),
        Err(Error::LeafCodecError(LeafError::WrongCount))
    );
}

#[test]
fn derived_count_must_fit_its_type() {
    let mut registry = Registry::new();
    let id = define(&mut registry, counted());
    let items: Vec<Value> = (0..256).map(|_| Value::U16(0)).collect();
    let value = Value::Record(vec![Value::List(items), Value::U8(0)]);
    assert_eq!(
        write(&registry, id, &value, true, &Vec::new()),
        Err(Error::LeafCodecError(LeafError::OutOfRange))
    );
}

#[test]
fn length_counts_bytes() {
    let mut registry = Registry::new();
    let id = define(
        &mut registry,
        strukt(
            "Sized",
            Vec::new(),
            vec![
                field("size", "u8", vec![meta("temp", Vec::new())]),
                field("items", "u16", vec![meta("length", vec![name("size")])]),
            ],
        ),
    );
    let value = Value::Record(vec![Value::List(vec![Value::U16(0x0102), Value::U16(0x0304)])]);
    let bytes = write(&registry, id, &value, true, &Vec::new()).unwrap();
    assert_eq!(bytes, vec![4, 1, 2, 3, 4]);
    assert_eq!(read(&registry, id, &bytes, true, &Vec::new()).0.unwrap(), value);
    let (odd, pos) = read(&registry, id, &[3, 1, 2, 3], true, &Vec::new());
    assert_eq!(odd, Err(Error::LeafCodecError(LeafError::WrongCount)));
    assert_eq!(pos, 1);
}

#[test]
fn field_order_is_declaration_order() {
    let mut registry = Registry::new();
    let id = define(
        &mut registry,
        strukt(
            "Abc",
            Vec::new(),
            vec![field("a", "u8", Vec::new()), field("b", "u32", Vec::new()), field("c", "u16", Vec::new())],
        ),
    );
    let value = Value::Record(vec![Value::U8(0xaa), Value::U32(0x01020304), Value::U16(0x0506)]);
    assert_eq!(write(&registry, id, &value, true, &Vec::new()).unwrap(), vec![0xaa, 1, 2, 3, 4, 5, 6]);
    assert_eq!(write(&registry, id, &value, false, &Vec::new()).unwrap(), vec![0xaa, 4, 3, 2, 1, 6, 5]);
    for cut in 0..7 {
        let bytes = [0xaa, 1, 2, 3, 4, 5, 6];
        let (result, pos) = read(&registry, id, &bytes[..cut], true, &Vec::new());
        assert_eq!(result, Err(Error::LeafCodecError(LeafError::UnexpectedEof)));
        let reached = if cut < 1 { 0 } else if cut < 5 { 1 } else { 5 };
        assert_eq!(pos, reached);
    }
}

#[test]
fn byte_order_override_is_scoped_to_its_field() {
    let mut registry = Registry::new();
    let id = define(
        &mut registry,
        strukt(
            "Mixed",
            vec![meta("little", Vec::new())],
            vec![
                field("a", "u16", Vec::new()),
                field("b", "u16", vec![meta("big", Vec::new())]),
                field("c", "u16", Vec::new()),
            ],
        ),
    );
    let value = Value::Record(vec![Value::U16(0x0102), Value::U16(0x0304), Value::U16(0x0506)]);
    let bytes = write(&registry, id, &value, true, &Vec::new()).unwrap();
    assert_eq!(bytes, vec![2, 1, 3, 4, 6, 5]);
    assert_eq!(read(&registry, id, &bytes, true, &Vec::new()).0.unwrap(), value);
}

#[test]
fn nested_definition_takes_order_and_arguments() {
    let mut registry = Registry::new();
    let inner = strukt(
        "Inner",
        vec![meta("import", vec![name("limit")])],
        vec![field(
            "x",
            "u16",
            vec![described("assert", vec![binary(BinOp::Lt, RawExpr::This, name("limit"))], "x < limit")],
        )],
    );
    define(&mut registry, inner);
    let outer = strukt(
        "Outer",
        Vec::new(),
        vec![
            field("bound", "u8", Vec::new()),
            field("inner", "Inner", vec![meta("little", Vec::new()), meta("args", vec![name("bound")])]),
            field("after", "u16", Vec::new()),
        ],
    );
    let id = define(&mut registry, outer);
    assert_eq!(id, 1);
    let value = Value::Record(vec![Value::U8(9), Value::Record(vec![Value::U16(8)]), Value::U16(0x0102)]);
    let bytes = write(&registry, id, &value, true, &Vec::new()).unwrap();
    assert_eq!(bytes, vec![9, 8, 0, 1, 2]);
    assert_eq!(read(&registry, id, &bytes, true, &Vec::new()).0.unwrap(), value);
    let (failed, pos) = read(&registry, id, &[8, 8, 0, 1, 2], true, &Vec::new());
    assert_eq!(failed, Err(Error::AssertionFailed { field: 0, description: "x < limit".to_string() }));
    assert_eq!(pos, 3);
}

#[test]
fn condition_skips_the_whole_field() {
    let mut registry = Registry::new();
    let id = define(
        &mut registry,
        strukt(
            "Optional",
            Vec::new(),
            vec![
                field("flag", "u8", Vec::new()),
                field(
                    "extra",
                    "u16",
                    vec![meta("if", vec![binary(BinOp::Ne, name("flag"), RawExpr::Lit(0))]), meta("pad_before", vec![RawExpr::Lit(1)])],
                ),
                field("last", "u8", Vec::new()),
            ],
        ),
    );
    let present = Value::Record(vec![Value::U8(1), Value::U16(0x0a0b), Value::U8(7)]);
    let bytes = write(&registry, id, &present, true, &Vec::new()).unwrap();
    assert_eq!(bytes, vec![1, 0, 0x0a, 0x0b, 7]);
    assert_eq!(read(&registry, id, &bytes, true, &Vec::new()).0.unwrap(), present);
    let absent = Value::Record(vec![Value::U8(0), Value::U16(0), Value::U8(7)]);
    let bytes = write(&registry, id, &absent, true, &Vec::new()).unwrap();
    assert_eq!(bytes, vec![0, 7]);
    assert_eq!(read(&registry, id, &bytes, true, &Vec::new()).0.unwrap(), absent);
    let lossy = Value::Record(vec![Value::U8(0), Value::U16(5), Value::U8(7)]);
    let bytes = write(&registry, id, &lossy, true, &Vec::new()).unwrap();
    assert_eq!(read(&registry, id, &bytes, true, &Vec::new()).0.unwrap(), absent);
}

#[test]
fn padding_and_alignment() {
    let mut registry = Registry::new();
    let id = define(
        &mut registry,
        strukt(
            "Padded",
            Vec::new(),
            vec![
                field("a", "u8", vec![meta("pad_after", vec![RawExpr::Lit(2)])]),
                field("b", "u8", vec![meta("align_before", vec![RawExpr::Lit(4)]), meta("align_after", vec![RawExpr::Lit(8)])]),
                field("c", "u8", vec![meta("pad_before", vec![RawExpr::Lit(1)])]),
            ],
        ),
    );
    let value = Value::Record(vec![Value::U8(1), Value::U8(2), Value::U8(3)]);
    let bytes = write(&registry, id, &value, true, &Vec::new()).unwrap();
    assert_eq!(bytes, vec![1, 0, 0, 0, 2, 0, 0, 0, 0, 3]);
    let noisy = [1, 9, 9, 9, 2, 9, 9, 9, 9, 3, 9];
    let (back, pos) = read(&registry, id, &noisy, true, &Vec::new());
    assert_eq!(back.unwrap(), value);
    assert_eq!(pos, 10);
}

#[test]
fn restore_position_peeks() {
    let mut registry = Registry::new();
    let id = define(
        &mut registry,
        strukt(
            "Peek",
            Vec::new(),
            vec![
                field(
                    "kind",
                    "u8",
                    vec![meta("restore_position", Vec::new()), meta("pad_after", vec![RawExpr::Lit(7)])],
                ),
                field("whole", "u16", Vec::new()),
            ],
        ),
    );
    let (back, pos) = read(&registry, id, &[0x12, 0x34], true, &Vec::new());
    assert_eq!(back.unwrap(), Value::Record(vec![Value::U8(0x12), Value::U16(0x1234)]));
    assert_eq!(pos, 2);
    let value = Value::Record(vec![Value::U8(0xff), Value::U16(0x1234)]);
    let bytes = write(&registry, id, &value, true, &Vec::new()).unwrap();
    assert_eq!(bytes, vec![0x12, 0x34, 0, 0, 0, 0, 0, 0]);
    let (short, pos) = read(&registry, id, &[], true, &Vec::new());
    assert_eq!(short, Err(Error::LeafCodecError(LeafError::UnexpectedEof)));
    assert_eq!(pos, 0);
}

#[test]
fn transforms_map_both_ways() {
    let mut registry = Registry::new();
    let id = define(
        &mut registry,
        strukt(
            "Mapped",
            Vec::new(),
            vec![
                field(
                    "wrapping",
                    "u8",
                    vec![meta(
                        "map",
                        vec![
                            binary(BinOp::Add, RawExpr::This, RawExpr::Lit(1)),
                            binary(BinOp::Sub, RawExpr::This, RawExpr::Lit(1)),
                        ],
                    )],
                ),
                field(
                    "checked",
                    "u8",
                    vec![meta(
                        "try_map",
                        vec![
                            binary(BinOp::Add, RawExpr::This, RawExpr::Lit(1)),
                            binary(BinOp::Sub, RawExpr::This, RawExpr::Lit(1)),
                        ],
                    )],
                ),
            ],
        ),
    );
    let (back, _) = read(&registry, id, &[0xff, 0x10], true, &Vec::new());
    assert_eq!(back.unwrap(), Value::Record(vec![Value::U8(0), Value::U8(0x11)]));
    let (failed, pos) = read(&registry, id, &[0x01, 0xff], true, &Vec::new());
    assert_eq!(failed, Err(Error::MapFailed { field: 1 }));
    assert_eq!(pos, 2);
    let value = Value::Record(vec![Value::U8(0), Value::U8(0x11)]);
    assert_eq!(write(&registry, id, &value, true, &Vec::new()).unwrap(), vec![0xff, 0x10]);
    let zero = Value::Record(vec![Value::U8(5), Value::U8(0)]);
    assert_eq!(write(&registry, id, &zero, true, &Vec::new()), Err(Error::MapFailed { field: 1 }));
}

#[test]
fn assertion_ends_the_read_at_its_field() {
    let mut registry = Registry::new();
    let id = define(
        &mut registry,
        strukt(
            "Checked",
            Vec::new(),
            vec![
                field("a", "u8", Vec::new()),
                field(
                    "b",
                    "u8",
                    vec![
                        described("assert", vec![binary(BinOp::Gt, RawExpr::This, name("a"))], "b > a"),
                        described("assert", vec![binary(BinOp::Lt, RawExpr::This, RawExpr::Lit(10))], "b < 10"),
                    ],
                ),
                field("c", "u32", Vec::new()),
            ],
        ),
    );
    let (ok, pos) = read(&registry, id, &[1, 2, 0, 0, 0, 3], true, &Vec::new());
    assert_eq!(ok.unwrap(), Value::Record(vec![Value::U8(1), Value::U8(2), Value::U32(3)]));
    assert_eq!(pos, 6);
    let (first, pos) = read(&registry, id, &[5, 2, 0, 0, 0, 3], true, &Vec::new());
    assert_eq!(first, Err(Error::AssertionFailed { field: 1, description: "b > a".to_string() }));
    assert_eq!(pos, 2);
    let (second, pos) = read(&registry, id, &[5, 20], true, &Vec::new());
    assert_eq!(second, Err(Error::AssertionFailed { field: 1, description: "b < 10".to_string() }));
    assert_eq!(pos, 2);
    let value = Value::Record(vec![Value::U8(5), Value::U8(2), Value::U32(3)]);
    let mut writer = Cursor::new(Vec::new());
    let result = write_type(&registry, id, &value, &mut writer, true, &Vec::new());
    assert_eq!(result, Err(Error::AssertionFailed { field: 1, description: "b > a".to_string() }));
    assert_eq!(writer.into_inner(), vec![5]);
}

fn shape(tagged: bool) -> Definition {
    let metas = if tagged { vec![meta("repr", vec![name("u8")])] } else { Vec::new() };
    let variant = |ident: &str, tag: u64, magic: u64, fields: Vec<FieldDef>| VariantDef {
        ident: ident.to_string(),
        attrs: if tagged { Vec::new() } else { br(vec![meta("magic", vec![RawExpr::Lit(magic)])]) },
        fields: Fields::Named(fields),
        discriminant: if tagged { Some(tag) } else { None },
    };
    Definition {
        ident: "Shape".to_string(),
        attrs: br(metas),
        data: Data::Enum(vec![
            variant("Circle", 1, 0x43, vec![field("radius", "u8", Vec::new())]),
            variant("Rect", 2, 0x52, vec![field("w", "u8", Vec::new()), field("h", "u8", Vec::new())]),
        ]),
    }
}

#[test]
fn tagged_enum_dispatches_on_its_tag() {
    let mut registry = Registry::new();
    let id = define(&mut registry, shape(true));
    let rect = Value::Variant(1, vec![Value::U8(3), Value::U8(4)]);
    let bytes = write(&registry, id, &rect, true, &Vec::new()).unwrap();
    assert_eq!(bytes, vec![2, 3, 4]);
    assert_eq!(read(&registry, id, &bytes, true, &Vec::new()).0.unwrap(), rect);
    let circle = Value::Variant(0, vec![Value::U8(9)]);
    assert_eq!(write(&registry, id, &circle, true, &Vec::new()).unwrap(), vec![1, 9]);
    let (unknown, pos) = read(&registry, id, &[7, 3, 4], true, &Vec::new());
    assert_eq!(unknown, Err(Error::NoVariantMatched { failures: Vec::new() }));
    assert_eq!(pos, 1);
    let (short, _) = read(&registry, id, &[2, 3], true, &Vec::new());
    assert_eq!(short, Err(Error::LeafCodecError(LeafError::UnexpectedEof)));
}

#[test]
fn trial_enum_tries_in_declaration_order() {
    let mut registry = Registry::new();
    let id = define(&mut registry, shape(false));
    let rect = Value::Variant(1, vec![Value::U8(3), Value::U8(4)]);
    let bytes = write(&registry, id, &rect, true, &Vec::new()).unwrap();
    assert_eq!(bytes, vec![0x52, 3, 4]);
    assert_eq!(read(&registry, id, &bytes, true, &Vec::new()).0.unwrap(), rect);
    let (none, pos) = read(&registry, id, &[0x58, 3, 4], true, &Vec::new());
    assert_eq!(
        none,
        Err(Error::NoVariantMatched {
            failures: vec![
                Error::LeafCodecError(LeafError::BadMagic),
                Error::LeafCodecError(LeafError::BadMagic),
            ],
        })
    );
    assert_eq!(pos, 0);
    let (cut, pos) = read(&registry, id, &[0x52, 3], true, &Vec::new());
    assert_eq!(
        cut,
        Err(Error::NoVariantMatched {
            failures: vec![
                Error::LeafCodecError(LeafError::BadMagic),
                Error::LeafCodecError(LeafError::UnexpectedEof),
            ],
        })
    );
    assert_eq!(pos, 0);
}

#[test]
fn first_of_two_matching_variants_is_selected() {
    let mut registry = Registry::new();
    let plain = |ident: &str, fields: Vec<FieldDef>| VariantDef {
        ident: ident.to_string(),
        attrs: Vec::new(),
        fields: Fields::Named(fields),
        discriminant: None,
    };
    let small = field(
        "x",
        "u8",
        vec![described("assert", vec![binary(BinOp::Lt, RawExpr::This, RawExpr::Lit(10))], "x < 10")],
    );
    let definition = Definition {
        ident: "Either".to_string(),
        attrs: Vec::new(),
        data: Data::Enum(vec![
            plain("Small", vec![small]),
            plain("Any", vec![field("x", "u8", Vec::new())]),
            plain("Wide", vec![field("x", "u16", Vec::new())]),
        ]),
    };
    let id = define(&mut registry, definition);
    let (both, pos) = read(&registry, id, &[5, 6], true, &Vec::new());
    assert_eq!(both.unwrap(), Value::Variant(0, vec![Value::U8(5)]));
    assert_eq!(pos, 1);
    let (second, pos) = read(&registry, id, &[50, 6], true, &Vec::new());
    assert_eq!(second.unwrap(), Value::Variant(1, vec![Value::U8(50)]));
    assert_eq!(pos, 1);
    let wide = Value::Variant(2, vec![Value::U16(0x3206)]);
    let bytes = write(&registry, id, &wide, true, &Vec::new()).unwrap();
    assert_eq!(bytes, vec![50, 6]);
    assert_eq!(read(&registry, id, &bytes, true, &Vec::new()).0.unwrap(), Value::Variant(1, vec![Value::U8(50)]));
}

#[test]
fn magic_is_checked_and_written() {
    let mut registry = Registry::new();
    let id = define(
        &mut registry,
        strukt(
            "Tagged",
            vec![meta("magic", vec![RawExpr::Lit(0x42), RawExpr::Lit(0x4d)])],
            vec![field("x", "u8", Vec::new())],
        ),
    );
    let value = Value::Record(vec![Value::U8(1)]);
    let bytes = write(&registry, id, &value, true, &Vec::new()).unwrap();
    assert_eq!(bytes, vec![0x42, 0x4d, 1]);
    assert_eq!(read(&registry, id, &bytes, true, &Vec::new()).0.unwrap(), value);
    let (bad, pos) = read(&registry, id, &[0x42, 0x4e, 1], true, &Vec::new());
    assert_eq!(bad, Err(Error::LeafCodecError(LeafError::BadMagic)));
    assert_eq!(pos, 0);
}

#[test]
fn values_of_the_wrong_shape_are_refused() {
    let mut registry = Registry::new();
    let id = define(&mut registry, counted());
    let wrong = || Err(Error::LeafCodecError(LeafError::WrongShape));
    assert_eq!(write(&registry, id, &Value::U8(1), true, &Vec::new()), wrong());
    let short = Value::Record(vec![Value::List(Vec::new())]);
    assert_eq!(write(&registry, id, &short, true, &Vec::new()), wrong());
    let long = Value::Record(vec![Value::List(Vec::new()), Value::U8(1), Value::U8(2)]);
    assert_eq!(write(&registry, id, &long, true, &Vec::new()), wrong());
    let typed = Value::Record(vec![Value::List(vec![Value::U8(1)]), Value::U8(1)]);
    assert_eq!(write(&registry, id, &typed, true, &Vec::new()), wrong());
    assert_eq!(
        write(&registry, 5, &Value::Record(Vec::new()), true, &Vec::new()),
        Err(Error::UnresolvedReference { field: None })
    );
    assert_eq!(
        read(&registry, 5, &[], true, &Vec::new()).0,
        Err(Error::UnresolvedReference { field: None })
    );
}
