use binrw::definition::{Attribute, Data, Definition, FieldDef, Fields, Meta, RawExpr};
use binrw::derive::{derive_from_attribute, derive_from_input};
use binrw::io::Cursor;
use binrw::plan::Registry;
use binrw::value::Value;
use binrw::write::Bound;
use binrw::{BinReaderExt, BinWriterExt, Endian, Error, ReadOptions};

fn positional(ty: &str) -> FieldDef {
    FieldDef { vis: String::new(), ident: None, ty: ty.to_string(), attrs: Vec::new() }
}

fn my_struct() -> Definition {
    Definition {
        ident: "MyStruct".to_string(),
        attrs: Vec::new(),
        data: Data::Struct(Fields::Unnamed(vec![positional("u8"), positional("u16"), positional("u8")])),
    }
}

fn union_foo(with_attribute: bool) -> Definition {
    let attrs = if with_attribute {
        vec![Attribute {
            path: "br".to_string(),
            metas: vec![Meta { name: "big".to_string(), values: Vec::new(), text: "big".to_string() }],
        }]
    } else {
        Vec::new()
    };
    Definition {
        ident: "Foo".to_string(),
        attrs,
        data: Data::Union(vec![FieldDef {
            vis: String::new(),
            ident: Some("a".to_string()),
            ty: "i32".to_string(),
            attrs: vec![Attribute {
                path: "br".to_string(),
                metas: vec![Meta {
                    name: "pad_before".to_string(),
                    values: vec![RawExpr::Lit(1)],
                    text: "pad_before = 1".to_string(),
                }],
            }],
        }]),
    }
}

#[test]
fn three_fields_big_then_u16_little() {
    let mut registry = Registry::new();
    let (_, id) = registry.define(my_struct());
    let id = id.unwrap();
    let value = Value::Record(vec![Value::U8(1), Value::U16(0xffff), Value::U8(2)]);

    let mut writer = Cursor::new(Vec::new());
    writer.write_be(&Bound { registry: &registry, id, value: &value }).unwrap();
    writer.write_type(&0x1234_u16, Endian::Little).unwrap();
    let bytes = writer.into_inner();
    assert_eq!(bytes, vec![0x01, 0xff, 0xff, 0x02, 0x34, 0x12]);

    let mut reader = Cursor::new(bytes);
    let first = registry.read_options(id, &mut reader, &ReadOptions::new(Endian::Big), &Vec::new()).unwrap();
    match first {
        Value::Record(fields) => {
            assert_eq!(fields.len(), 3);
            assert!(matches!(fields[0], Value::U8(1)));
            assert!(matches!(fields[1], Value::U16(0xffff)));
            assert!(matches!(fields[2], Value::U8(2)));
        }
        other => panic!("not a record: {:?}", other),
    }
    assert_eq!(reader.position(), 4);
    let second: u16 = reader.read_type(Endian::Little).unwrap();
    assert_eq!(second, 0x1234);
    assert_eq!(reader.position(), 6);
}

#[test]
fn three_fields_little_differ_from_big() {
    let mut registry = Registry::new();
    let (_, id) = registry.define(my_struct());
    let id = id.unwrap();
    let value = Value::Record(vec![Value::U8(1), Value::U16(0x1234), Value::U8(2)]);
    let mut writer = Cursor::new(Vec::new());
    writer.write_le(&Bound { registry: &registry, id, value: &value }).unwrap();
    assert_eq!(writer.into_inner(), vec![0x01, 0x34, 0x12, 0x02]);
}

#[test]
fn union_is_rejected_by_the_bare_derive() {
    let registry = Registry::new();
    let result = derive_from_input(&union_foo(false), &registry);
    assert!(matches!(result, Err(Error::UnsupportedShape)));
}

#[test]
fn union_is_rejected_by_the_attribute_form() {
    let registry = Registry::new();
    let expansion = derive_from_attribute(union_foo(true), &registry);
    assert!(matches!(expansion.plan, Err(Error::UnsupportedShape)));
    assert_eq!(expansion.definition.ident, "Foo");
    assert!(expansion.definition.attrs.is_empty());
    match expansion.definition.data {
        Data::Union(members) => {
            assert_eq!(members.len(), 1);
            assert_eq!(members[0].ident.as_deref(), Some("a"));
            assert!(members[0].attrs.is_empty());
        }
        other => panic!("not a union: {:?}", other),
    }
}

#[test]
fn union_is_not_added_to_the_registry() {
    let mut registry = Registry::new();
    let (_, id) = registry.define(union_foo(true));
    assert!(matches!(id, Err(Error::UnsupportedShape)));
    assert_eq!(registry.len(), 0);
}
