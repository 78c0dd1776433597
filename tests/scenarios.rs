use std::collections::HashMap;

use nativedocgen::document::{DocumentRoot, TypeDefinition};
use nativedocgen::expr_parser::expression;
use nativedocgen::mapping::to_document_root;
use nativedocgen::model::{Declaration, Expression, Literal};
use nativedocgen::parser::{collect_declarations, parse_declarations};

fn chars(s: &str) -> Vec<char> {
    s.chars().collect()
}

fn doc(text: &str, crossmap: &HashMap<u64, u64>) -> DocumentRoot {
    let decls = match parse_declarations(text) {
        Ok(d) => d,
        Err(e) => panic!("parse failed at {}:{}", e.line, e.column),
    };
    to_document_root(decls, crossmap)
}

fn lit_value(e: &Expression) -> String {
    e.to_text()
}

#[test]
fn const_with_trailing_comment() {
    let d = doc("CONST_INT kMax 10 // comment", &HashMap::new());
    let c = d.constants.get("kMax").expect("constant");
    assert_eq!(c.comment.as_deref(), Some(" comment"));
    assert_eq!(c.typename, "INT");
    assert_eq!(c.value, "10");
    assert_eq!(d.constants.len(), 1);
    assert!(d.types.is_empty());
    assert!(d.natives.is_empty());
}

#[test]
fn native_resolved_through_crossmap() {
    let mut crossmap = HashMap::new();
    crossmap.insert(0x1234u64, 0xABCDu64);
    let d = doc("NATIVE PROC DO_THING(INT a, BOOL b = TRUE) = \"0x1234\"", &crossmap);
    assert_eq!(d.natives.len(), 1);
    let (key, n) = d.natives.get_index(0).unwrap();
    assert_eq!(key, "0x000000000000ABCD");
    assert_eq!(n.name, "DO_THING");
    assert_eq!(n.sch_comment, None);
    assert_eq!(n.return_type, "void");
    assert_eq!(n.params.len(), 2);
    assert_eq!(n.params[0].ty, "INT");
    assert_eq!(n.params[0].name, "a");
    assert_eq!(n.params[0].default, None);
    assert_eq!(n.params[1].ty, "BOOL");
    assert_eq!(n.params[1].name, "b");
    assert_eq!(n.params[1].default.as_deref(), Some("true"));
}

#[test]
fn unresolved_native_is_left_out() {
    let mut crossmap = HashMap::new();
    crossmap.insert(0x1u64, 0x2u64);
    let d = doc("NATIVE FUNC INT GET_X() = \"0x1234\"", &crossmap);
    assert!(d.natives.is_empty());
}

#[test]
fn hash_enum_values_are_name_hashes() {
    let d = doc("HASH_ENUM\n  MY_ENUM\n  FOO,\n  BAR = 7\nENDENUM", &HashMap::new());
    match d.types.get("MY_ENUM").expect("enum") {
        TypeDefinition::Enum { comment, values } => {
            assert_eq!(*comment, None);
            assert_eq!(values.len(), 2);
            assert_eq!(values.get("FOO").unwrap().value.as_deref(), Some("HASH(\"FOO\")"));
            assert_eq!(values.get("BAR").unwrap().value.as_deref(), Some("HASH(\"BAR\")"));
        }
        _ => panic!("not an enum"),
    }
}

#[test]
fn plain_enum_keeps_written_values() {
    let d = doc("ENUM COLOUR\n  RED = 1,\n  GREEN,\n  BLUE = RED | 4\nENDENUM", &HashMap::new());
    match d.types.get("COLOUR").expect("enum") {
        TypeDefinition::Enum { values, .. } => {
            let keys: Vec<&String> = values.keys().collect();
            assert_eq!(keys, vec!["RED", "GREEN", "BLUE"]);
            assert_eq!(values.get("RED").unwrap().value.as_deref(), Some("1"));
            assert_eq!(values.get("GREEN").unwrap().value, None);
            assert_eq!(values.get("BLUE").unwrap().value.as_deref(), Some("RED | 4"));
        }
        _ => panic!("not an enum"),
    }
}

#[test]
fn struct_field_trailing_comment_wins() {
    let text = "STRUCT POINT\n  // leading\n  INT x // trailing\n  // only leading\n  FLOAT y[3] = 1.50\nENDSTRUCT";
    let d = doc(text, &HashMap::new());
    match d.types.get("POINT").expect("struct") {
        TypeDefinition::Struct { fields, .. } => {
            let x = fields.get("x").unwrap();
            assert_eq!(x.comment.as_deref(), Some(" trailing"));
            assert_eq!(x.typename, "INT");
            let y = fields.get("y").unwrap();
            assert_eq!(y.comment.as_deref(), Some(" only leading"));
            assert_eq!(y.array_size.as_deref(), Some("3"));
            assert_eq!(y.default_value.as_deref(), Some("1.5"));
        }
        _ => panic!("not a struct"),
    }
}

#[test]
fn malformed_file_fails_alone() {
    let good = "CONST_INT A 1";
    let bad = "STRUCT S\n  INT x\n";
    let results = vec![parse_declarations(bad), parse_declarations(good)];
    assert!(results[0].is_err());
    assert!(results[1].is_ok());
    let decls: Vec<Declaration> = collect_declarations(results);
    assert_eq!(decls.len(), 1);
    let d = to_document_root(decls, &HashMap::new());
    assert!(d.constants.get("A").is_some());
    assert!(d.types.is_empty());
}

#[test]
fn operator_tiers() {
    let s = chars("1 + 2 * 3 | 4");
    let (e, end) = expression(&s, 0).unwrap();
    assert_eq!(end, s.len());
    match e {
        Expression::Add(l, r) => {
            assert!(matches!(*l, Expression::Literal(Literal::Int(1))));
            match *r {
                Expression::Multiply(a, b) => {
                    assert!(matches!(*a, Expression::Literal(Literal::Int(2))));
                    match *b {
                        Expression::BitOr(c, d) => {
                            assert!(matches!(*c, Expression::Literal(Literal::Int(3))));
                            assert!(matches!(*d, Expression::Literal(Literal::Int(4))));
                        }
                        _ => panic!("expected BitOr"),
                    }
                }
                _ => panic!("expected Multiply"),
            }
        }
        _ => panic!("expected Add"),
    }
}

#[test]
fn rendering_reparses_to_same_text() {
    for src in ["(a + b) * c", "a - b - c", "x | y * 2 / (3 - -1)", "HASH(\"k\") + TRUE"] {
        let s = chars(src);
        let (e, end) = expression(&s, 0).unwrap();
        assert_eq!(end, s.len());
        let text = lit_value(&e);
        let t = chars(&text);
        let (e2, end2) = expression(&t, 0).unwrap();
        assert_eq!(end2, t.len());
        assert_eq!(e2.to_text(), text);
    }
}

#[test]
fn last_declaration_wins_per_collection() {
    let text = "CONST_INT A 1\nNATIVE A\nCONST_FLOAT A 2.0\nCONST_INT B 3";
    let d = doc(text, &HashMap::new());
    let keys: Vec<&String> = d.constants.keys().collect();
    assert_eq!(keys, vec!["A", "B"]);
    let a = d.constants.get("A").unwrap();
    assert_eq!(a.typename, "FLOAT");
    assert_eq!(a.value, "2.0");
    assert!(matches!(d.types.get("A"), Some(TypeDefinition::NativeType { .. })));
}
