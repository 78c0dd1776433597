use std::collections::HashMap;

use nativedocgen::document::TypeDefinition;
use nativedocgen::expr_parser::{expression, reparse};
use nativedocgen::lexer::{identifier, native_hash, number};
use nativedocgen::mapping::{join_comments, native_key_text, to_document_root};
use nativedocgen::model::{Declaration, Expression, FunctionParameterType, Literal};
use nativedocgen::parser::{field_comment, parse_declarations, ExpectedRule};

fn chars(s: &str) -> Vec<char> {
    s.chars().collect()
}

fn same_tree(a: &Expression, b: &Expression) -> bool {
    match (a, b) {
        (Expression::Literal(x), Expression::Literal(y)) => match (x, y) {
            (Literal::Int(p), Literal::Int(q)) => p == q,
            (Literal::Float(p), Literal::Float(q)) => p == q,
            (Literal::Bool(p), Literal::Bool(q)) => p == q,
            (Literal::Hash(p), Literal::Hash(q)) => p == q,
            _ => false,
        },
        (Expression::Identifier(x), Expression::Identifier(y)) => x == y,
        (Expression::Add(a1, a2), Expression::Add(b1, b2))
        | (Expression::Subtract(a1, a2), Expression::Subtract(b1, b2))
        | (Expression::Multiply(a1, a2), Expression::Multiply(b1, b2))
        | (Expression::Divide(a1, a2), Expression::Divide(b1, b2))
        | (Expression::BitOr(a1, a2), Expression::BitOr(b1, b2)) => same_tree(a1, b1) && same_tree(a2, b2),
        (Expression::Parentheses(x), Expression::Parentheses(y)) => same_tree(x, y),
        _ => false,
    }
}

#[test]
fn reparsing_rendered_expression_gives_same_tree() {
    for src in ["(a+b)*c", "a-b-c", "1 | 2 | 3", "x|y*2/( 3 - -1 )", "HASH( \"k\" )+TRUE", "007.500 * false"] {
        let s = chars(src);
        let (e, end) = expression(&s, 0).unwrap();
        assert_eq!(end, s.len(), "{src}");
        let t = chars(&e.to_text());
        let (e2, end2) = expression(&t, 0).unwrap();
        assert_eq!(end2, t.len());
        assert!(same_tree(&e, &e2), "{src}");
    }
}

#[test]
fn expression_text_is_canonical() {
    let s = chars("(a +b)*c|HASH(\"x\")");
    let (e, _) = expression(&s, 0).unwrap();
    assert_eq!(e.to_text(), "(a + b) * c | HASH(\"x\")");
    let s = chars("(a+b)*c");
    let (e, _) = expression(&s, 0).unwrap();
    assert!(matches!(e, Expression::Multiply(ref l, _) if matches!(**l, Expression::Parentheses(ref i) if matches!(**i, Expression::Identifier(ref n) if n == "a+b"))));
}

#[test]
fn int_literal_text() {
    assert_eq!(Expression::Literal(Literal::Int(-2147483648)).to_text(), "-2147483648");
    assert_eq!(Expression::Literal(Literal::Int(0)).to_text(), "0");
    assert_eq!(Literal::Int(42).to_text(), "42");
}

#[test]
fn numbers_are_canonical_decimals() {
    for (src, want) in [("10", "10"), ("007", "7"), ("1.50", "1.5"), ("-0.0", "-0.0"), ("2.0", "2.0"), ("1.000", "1.0"), ("0.25", "0.25")] {
        let s = chars(src);
        let (t, end) = number(&s, 0).unwrap();
        assert_eq!(end, s.len());
        assert_eq!(t, want);
    }
    let s = chars("3.x");
    assert_eq!(number(&s, 0).map(|(t, e)| (t, e)), Some(("3".to_string(), 1)));
}

#[test]
fn booleans_ignore_case() {
    let d = parse_declarations("CONST_BOOL a True\nCONST_BOOL b fAlSe").unwrap();
    let doc = to_document_root(d, &HashMap::new());
    assert_eq!(doc.constants.get("a").unwrap().value, "true");
    assert_eq!(doc.constants.get("b").unwrap().value, "false");
}

#[test]
fn identifier_rules() {
    let s = chars("a.b+c!1 rest");
    assert_eq!(identifier(&s, 0), Some(("a.b+c!1".to_string(), 7)));
    assert_eq!(identifier(&chars("ENDSTRUCT"), 0), None);
    assert_eq!(identifier(&chars("ENDENUM"), 0), None);
    assert_eq!(identifier(&chars("ENDFUNCX"), 0), Some(("ENDFUNCX".to_string(), 8)));
    assert_eq!(identifier(&chars("9a"), 0), None);
}

#[test]
fn native_hash_literal() {
    assert_eq!(native_hash(&chars("\"0xFFFFFFFFFFFFFFFF\""), 0), Some((u64::MAX, 20)));
    assert_eq!(native_hash(&chars("\"0x1FFFFFFFFFFFFFFFF\""), 0), None);
    assert_eq!(native_hash(&chars("\"0xZZ\""), 0), None);
    assert_eq!(native_hash(&chars("\"0xaB\""), 0), Some((0xab, 6)));
}

#[test]
fn native_key_is_sixteen_upper_hex_digits() {
    assert_eq!(native_key_text(0xABCD), "0x000000000000ABCD");
    assert_eq!(native_key_text(0), "0x0000000000000000");
    assert_eq!(native_key_text(0xfedcba9876543210), "0xFEDCBA9876543210");
}

#[test]
fn comment_lines_join_with_crlf() {
    assert_eq!(join_comments(&vec![]), None);
    assert_eq!(join_comments(&vec!["a".to_string()]), Some("a".to_string()));
    assert_eq!(join_comments(&vec!["a".to_string(), " b".to_string()]), Some("a\r\n b".to_string()));
}

#[test]
fn parameter_type_text_order() {
    let t = FunctionParameterType { base_type: "INT".to_string(), is_ref: true, is_array: true };
    assert_eq!(t.to_text(), "INT[]&");
    let t = FunctionParameterType { base_type: "INT".to_string(), is_ref: true, is_array: false };
    assert_eq!(t.to_text(), "INT&");
}

#[test]
fn trailing_comment_policy() {
    assert_eq!(field_comment(Some("a".into()), Some("b".into())), Some("b".to_string()));
    assert_eq!(field_comment(Some("a".into()), None), Some("a".to_string()));
    assert_eq!(field_comment(None, None), None);
}

#[test]
fn native_with_comments_params_and_return_type() {
    let text = "/// first\n// second\nNATIVE DEBUGONLY FUNC FLOAT GET_F(ENTITY_INDEX &e, INT arr[], VARARGS3) = \"0x10\"";
    let mut crossmap = HashMap::new();
    crossmap.insert(0x10u64, 0x10u64);
    let doc = to_document_root(parse_declarations(text).unwrap(), &crossmap);
    let n = doc.natives.get("0x0000000000000010").unwrap();
    assert_eq!(n.name, "GET_F");
    assert_eq!(n.sch_comment.as_deref(), Some(" first\r\n second"));
    assert_eq!(n.return_type, "FLOAT");
    let params: Vec<(&str, &str)> = n.params.iter().map(|p| (p.ty.as_str(), p.name.as_str())).collect();
    assert_eq!(params, vec![("ENTITY_INDEX&", "e"), ("INT[]", "arr"), ("VARARGS3", "VARARGS3")]);
}

#[test]
fn functions_usings_and_comments_leave_no_record() {
    let text = "USING \"globals.sch\"\n// note\nPROC DO_IT(INT a)\n  a = a + 1\nENDPROC\nFUNC INT GET()\n RETURN 1\nENDFUNC";
    let decls = parse_declarations(text).unwrap();
    assert_eq!(decls.len(), 3);
    assert!(matches!(&decls[0], Declaration::Using(u) if u == "globals.sch"));
    match &decls[1] {
        Declaration::Function(f) => {
            assert_eq!(f.comments, vec![" note".to_string()]);
            assert_eq!(f.definition.name, "DO_IT");
            assert_eq!(f.body, "\n  a = a + 1\n");
        }
        _ => panic!("expected a function"),
    }
    let decls2 = parse_declarations("// alone

CONST_INT A 1").unwrap();
    assert!(matches!(&decls2[0], Declaration::Comment(c) if c == " alone"));
    let doc = to_document_root(decls, &HashMap::new());
    assert!(doc.types.is_empty() && doc.constants.is_empty() && doc.natives.is_empty());
}

#[test]
fn native_type_with_alias_and_comment() {
    let doc = to_document_root(parse_declarations("NATIVE PED_INDEX : ENTITY_INDEX // a ped").unwrap(), &HashMap::new());
    match doc.types.get("PED_INDEX").unwrap() {
        TypeDefinition::NativeType { comment, alias_for } => {
            assert_eq!(comment.as_deref(), Some(" a ped"));
            assert_eq!(alias_for.as_deref(), Some("ENTITY_INDEX"));
        }
        _ => panic!("expected a native type"),
    }
}

#[test]
fn parse_error_reports_line_and_column() {
    let e = parse_declarations("CONST_INT A 1\n  STRUCT S\n").err().unwrap();
    assert_eq!((e.line, e.column), (2, 3));
    let e = parse_declarations("???").err().unwrap();
    assert_eq!((e.line, e.column, e.offset), (1, 1, 0));
}

#[test]
fn empty_input_gives_empty_document() {
    let decls = parse_declarations("\r\n\n").unwrap();
    assert!(decls.is_empty());
}

#[test]
fn struct_fields_repeat_keep_first_place() {
    let doc = to_document_root(parse_declarations("STRUCT S\n INT a\n INT b\n FLOAT a\nENDSTRUCT").unwrap(), &HashMap::new());
    match doc.types.get("S").unwrap() {
        TypeDefinition::Struct { fields, comment } => {
            assert_eq!(*comment, None);
            let keys: Vec<&String> = fields.keys().collect();
            assert_eq!(keys, vec!["a", "b"]);
            assert_eq!(fields.get("a").unwrap().typename, "FLOAT");
        }
        _ => panic!("expected a struct"),
    }
}

#[test]
fn reparse_gives_back_parsed_tree() {
    for src in ["a-b*c|d", "((x))", "-1.250 / HASH(\"h\") - FALSE", "v.x+ * w"] {
        let s = chars(src);
        let (e, _) = expression(&s, 0).unwrap();
        let (e2, n) = reparse(&e).unwrap();
        assert_eq!(n, e.to_text().chars().count(), "{src}");
        assert!(same_tree(&e, &e2), "{src}");
    }
    let s = chars("a-b*c|d");
    let (e, _) = expression(&s, 0).unwrap();
    assert_eq!(e.to_text(), "a - b * c | d");
}

#[test]
fn cr_only_line_ends_count_as_lines() {
    let e = parse_declarations("CONST_INT A 1\r  ???").err().unwrap();
    assert_eq!((e.line, e.column), (2, 3));
    let e = parse_declarations("CONST_INT A 1\r\n???").err().unwrap();
    assert_eq!((e.line, e.column), (2, 1));
}

#[test]
fn subtraction_chain_and_parentheses() {
    let decls = parse_declarations("CONST_INT X a - b - (c + d) | e").unwrap();
    match &decls[0] {
        Declaration::Const(c) => {
            assert_eq!(c.name, "X");
            assert_eq!(c.typename, "INT");
            match &c.value {
                Expression::Subtract(l, r) => {
                    assert!(matches!(&**l, Expression::Subtract(a, b)
                        if matches!(&**a, Expression::Identifier(n) if n == "a")
                        && matches!(&**b, Expression::Identifier(n) if n == "b")));
                    match &**r {
                        Expression::BitOr(p, e) => {
                            assert!(matches!(&**p, Expression::Parentheses(_)));
                            assert!(matches!(&**e, Expression::Identifier(n) if n == "e"));
                        }
                        _ => panic!("expected BitOr"),
                    }
                }
                _ => panic!("expected Subtract"),
            }
        }
        _ => panic!("expected a constant"),
    }
}

#[test]
fn native_signature_details() {
    let decls = parse_declarations("// a\n// b\nNATIVE FUNC INT F(VARARGS3, INT& x[]) = \"0xAbC\"").unwrap();
    match &decls[0] {
        Declaration::Native(n) => {
            assert_eq!(n.comments, vec![" a".to_string(), " b".to_string()]);
            assert_eq!(n.native_hash, 0xABC);
            assert_eq!(n.definition.name, "F");
            assert_eq!(n.definition.return_type.as_deref(), Some("INT"));
            let p = &n.definition.params;
            assert_eq!(p.len(), 2);
            assert_eq!(p[0].name, "VARARGS3");
            assert_eq!(p[0].type_.base_type, "VARARGS3");
            assert_eq!(p[1].name, "x");
            assert!(p[1].type_.is_ref && p[1].type_.is_array);
        }
        _ => panic!("expected a native"),
    }
}

#[test]
fn bad_literals_fail_the_file() {
    assert!(parse_declarations("NATIVE PROC F() = \"0x1FFFFFFFFFFFFFFFF\"").is_err());
    assert!(parse_declarations("NATIVE PROC F() = \"0xZZ\"").is_err());
    assert!(parse_declarations("CONST_INT A 1\nSTRUCT S\nINT x\n").is_err());
}

#[test]
fn numerals_without_fraction_are_integers() {
    let decls = parse_declarations("CONST_INT A 10\nCONST_FLOAT F 1.5\nCONST_BOOL B True").unwrap();
    assert!(matches!(&decls[0], Declaration::Const(c) if matches!(c.value, Expression::Literal(Literal::Int(10)))));
    assert!(matches!(&decls[1], Declaration::Const(c) if matches!(&c.value, Expression::Literal(Literal::Float(t)) if t == "1.5")));
    assert!(matches!(&decls[2], Declaration::Const(c) if matches!(c.value, Expression::Literal(Literal::Bool(true)))));
    let decls = parse_declarations("CONST_INT A -2147483648").unwrap();
    assert!(matches!(&decls[0], Declaration::Const(c) if matches!(c.value, Expression::Literal(Literal::Int(-2147483648)))));
}

#[test]
fn integer_overflow_fails_the_file() {
    assert!(parse_declarations("CONST_INT A 99999999999").is_err());
    assert!(parse_declarations("CONST_INT A 2147483648").is_err());
}

#[test]
fn parse_error_names_expected_rules() {
    let e = parse_declarations("CONST_INT A 1\n  STRUCT S\n").err().unwrap();
    assert!(matches!(e.expected.as_slice(), [ExpectedRule::Declaration, ExpectedRule::EndOfInput]));
    let e = parse_declarations("CONST_INT A 1 x").err().unwrap();
    assert!(matches!(e.expected.as_slice(), [ExpectedRule::LineBreak, ExpectedRule::EndOfInput]));
    assert_eq!((e.line, e.column), (1, 15));
}
