//! Mapping of parsed declarations to document records, and assembly of the
//! document from a sequence of declarations.
use vstd::prelude::*;
use std::collections::HashMap;
use crate::document::{
    constant_entries, enum_value_entries, native_entries, opt_text, struct_field_entries,
    type_entries, upsert, upsert_all, ConstDefinition, ConstDefinitionView, DocumentRoot,
    DocumentView, EnumValue, EnumValueView, Native, NativeParam, NativeParamView, NativeView,
    StructField, StructFieldView, TypeDefinition, TypeDefinitionView,
};
use crate::model::{
    render, ConstDeclaration, Declaration, EnumDeclaration, EnumField, Expression,
    FunctionParameter, FunctionParameterType, NativeDeclaration, NativeTypeDeclaration,
    StructDeclaration,
};
use crate::model;
use crate::text::{push_str, string_of};
use crate::document::{
    insert_constant, insert_enum_value, insert_native, insert_struct_field, insert_type,
    new_constants, new_enum_values, new_natives, new_struct_fields, new_types,
};

verus! {

pub open spec fn texts(s: Seq<String>) -> Seq<Seq<char>> {
    s.map_values(|c: String| c@)
}

/// Lines joined with a carriage return and line feed between them.
pub open spec fn join_lines(s: Seq<Seq<char>>) -> Seq<char>
    decreases s.len(),
{
    if s.len() == 0 {
        Seq::empty()
    } else if s.len() == 1 {
        s[0]
    } else {
        join_lines(s.drop_last()) + seq!['\r', '\n'] + s.last()
    }
}

/// A comment block as stored in a record: absent when there are no lines.
pub open spec fn joined_comment(cs: Seq<String>) -> Option<Seq<char>> {
    if cs.len() == 0 {
        None
    } else {
        Some(join_lines(texts(cs)))
    }
}

pub open spec fn opt_render(o: Option<Expression>) -> Option<Seq<char>> {
    match o {
        Some(e) => Some(render(e)),
        None => None,
    }
}

/// A parameter type's text: base type, then `[]` for an array, then `&` for
/// a reference.
pub open spec fn param_type_text(t: FunctionParameterType) -> Seq<char> {
    t.base_type@ + (if t.is_array { seq!['[', ']'] } else { Seq::empty() }) + (if t.is_ref {
        seq!['&']
    } else {
        Seq::empty()
    })
}

pub open spec fn native_param_of(p: FunctionParameter) -> NativeParamView {
    NativeParamView { ty: param_type_text(p.type_), name: p.name@, default: opt_render(p.default_value) }
}

pub open spec fn void_text() -> Seq<char> {
    seq!['v', 'o', 'i', 'd']
}

pub open spec fn native_of(d: NativeDeclaration) -> NativeView {
    NativeView {
        name: d.definition.name@,
        sch_comment: joined_comment(d.comments@),
        params: d.definition.params@.map_values(|p: FunctionParameter| native_param_of(p)),
        return_type: match d.definition.return_type {
            Some(t) => t@,
            None => void_text(),
        },
    }
}

pub open spec fn enum_value_of(f: EnumField) -> EnumValueView {
    EnumValueView { comment: opt_text(f.comment), value: opt_render(f.value) }
}

pub open spec fn struct_field_of(f: model::StructField) -> StructFieldView {
    StructFieldView {
        comment: opt_text(f.comment),
        typename: f.typename@,
        array_size: opt_render(f.array_size),
        default_value: opt_render(f.default_value),
    }
}

pub open spec fn enum_type_of(d: EnumDeclaration) -> TypeDefinitionView {
    TypeDefinitionView::Enum {
        comment: joined_comment(d.comments@),
        values: upsert_all(d.values@.map_values(|f: EnumField| (f.name@, enum_value_of(f)))),
    }
}

pub open spec fn struct_type_of(d: StructDeclaration) -> TypeDefinitionView {
    TypeDefinitionView::Struct {
        comment: joined_comment(d.comments@),
        fields: upsert_all(
            d.fields@.map_values(|f: model::StructField| (f.name@, struct_field_of(f))),
        ),
    }
}

pub open spec fn native_type_of(d: NativeTypeDeclaration) -> TypeDefinitionView {
    TypeDefinitionView::NativeType { comment: opt_text(d.comment), alias_for: opt_text(d.alias_for) }
}

pub open spec fn const_of(d: ConstDeclaration) -> ConstDefinitionView {
    ConstDefinitionView { comment: opt_text(d.comment), typename: d.typename@, value: render(d.value) }
}

pub open spec fn hex_char(d: nat) -> char {
    if d < 10 {
        ((d + 48) as u8) as char
    } else {
        ((d + 55) as u8) as char
    }
}

/// The last `count` hexadecimal digits of `n`, upper case, most significant first.
pub open spec fn hex_digits(n: nat, count: nat) -> Seq<char>
    decreases count,
{
    if count == 0 {
        Seq::empty()
    } else {
        hex_digits(n / 16, (count - 1) as nat).push(hex_char(n % 16))
    }
}

/// The key of a native: `0x` and sixteen upper-case hexadecimal digits.
pub open spec fn native_key(h: u64) -> Seq<char> {
    seq!['0', 'x'] + hex_digits(h as nat, 16)
}

pub open spec fn add_declaration(doc: DocumentView, d: Declaration, crossmap: Map<u64, u64>) -> DocumentView {
    match d {
        Declaration::Enum(e) => DocumentView { types: upsert(doc.types, e.name@, enum_type_of(e)), ..doc },
        Declaration::Struct(s) => DocumentView {
            types: upsert(doc.types, s.name@, struct_type_of(s)),
            ..doc
        },
        Declaration::NativeType(t) => DocumentView {
            types: upsert(doc.types, t.name@, native_type_of(t)),
            ..doc
        },
        Declaration::Const(c) => DocumentView {
            constants: upsert(doc.constants, c.name@, const_of(c)),
            ..doc
        },
        Declaration::Native(n) => if crossmap.contains_key(n.native_hash) {
            DocumentView {
                natives: upsert(doc.natives, native_key(crossmap[n.native_hash]), native_of(n)),
                ..doc
            }
        } else {
            doc
        },
        _ => doc,
    }
}

pub open spec fn empty_document() -> DocumentView {
    DocumentView { types: Seq::empty(), constants: Seq::empty(), natives: Seq::empty() }
}

/// The document that folds the declarations in order.
pub open spec fn assemble(decls: Seq<Declaration>, crossmap: Map<u64, u64>) -> DocumentView
    decreases decls.len(),
{
    if decls.len() == 0 {
        empty_document()
    } else {
        add_declaration(assemble(decls.drop_last(), crossmap), decls.last(), crossmap)
    }
}

fn clone_text(o: &Option<String>) -> (r: Option<String>)
    ensures
        opt_text(r) == opt_text(*o),
{
    match o {
        Some(s) => Some(s.clone()),
        None => None,
    }
}

fn render_opt(o: &Option<Expression>) -> (r: Option<String>)
    ensures
        opt_text(r) == opt_render(*o),
{
    match o {
        Some(e) => Some(e.to_text()),
        None => None,
    }
}

/// Joins a comment block's lines with CR LF; `None` when there are none.
pub fn join_comments(cs: &Vec<String>) -> (r: Option<String>)
    ensures
        opt_text(r) == joined_comment(cs@),
{
    if cs.len() == 0 {
        return None;
    }
    let mut out: Vec<char> = Vec::new();
    push_str(&mut out, &cs[0]);
    let mut i: usize = 1;
    proof {
        assert(texts(cs@).take(1) =~= seq![cs@[0]@]);
    }
    while i < cs.len()
        invariant
            1 <= i <= cs@.len(),
            out@ == join_lines(texts(cs@).take(i as int)),
        decreases cs@.len() - i,
    {
        out.push('\r');
        out.push('\n');
        push_str(&mut out, &cs[i]);
        proof {
            let t = texts(cs@).take(i + 1);
            assert(t.drop_last() =~= texts(cs@).take(i as int));
            assert(out@ =~= join_lines(t));
        }
        i = i + 1;
    }
    proof {
        assert(texts(cs@).take(cs@.len() as int) =~= texts(cs@));
    }
    Some(string_of(out.as_slice()))
}

impl FunctionParameterType {
    /// The type's text: base type, `[]` for an array, then `&` for a reference.
    pub fn to_text(&self) -> (r: String)
        ensures
            r@ == param_type_text(*self),
    {
        let mut out: Vec<char> = Vec::new();
        push_str(&mut out, &self.base_type);
        if self.is_array {
            out.push('[');
            out.push(']');
        }
        if self.is_ref {
            out.push('&');
        }
        proof {
            assert(out@ =~= param_type_text(*self));
        }
        string_of(out.as_slice())
    }
}

impl NativeParam {
    pub fn from_parameter(p: &FunctionParameter) -> (r: NativeParam)
        ensures
            r@ == native_param_of(*p),
    {
        NativeParam { ty: p.type_.to_text(), name: p.name.clone(), default: render_opt(&p.default_value) }
    }
}

impl Native {
    pub fn from_declaration(d: &NativeDeclaration) -> (r: Native)
        ensures
            r@ == native_of(*d),
    {
        let ps = &d.definition.params;
        let mut params: Vec<NativeParam> = Vec::new();
        let mut i: usize = 0;
        while i < ps.len()
            invariant
                0 <= i <= ps@.len(),
                params@.len() == i,
                forall|j: int| 0 <= j < i ==> #[trigger] params@[j]@ == native_param_of(ps@[j]),
            decreases ps@.len() - i,
        {
            params.push(NativeParam::from_parameter(&ps[i]));
            i = i + 1;
        }
        let return_type = match &d.definition.return_type {
            Some(t) => t.clone(),
            None => {
                let v: Vec<char> = vec!['v', 'o', 'i', 'd'];
                proof {
                    assert(v@ =~= void_text());
                }
                string_of(v.as_slice())
            },
        };
        let r = Native {
            name: d.definition.name.clone(),
            sch_comment: join_comments(&d.comments),
            params,
            return_type,
        };
        proof {
            assert(r@.params =~= native_of(*d).params);
        }
        r
    }
}

impl EnumValue {
    pub fn from_field(f: &EnumField) -> (r: EnumValue)
        ensures
            r@ == enum_value_of(*f),
    {
        EnumValue { comment: clone_text(&f.comment), value: render_opt(&f.value) }
    }
}

impl StructField {
    pub fn from_field(f: &model::StructField) -> (r: StructField)
        ensures
            r@ == struct_field_of(*f),
    {
        StructField {
            comment: clone_text(&f.comment),
            typename: f.typename.clone(),
            array_size: render_opt(&f.array_size),
            default_value: render_opt(&f.default_value),
        }
    }
}

impl TypeDefinition {
    pub fn from_enum(d: &EnumDeclaration) -> (r: TypeDefinition)
        ensures
            r@ == enum_type_of(*d),
    {
        let ghost pairs = d.values@.map_values(|f: EnumField| (f.name@, enum_value_of(f)));
        let mut values = new_enum_values();
        let mut i: usize = 0;
        while i < d.values.len()
            invariant
                0 <= i <= d.values@.len(),
                pairs == d.values@.map_values(|f: EnumField| (f.name@, enum_value_of(f))),
                enum_value_entries(values) == upsert_all(pairs.take(i as int)),
            decreases d.values@.len() - i,
        {
            let f = &d.values[i];
            insert_enum_value(&mut values, f.name.clone(), EnumValue::from_field(f));
            proof {
                assert(pairs.take(i + 1).drop_last() =~= pairs.take(i as int));
            }
            i = i + 1;
        }
        proof {
            assert(pairs.take(d.values@.len() as int) =~= pairs);
        }
        TypeDefinition::Enum { comment: join_comments(&d.comments), values }
    }

    pub fn from_struct(d: &StructDeclaration) -> (r: TypeDefinition)
        ensures
            r@ == struct_type_of(*d),
    {
        let ghost pairs = d.fields@.map_values(
            |f: model::StructField| (f.name@, struct_field_of(f)),
        );
        let mut fields = new_struct_fields();
        let mut i: usize = 0;
        while i < d.fields.len()
            invariant
                0 <= i <= d.fields@.len(),
                pairs == d.fields@.map_values(|f: model::StructField| (f.name@, struct_field_of(f))),
                struct_field_entries(fields) == upsert_all(pairs.take(i as int)),
            decreases d.fields@.len() - i,
        {
            let f = &d.fields[i];
            insert_struct_field(&mut fields, f.name.clone(), StructField::from_field(f));
            proof {
                assert(pairs.take(i + 1).drop_last() =~= pairs.take(i as int));
            }
            i = i + 1;
        }
        proof {
            assert(pairs.take(d.fields@.len() as int) =~= pairs);
        }
        TypeDefinition::Struct { comment: join_comments(&d.comments), fields }
    }

    pub fn from_native_type(d: &NativeTypeDeclaration) -> (r: TypeDefinition)
        ensures
            r@ == native_type_of(*d),
    {
        TypeDefinition::NativeType { comment: clone_text(&d.comment), alias_for: clone_text(&d.alias_for) }
    }
}

impl ConstDefinition {
    pub fn from_declaration(d: &ConstDeclaration) -> (r: ConstDefinition)
        ensures
            r@ == const_of(*d),
    {
        ConstDefinition { comment: clone_text(&d.comment), typename: d.typename.clone(), value: d.value.to_text() }
    }
}

fn push_hex(out: &mut Vec<char>, n: u64, count: u64)
    ensures
        final(out)@ == old(out)@ + hex_digits(n as nat, count as nat),
    decreases count,
{
    if count > 0 {
        push_hex(out, n / 16, count - 1);
        let d: u8 = (n % 16) as u8;
        let c: char = if d < 10 { (d + 48) as char } else { (d + 55) as char };
        out.push(c);
        proof {
            assert(c == hex_char((n % 16) as nat));
            assert(final(out)@ =~= old(out)@ + hex_digits(n as nat, count as nat));
        }
    } else {
        proof {
            assert(final(out)@ =~= old(out)@ + hex_digits(n as nat, count as nat));
        }
    }
}

/// The document key of a native with canonical hash `h`.
pub fn native_key_text(h: u64) -> (r: String)
    ensures
        r@ == native_key(h),
{
    let mut out: Vec<char> = Vec::new();
    out.push('0');
    out.push('x');
    push_hex(&mut out, h, 16);
    proof {
        assert(out@ =~= native_key(h));
    }
    string_of(out.as_slice())
}

/// The canonical hash that the crossmap gives for a raw hash, if any.
pub fn canonical_hash(crossmap: &HashMap<u64, u64>, raw: u64) -> (r: Option<u64>)
    ensures
        r == (if crossmap@.contains_key(raw) { Some(crossmap@[raw]) } else { None }),
{
    broadcast use vstd::std_specs::hash::group_hash_axioms;
    match crossmap.get(&raw) {
        Some(h) => Some(*h),
        None => None,
    }
}

/// Folds declarations, in order, into a document. Types, constants and
/// natives are separate collections; a later record under a key already
/// present replaces the earlier one in place. A native is keyed by the
/// canonical hash that `crossmap` gives for its raw hash, and is left out
/// when `crossmap` has no entry for it.
pub fn to_document_root(value: Vec<Declaration>, crossmap: &HashMap<u64, u64>) -> (r: DocumentRoot)
    ensures
        r@ == assemble(value@, crossmap@),
{
    let mut types = new_types();
    let mut constants = new_constants();
    let mut natives = new_natives();
    let mut i: usize = 0;
    while i < value.len()
        invariant
            0 <= i <= value@.len(),
            (DocumentView {
                types: type_entries(types),
                constants: constant_entries(constants),
                natives: native_entries(natives),
            }) == assemble(value@.take(i as int), crossmap@),
        decreases value@.len() - i,
    {
        proof {
            assert(value@.take(i + 1).drop_last() =~= value@.take(i as int));
        }
        match &value[i] {
            Declaration::Enum(e) => insert_type(&mut types, e.name.clone(), TypeDefinition::from_enum(e)),
            Declaration::Struct(s) => insert_type(&mut types, s.name.clone(), TypeDefinition::from_struct(s)),
            Declaration::NativeType(t) => insert_type(&mut types, t.name.clone(), TypeDefinition::from_native_type(t)),
            Declaration::Const(c) => insert_constant(&mut constants, c.name.clone(), ConstDefinition::from_declaration(c)),
            Declaration::Native(n) => {
                match canonical_hash(crossmap, n.native_hash) {
                    Some(h) => insert_native(&mut natives, native_key_text(h), Native::from_declaration(n)),
                    None => {},
                }
            },
            _ => {},
        }
        i = i + 1;
    }
    proof {
        assert(value@.take(value@.len() as int) =~= value@);
    }
    DocumentRoot { types, constants, natives }
}

} // verus!
