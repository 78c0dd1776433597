//! The declaration grammar as spec functions: each rule maps a position
//! to what it parses there (as views) and where it stops, or to `None`.
use vstd::prelude::*;
use crate::expr_spec::{expr_view, expression_spec, ExprView};
use crate::lexer::{
    breaks_end, comment_spec, has_at, hash_spec, ident_spec, is_digit, spaces_end, string_spec,
};
use crate::model::{Declaration, EnumField, FunctionDefinition, FunctionParameter, StructField};

verus! {

pub struct ParamView {
    pub name: Seq<char>,
    pub base_type: Seq<char>,
    pub is_ref: bool,
    pub is_array: bool,
    pub default_value: Option<ExprView>,
}

pub struct DefinitionView {
    pub name: Seq<char>,
    pub return_type: Option<Seq<char>>,
    pub params: Seq<ParamView>,
}

pub struct StructFieldView {
    pub name: Seq<char>,
    pub typename: Seq<char>,
    pub array_size: Option<ExprView>,
    pub default_value: Option<ExprView>,
    pub comment: Option<Seq<char>>,
}

pub struct EnumFieldView {
    pub comment: Option<Seq<char>>,
    pub name: Seq<char>,
    pub value: Option<ExprView>,
}

pub enum DeclarationView {
    Enum { comments: Seq<Seq<char>>, name: Seq<char>, values: Seq<EnumFieldView>, is_hash_kind: bool },
    Struct { comments: Seq<Seq<char>>, name: Seq<char>, fields: Seq<StructFieldView> },
    Comment(Seq<char>),
    Using(Seq<char>),
    Function { comments: Seq<Seq<char>>, definition: DefinitionView, body: Seq<char> },
    Native { comments: Seq<Seq<char>>, definition: DefinitionView, native_hash: nat },
    NativeType { name: Seq<char>, alias_for: Option<Seq<char>>, comment: Option<Seq<char>> },
    Const { comment: Option<Seq<char>>, typename: Seq<char>, name: Seq<char>, value: ExprView },
}

// ---------------------------------------------------------------------------
// Views of parsed values

pub open spec fn texts_view(v: Seq<String>) -> Seq<Seq<char>> {
    crate::mapping::texts(v)
}

pub open spec fn opt_view(o: Option<String>) -> Option<Seq<char>> {
    match o {
        Some(t) => Some(t@),
        None => None,
    }
}

pub open spec fn opt_expr_view(o: Option<crate::model::Expression>) -> Option<ExprView> {
    match o {
        Some(e) => Some(expr_view(e)),
        None => None,
    }
}

pub open spec fn param_view(p: FunctionParameter) -> ParamView {
    ParamView {
        name: p.name@,
        base_type: p.type_.base_type@,
        is_ref: p.type_.is_ref,
        is_array: p.type_.is_array,
        default_value: opt_expr_view(p.default_value),
    }
}

pub open spec fn definition_view(d: FunctionDefinition) -> DefinitionView {
    DefinitionView {
        name: d.name@,
        return_type: opt_view(d.return_type),
        params: d.params@.map_values(|p: FunctionParameter| param_view(p)),
    }
}

pub open spec fn struct_field_view(f: StructField) -> StructFieldView {
    StructFieldView {
        name: f.name@,
        typename: f.typename@,
        array_size: opt_expr_view(f.array_size),
        default_value: opt_expr_view(f.default_value),
        comment: opt_view(f.comment),
    }
}

pub open spec fn enum_field_view(f: EnumField) -> EnumFieldView {
    EnumFieldView { comment: opt_view(f.comment), name: f.name@, value: opt_expr_view(f.value) }
}

pub open spec fn declaration_view(d: Declaration) -> DeclarationView {
    match d {
        Declaration::Enum(e) => DeclarationView::Enum {
            comments: texts_view(e.comments@),
            name: e.name@,
            values: e.values@.map_values(|f: EnumField| enum_field_view(f)),
            is_hash_kind: e.is_hash_kind,
        },
        Declaration::Struct(t) => DeclarationView::Struct {
            comments: texts_view(t.comments@),
            name: t.name@,
            fields: t.fields@.map_values(|f: StructField| struct_field_view(f)),
        },
        Declaration::Comment(c) => DeclarationView::Comment(c@),
        Declaration::Using(u) => DeclarationView::Using(u@),
        Declaration::Function(f) => DeclarationView::Function {
            comments: texts_view(f.comments@),
            definition: definition_view(f.definition),
            body: f.body@,
        },
        Declaration::Native(n) => DeclarationView::Native {
            comments: texts_view(n.comments@),
            definition: definition_view(n.definition),
            native_hash: n.native_hash as nat,
        },
        Declaration::NativeType(t) => DeclarationView::NativeType {
            name: t.name@,
            alias_for: opt_view(t.alias_for),
            comment: opt_view(t.comment),
        },
        Declaration::Const(c) => DeclarationView::Const {
            comment: opt_view(c.comment),
            typename: c.typename@,
            name: c.name@,
            value: expr_view(c.value),
        },
    }
}

// ---------------------------------------------------------------------------
// Small rules

pub open spec fn keyword_spec(s: Seq<char>, pos: int, t: Seq<char>) -> Option<int> {
    if has_at(s, pos, t) { Some(pos + t.len()) } else { None }
}

pub open spec fn char_spec(s: Seq<char>, pos: int, c: char) -> Option<int> {
    if 0 <= pos < s.len() && s[pos] == c { Some(pos + 1) } else { None }
}

pub open spec fn one_line_end_spec(s: Seq<char>, pos: int) -> Option<int> {
    if 0 <= pos < s.len() && s[pos] == '\n' {
        Some(pos + 1)
    } else if 0 <= pos && pos + 1 < s.len() && s[pos] == '\r' && s[pos + 1] == '\n' {
        Some(pos + 2)
    } else {
        None
    }
}

pub open spec fn breaks_spec(s: Seq<char>, pos: int) -> Option<int> {
    if breaks_end(s, pos) > pos { Some(breaks_end(s, pos)) } else { None }
}

/// Line breaks if any; else the position itself.
pub open spec fn opt_breaks(s: Seq<char>, pos: int) -> int {
    if breaks_end(s, pos) > pos { breaks_end(s, pos) } else { pos }
}

/// The text of the comment at `pos` and its end.
pub open spec fn comment_text(s: Seq<char>, pos: int) -> Option<(Seq<char>, int)> {
    match comment_spec(s, pos) {
        Some((a, e)) => Some((s.subrange(a, e), e)),
        None => None,
    }
}

pub open spec fn ident_text(s: Seq<char>, pos: int) -> Option<(Seq<char>, int)> {
    match ident_spec(s, pos) {
        Some(e) => Some((s.subrange(pos, e), e)),
        None => None,
    }
}

/// More comment lines after a comment that ends at `p`.
pub open spec fn comments_rest(s: Seq<char>, p: int) -> (Seq<Seq<char>>, int)
    decreases s.len() - p,
{
    if !(0 <= p <= s.len()) {
        (Seq::empty(), p)
    } else {
        match one_line_end_spec(s, p) {
            Some(q) => match comment_text(s, spaces_end(s, q)) {
                Some((t, e)) => if p < e <= s.len() {
                    (seq![t] + comments_rest(s, e).0, comments_rest(s, e).1)
                } else {
                    (Seq::empty(), p)
                },
                None => (Seq::empty(), p),
            },
            None => (Seq::empty(), p),
        }
    }
}

/// A comment block: comment lines, each on its own line.
pub open spec fn comments_spec(s: Seq<char>, pos: int) -> (Seq<Seq<char>>, int) {
    match comment_text(s, pos) {
        Some((t, e)) => (seq![t] + comments_rest(s, e).0, comments_rest(s, e).1),
        None => (Seq::empty(), pos),
    }
}

pub open spec fn leading_comments_spec(s: Seq<char>, pos: int) -> (Seq<Seq<char>>, int) {
    let (cs, p) = comments_spec(s, pos);
    match one_line_end_spec(s, p) {
        Some(q) => (cs, q),
        None => (cs, p),
    }
}

pub open spec fn join_crlf(s: Seq<Seq<char>>) -> Seq<char> {
    crate::mapping::join_lines(s)
}

// ---------------------------------------------------------------------------
// Signatures

pub open spec fn varargs_spec(s: Seq<char>, pos: int) -> Option<(ParamView, int)> {
    match keyword_spec(s, pos, seq!['V', 'A', 'R', 'A', 'R', 'G', 'S']) {
        Some(p) => {
            let e = if p < s.len() && is_digit(s[p]) { p + 1 } else { p };
            let t = s.subrange(pos, e);
            Some((ParamView { name: t, base_type: t, is_ref: false, is_array: false, default_value: None }, e))
        },
        None => None,
    }
}

/// An optional `= expression`.
pub open spec fn default_spec(s: Seq<char>, pos: int) -> (Option<ExprView>, int) {
    match char_spec(s, pos, '=') {
        Some(q) => match expression_spec(s, spaces_end(s, q)) {
            Some((e, end)) => (Some(e), end),
            None => (None, pos),
        },
        None => (None, pos),
    }
}

pub open spec fn parameter_spec(s: Seq<char>, pos: int) -> Option<(ParamView, int)> {
    match ident_text(s, pos) {
        Some((base_type, p1)) => {
            let p2 = spaces_end(s, p1);
            let is_ref = char_spec(s, p2, '&') is Some;
            let p3 = spaces_end(s, if is_ref { p2 + 1 } else { p2 });
            match ident_text(s, p3) {
                Some((name, p4)) => {
                    let p5 = spaces_end(s, p4);
                    let is_array = has_at(s, p5, seq!['[', ']']);
                    let p6 = spaces_end(s, if is_array { p5 + 2 } else { p5 });
                    let (dv, p7) = default_spec(s, p6);
                    Some((ParamView { name, base_type, is_ref, is_array, default_value: dv }, p7))
                },
                None => None,
            }
        },
        None => None,
    }
}

pub open spec fn param_or_varargs_spec(s: Seq<char>, pos: int) -> Option<(ParamView, int)> {
    match parameter_spec(s, pos) {
        Some(x) => Some(x),
        None => varargs_spec(s, pos),
    }
}

/// More parameters after one that ends at `p`.
pub open spec fn params_rest(s: Seq<char>, p: int) -> (Seq<ParamView>, int)
    decreases s.len() - p,
{
    if !(0 <= p <= s.len()) {
        (Seq::empty(), p)
    } else {
        let q = spaces_end(s, opt_breaks(s, p));
        match char_spec(s, q, ',') {
            Some(q1) => match param_or_varargs_spec(s, opt_breaks(s, spaces_end(s, q1))) {
                Some((x, e)) => if p < e <= s.len() {
                    (seq![x] + params_rest(s, e).0, params_rest(s, e).1)
                } else {
                    (Seq::empty(), p)
                },
                None => (Seq::empty(), p),
            },
            None => (Seq::empty(), p),
        }
    }
}

pub open spec fn parameters_spec(s: Seq<char>, pos: int) -> Option<(Seq<ParamView>, int)> {
    match char_spec(s, pos, '(') {
        Some(p0) => {
            let p = spaces_end(s, p0);
            let (ps, p2) = match param_or_varargs_spec(s, p) {
                Some((x, e)) => (seq![x] + params_rest(s, e).0, params_rest(s, e).1),
                None => (Seq::empty(), p),
            };
            match char_spec(s, spaces_end(s, p2), ')') {
                Some(end) => Some((ps, end)),
                None => None,
            }
        },
        None => None,
    }
}

pub open spec fn definition_spec(s: Seq<char>, pos: int) -> Option<(DefinitionView, int)> {
    let p = match keyword_spec(s, pos, seq!['D', 'E', 'B', 'U', 'G', 'O', 'N', 'L', 'Y']) {
        Some(q) => q,
        None => pos,
    };
    let p = spaces_end(s, p);
    let proc_form = match keyword_spec(s, p, seq!['P', 'R', 'O', 'C']) {
        Some(q) => match ident_text(s, spaces_end(s, q)) {
            Some((name, q2)) => match parameters_spec(s, spaces_end(s, q2)) {
                Some((params, end)) => Some((DefinitionView { name, return_type: None, params }, end)),
                None => None,
            },
            None => None,
        },
        None => None,
    };
    if proc_form is Some {
        proc_form
    } else {
        match keyword_spec(s, p, seq!['F', 'U', 'N', 'C']) {
            Some(q) => match ident_text(s, spaces_end(s, q)) {
                Some((rt, q2)) => match ident_text(s, spaces_end(s, q2)) {
                    Some((name, q3)) => match parameters_spec(s, spaces_end(s, q3)) {
                        Some((params, end)) => Some((DefinitionView { name, return_type: Some(rt), params }, end)),
                        None => None,
                    },
                    None => None,
                },
                None => None,
            },
            None => None,
        }
    }
}

// ---------------------------------------------------------------------------
// Structs

/// The comment kept for a struct field: the trailing one if there is one.
pub open spec fn pick_comment(leading: Option<Seq<char>>, trailing: Option<Seq<char>>) -> Option<Seq<char>> {
    if trailing is Some { trailing } else { leading }
}

pub open spec fn struct_field_spec(s: Seq<char>, pos: int) -> Option<(StructFieldView, int)> {
    let p0 = spaces_end(s, pos);
    let (cs, q) = comments_spec(s, p0);
    let (leading, p1) = if breaks_end(s, q) > q { (Some(join_crlf(cs)), breaks_end(s, q)) } else { (None, p0) };
    match ident_text(s, spaces_end(s, p1)) {
        Some((typename, p2)) => match ident_text(s, spaces_end(s, p2)) {
            Some((name, p3)) => {
                let p4 = spaces_end(s, p3);
                let sized = match char_spec(s, p4, '[') {
                    Some(q1) => match expression_spec(s, q1) {
                        Some((e, q2)) => match char_spec(s, q2, ']') {
                            Some(q3) => Some((e, q3)),
                            None => None,
                        },
                        None => None,
                    },
                    None => None,
                };
                let (array_size, p5) = match sized {
                    Some((e, q3)) => (Some(e), q3),
                    None => (None, p4),
                };
                let (dv, p6) = default_spec(s, spaces_end(s, p5));
                let p7 = spaces_end(s, p6);
                let (trailing, end) = match comment_text(s, p7) {
                    Some((t, e)) => (Some(t), e),
                    None => (None, p7),
                };
                Some((StructFieldView { name, typename, array_size, default_value: dv, comment: pick_comment(leading, trailing) }, end))
            },
            None => None,
        },
        None => None,
    }
}

pub open spec fn fields_rest(s: Seq<char>, p: int) -> (Seq<StructFieldView>, int)
    decreases s.len() - p,
{
    if !(0 <= p <= s.len()) {
        (Seq::empty(), p)
    } else {
        match breaks_spec(s, p) {
            Some(q) => match struct_field_spec(s, q) {
                Some((f, e)) => if p < e <= s.len() {
                    (seq![f] + fields_rest(s, e).0, fields_rest(s, e).1)
                } else {
                    (Seq::empty(), p)
                },
                None => (Seq::empty(), p),
            },
            None => (Seq::empty(), p),
        }
    }
}

pub open spec fn struct_spec(s: Seq<char>, pos: int) -> Option<(DeclarationView, int)> {
    let (comments, p0) = leading_comments_spec(s, pos);
    match keyword_spec(s, spaces_end(s, p0), seq!['S', 'T', 'R', 'U', 'C', 'T']) {
        Some(p1) => match ident_text(s, spaces_end(s, p1)) {
            Some((name, p2)) => match breaks_spec(s, p2) {
                Some(p3) => {
                    let (fields, p4) = match struct_field_spec(s, p3) {
                        Some((f, e)) => (seq![f] + fields_rest(s, e).0, fields_rest(s, e).1),
                        None => (Seq::empty(), p3),
                    };
                    match breaks_spec(s, p4) {
                        Some(p5) => match keyword_spec(s, p5, seq!['E', 'N', 'D', 'S', 'T', 'R', 'U', 'C', 'T']) {
                            Some(end) => Some((DeclarationView::Struct { comments, name, fields }, end)),
                            None => None,
                        },
                        None => None,
                    }
                },
                None => None,
            },
            None => None,
        },
        None => None,
    }
}

// ---------------------------------------------------------------------------
// Enumerations

/// Comments and line breaks, any number of each.
pub open spec fn layout_spec(s: Seq<char>, p: int) -> int
    decreases s.len() - p,
{
    if !(0 <= p <= s.len()) {
        p
    } else {
        match comment_spec(s, p) {
            Some((_, e)) => if p < e <= s.len() {
                layout_spec(s, e)
            } else {
                p
            },
            None => if p < breaks_end(s, p) <= s.len() {
                layout_spec(s, breaks_end(s, p))
            } else {
                p
            },
        }
    }
}

pub open spec fn enum_field_spec(s: Seq<char>, pos: int) -> Option<(EnumFieldView, int)> {
    let (comment, p) = match comment_text(s, pos) {
        Some((t, e)) => match breaks_spec(s, e) {
            Some(q) => (Some(t), q),
            None => (None, pos),
        },
        None => (None, pos),
    };
    match ident_text(s, p) {
        Some((name, p1)) => {
            let valued = match char_spec(s, spaces_end(s, p1), '=') {
                Some(q) => expression_spec(s, spaces_end(s, q)),
                None => None,
            };
            match valued {
                Some((e, end)) => Some((EnumFieldView { comment, name, value: Some(e) }, end)),
                None => Some((EnumFieldView { comment, name, value: None }, p1)),
            }
        },
        None => None,
    }
}

pub open spec fn enum_fields_rest(s: Seq<char>, p: int) -> (Seq<EnumFieldView>, int)
    decreases s.len() - p,
{
    if !(0 <= p <= s.len()) {
        (Seq::empty(), p)
    } else {
        let q = spaces_end(s, layout_spec(s, spaces_end(s, p)));
        match char_spec(s, q, ',') {
            Some(q1) => match enum_field_spec(s, spaces_end(s, layout_spec(s, q1))) {
                Some((f, e)) => if p < e <= s.len() {
                    (seq![f] + enum_fields_rest(s, e).0, enum_fields_rest(s, e).1)
                } else {
                    (Seq::empty(), p)
                },
                None => (Seq::empty(), p),
            },
            None => (Seq::empty(), p),
        }
    }
}

pub open spec fn enum_content_spec(s: Seq<char>, pos: int) -> Option<(Seq<char>, Seq<EnumFieldView>, int)> {
    match ident_text(s, opt_breaks(s, pos)) {
        Some((name, p1)) => {
            let p = spaces_end(s, layout_spec(s, spaces_end(s, p1)));
            let (fields, p2) = match enum_field_spec(s, p) {
                Some((f, e)) => (seq![f] + enum_fields_rest(s, e).0, enum_fields_rest(s, e).1),
                None => (Seq::empty(), p),
            };
            Some((name, fields, layout_spec(s, spaces_end(s, p2))))
        },
        None => None,
    }
}

/// A hash-keyed field: its value is the hash literal of its name.
pub open spec fn hashed_field(f: EnumFieldView) -> EnumFieldView {
    EnumFieldView { value: Some(ExprView::Lit(crate::expr_spec::LitView::Hash(f.name))), ..f }
}

pub open spec fn enum_spec(s: Seq<char>, pos: int) -> Option<(DeclarationView, int)> {
    let (comments, p0) = leading_comments_spec(s, pos);
    let p = spaces_end(s, p0);
    let kind: Option<(bool, int)> = match keyword_spec(s, p, seq!['E', 'N', 'U', 'M']) {
        Some(q) => Some((false, q)),
        None => match keyword_spec(s, p, seq!['H', 'A', 'S', 'H', '_', 'E', 'N', 'U', 'M']) {
            Some(q) => Some((true, q)),
            None => match keyword_spec(s, p, seq!['S', 'T', 'R', 'I', 'C', 'T', '_', 'E', 'N', 'U', 'M']) {
                Some(q) => Some((false, q)),
                None => None,
            },
        },
    };
    match kind {
        Some((is_hash_kind, q)) => match enum_content_spec(s, q) {
            Some((name, values, p2)) => match keyword_spec(s, p2, seq!['E', 'N', 'D', 'E', 'N', 'U', 'M']) {
                Some(end) => Some((DeclarationView::Enum {
                    comments,
                    name,
                    values: if is_hash_kind { values.map_values(|f: EnumFieldView| hashed_field(f)) } else { values },
                    is_hash_kind,
                }, end)),
                None => None,
            },
            None => None,
        },
        None => None,
    }
}

// ---------------------------------------------------------------------------
// The other declarations

pub open spec fn using_spec(s: Seq<char>, pos: int) -> Option<(DeclarationView, int)> {
    match keyword_spec(s, pos, seq!['U', 'S', 'I', 'N', 'G']) {
        Some(p0) => {
            let p = spaces_end(s, p0);
            match string_spec(s, p) {
                Some(end) => Some((DeclarationView::Using(s.subrange(p + 1, end - 1)), end)),
                None => None,
            }
        },
        None => None,
    }
}

pub open spec fn native_spec(s: Seq<char>, pos: int) -> Option<(DeclarationView, int)> {
    let (comments, p0) = leading_comments_spec(s, pos);
    match keyword_spec(s, p0, seq!['N', 'A', 'T', 'I', 'V', 'E']) {
        Some(p1) => match definition_spec(s, spaces_end(s, p1)) {
            Some((definition, p2)) => match char_spec(s, spaces_end(s, p2), '=') {
                Some(p3) => match hash_spec(s, spaces_end(s, p3)) {
                    Some((native_hash, end)) => Some((DeclarationView::Native { comments, definition, native_hash }, end)),
                    None => None,
                },
                None => None,
            },
            None => None,
        },
        None => None,
    }
}

pub open spec fn native_type_spec(s: Seq<char>, pos: int) -> Option<(DeclarationView, int)> {
    match keyword_spec(s, pos, seq!['N', 'A', 'T', 'I', 'V', 'E']) {
        Some(p0) => match ident_text(s, spaces_end(s, p0)) {
            Some((name, p1)) => {
                let p2 = spaces_end(s, p1);
                let aliased = match char_spec(s, p2, ':') {
                    Some(q) => ident_text(s, spaces_end(s, q)),
                    None => None,
                };
                let (alias_for, p3) = match aliased {
                    Some((a, e)) => (Some(a), e),
                    None => (None, p2),
                };
                let p4 = spaces_end(s, p3);
                let (comment, end) = match comment_text(s, p4) {
                    Some((t, e)) => (Some(t), e),
                    None => (None, p4),
                };
                Some((DeclarationView::NativeType { name, alias_for, comment }, end))
            },
            None => None,
        },
        None => None,
    }
}

/// The first position from `p` where `ENDFUNC` or `ENDPROC` stands, or the end.
pub open spec fn body_end(s: Seq<char>, p: int) -> int
    decreases s.len() - p,
{
    if !(0 <= p < s.len()) {
        if p < 0 { 0 } else { p }
    } else if crate::parser::function_end_at(s, p) {
        p
    } else {
        body_end(s, p + 1)
    }
}

pub open spec fn function_spec(s: Seq<char>, pos: int) -> Option<(DeclarationView, int)> {
    let (comments, p0) = leading_comments_spec(s, pos);
    match definition_spec(s, p0) {
        Some((definition, p)) => {
            let i = body_end(s, p);
            if i == p || i >= s.len() {
                None
            } else {
                Some((DeclarationView::Function { comments, definition, body: s.subrange(p, i) }, i + 7))
            }
        },
        None => None,
    }
}

pub open spec fn const_spec(s: Seq<char>, pos: int) -> Option<(DeclarationView, int)> {
    match keyword_spec(s, pos, seq!['C', 'O', 'N', 'S', 'T', '_']) {
        Some(p0) => match ident_text(s, p0) {
            Some((typename, p1)) => match ident_text(s, spaces_end(s, p1)) {
                Some((name, p2)) => match expression_spec(s, spaces_end(s, p2)) {
                    Some((value, p3)) => {
                        let p4 = spaces_end(s, p3);
                        let (comment, end) = match comment_text(s, p4) {
                            Some((t, e)) => (Some(t), e),
                            None => (None, p4),
                        };
                        Some((DeclarationView::Const { comment, typename, name, value }, end))
                    },
                    None => None,
                },
                None => None,
            },
            None => None,
        },
        None => None,
    }
}

/// One declaration: the forms in their fixed order, the first that matches.
pub open spec fn declaration_spec(s: Seq<char>, pos: int) -> Option<(DeclarationView, int)> {
    if using_spec(s, pos) is Some {
        using_spec(s, pos)
    } else if native_spec(s, pos) is Some {
        native_spec(s, pos)
    } else if native_type_spec(s, pos) is Some {
        native_type_spec(s, pos)
    } else if function_spec(s, pos) is Some {
        function_spec(s, pos)
    } else if struct_spec(s, pos) is Some {
        struct_spec(s, pos)
    } else if enum_spec(s, pos) is Some {
        enum_spec(s, pos)
    } else if const_spec(s, pos) is Some {
        const_spec(s, pos)
    } else {
        match comment_text(s, pos) {
            Some((t, e)) => Some((DeclarationView::Comment(t), e)),
            None => None,
        }
    }
}

pub open spec fn declarations_rest(s: Seq<char>, p: int) -> (Seq<DeclarationView>, int)
    decreases s.len() - p,
{
    if !(0 <= p <= s.len()) {
        (Seq::empty(), p)
    } else {
        match breaks_spec(s, p) {
            Some(q) => match declaration_spec(s, q) {
                Some((d, e)) => if p < e <= s.len() {
                    (seq![d] + declarations_rest(s, e).0, declarations_rest(s, e).1)
                } else {
                    (Seq::empty(), p)
                },
                None => (Seq::empty(), p),
            },
            None => (Seq::empty(), p),
        }
    }
}

/// Declarations separated by line breaks, from the start of the text, and
/// where they stop (before any trailing line breaks).
pub open spec fn file_spec(s: Seq<char>) -> (Seq<DeclarationView>, int) {
    let p = opt_breaks(s, 0);
    match declaration_spec(s, p) {
        Some((d, e)) => (seq![d] + declarations_rest(s, e).0, declarations_rest(s, e).1),
        None => (Seq::empty(), p),
    }
}

/// The whole text is declarations and line breaks.
pub open spec fn file_parses(s: Seq<char>) -> bool {
    opt_breaks(s, file_spec(s).1) == s.len()
}

/// The declarations of a text that parses.
pub open spec fn file_decls(s: Seq<char>) -> Seq<DeclarationView> {
    file_spec(s).0
}

} // verus!
