//! The declaration grammar: ordered alternatives over a character vector,
//! each returning what it parsed and where it stopped.
use vstd::prelude::*;
use crate::expr_parser::expression;
use crate::lexer::{
    all_in, comment, has_at, hex_value, identifier, is_hex_digit, line_breaks, lit, native_hash,
    one_line_end, skip_spaces, string_literal,
};
use crate::mapping::join_comments;
use crate::model::{
    ConstDeclaration, Declaration, EnumDeclaration, EnumField, Expression, FunctionDeclaration,
    FunctionDefinition, FunctionParameter, FunctionParameterType, Literal, NativeDeclaration,
    NativeTypeDeclaration, StructDeclaration, StructField,
};
use crate::text::string_of;
use crate::grammar_spec::{
    body_end, const_spec, declaration_spec, declaration_view, declarations_rest, enum_content_spec,
    enum_field_spec, enum_field_view, enum_fields_rest, enum_spec, fields_rest, file_decls,
    file_parses, file_spec, function_spec, hashed_field, join_crlf, layout_spec, native_spec,
    native_type_spec, struct_field_spec, struct_field_view, struct_spec, using_spec, EnumFieldView,
    StructFieldView, DeclarationView,
    comments_rest, comments_spec, default_spec, definition_spec, definition_view, keyword_spec,
    leading_comments_spec, opt_breaks, opt_expr_view, param_or_varargs_spec, param_view,
    parameter_spec, parameters_spec, params_rest, texts_view, varargs_spec,
};

verus! {

/// The keyword `t` at `pos`, and the position after it.
fn keyword(s: &Vec<char>, pos: usize, t: &[char]) -> (r: Option<usize>)
    requires
        pos <= s@.len(),
    ensures
        match r {
            Some(end) => end == pos + t@.len() && end <= s@.len(),
            None => true,
        },
        match r {
            Some(end) => keyword_spec(s@, pos as int, t@) == Some(end as int),
            None => keyword_spec(s@, pos as int, t@) is None,
        },
{
    let n = s.len();
    if lit(s, pos, t) {
        Some(pos + t.len())
    } else {
        None
    }
}

/// The character `c` at `pos`, and the position after it.
fn char_at(s: &Vec<char>, pos: usize, c: char) -> (r: Option<usize>)
    requires
        pos <= s@.len(),
    ensures
        match r {
            Some(end) => end == pos + 1 && end <= s@.len() && s@[pos as int] == c,
            None => pos == s@.len() || s@[pos as int] != c,
        },
{
    if pos < s.len() && s[pos] == c {
        Some(pos + 1)
    } else {
        None
    }
}

/// A block of comment lines, each on its own line, possibly indented.
pub fn comments(s: &Vec<char>, pos: usize) -> (r: (Vec<String>, usize))
    requires
        pos <= s@.len(),
    ensures
        pos <= r.1 <= s@.len(),
        r.0@.len() == 0 ==> r.1 == pos,
        comments_spec(s@, pos as int) == (texts_view(r.0@), r.1 as int),
{
    let mut v: Vec<String> = Vec::new();
    let mut p = match comment(s, pos) {
        Some((t, e)) => {
            v.push(t);
            e
        },
        None => {
            proof {
                assert(texts_view(v@) =~= Seq::<Seq<char>>::empty());
            }
            return (v, pos);
        },
    };
    proof {
        assert(texts_view(v@) =~= seq![v@[0]@]);
    }
    loop
        invariant
            pos <= p <= s@.len(),
            v@.len() > 0,
            comments_spec(s@, pos as int) == (texts_view(v@) + comments_rest(s@, p as int).0, comments_rest(s@, p as int).1),
        ensures
            pos <= p <= s@.len(),
            v@.len() > 0,
            comments_spec(s@, pos as int) == (texts_view(v@), p as int),
        decreases s@.len() - p,
    {
        let q = match one_line_end(s, p) {
            Some(q) => q,
            None => {
                proof {
                    assert(texts_view(v@) + comments_rest(s@, p as int).0 =~= texts_view(v@));
                }
                break;
            },
        };
        let q2 = skip_spaces(s, q);
        match comment(s, q2) {
            Some((t, e)) => {
                proof {
                    assert(texts_view(v@.push(t)) =~= texts_view(v@) + seq![t@]);
                }
                v.push(t);
                p = e;
                proof {
                    assert(texts_view(v@) + comments_rest(s@, p as int).0 =~= texts_view(v@.drop_last()) + (seq![t@] + comments_rest(s@, p as int).0));
                }
            },
            None => {
                proof {
                    assert(texts_view(v@) + comments_rest(s@, p as int).0 =~= texts_view(v@));
                }
                break;
            },
        }
    }
    (v, p)
}

/// A comment block, then at most one line end.
fn leading_comments(s: &Vec<char>, pos: usize) -> (r: (Vec<String>, usize))
    requires
        pos <= s@.len(),
    ensures
        pos <= r.1 <= s@.len(),
        leading_comments_spec(s@, pos as int) == (texts_view(r.0@), r.1 as int),
{
    let (cs, p) = comments(s, pos);
    match one_line_end(s, p) {
        Some(q) => (cs, q),
        None => (cs, p),
    }
}

/// `VARARGS`, optionally followed by one digit.
fn varargs(s: &Vec<char>, pos: usize) -> (r: Option<(FunctionParameter, usize)>)
    requires
        pos <= s@.len(),
    ensures
        match r {
            Some((_, end)) => pos < end <= s@.len(),
            None => true,
        },
        match r {
            Some((x, end)) => varargs_spec(s@, pos as int) == Some((param_view(x), end as int)),
            None => varargs_spec(s@, pos as int) is None,
        },
{
    let mut p = match keyword(s, pos, &['V', 'A', 'R', 'A', 'R', 'G', 'S']) {
        Some(p) => p,
        None => return None,
    };
    if p < s.len() && '0' <= s[p] && s[p] <= '9' {
        p = p + 1;
    }
    let text = string_of(&s.as_slice()[pos..p]);
    proof {
        assert(text@ =~= s@.subrange(pos as int, p as int));
    }
    Some((
        FunctionParameter {
            name: text.clone(),
            type_: FunctionParameterType { base_type: text, is_ref: false, is_array: false },
            default_value: None,
        },
        p,
    ))
}

/// An optional `= expression`; the position is unchanged when there is none.
fn default_value(s: &Vec<char>, pos: usize) -> (r: (Option<Expression>, usize))
    requires
        pos <= s@.len(),
    ensures
        pos <= r.1 <= s@.len(),
        default_spec(s@, pos as int) == (opt_expr_view(r.0), r.1 as int),
{
    match char_at(s, pos, '=') {
        Some(q) => {
            let q2 = skip_spaces(s, q);
            match expression(s, q2) {
                Some((e, end)) => (Some(e), end),
                None => (None, pos),
            }
        },
        None => (None, pos),
    }
}

/// A typed parameter: type, optional `&`, name, optional `[]`, optional default.
fn parameter(s: &Vec<char>, pos: usize) -> (r: Option<(FunctionParameter, usize)>)
    requires
        pos <= s@.len(),
    ensures
        match r {
            Some((_, end)) => pos < end <= s@.len(),
            None => true,
        },
        match r {
            Some((x, end)) => parameter_spec(s@, pos as int) == Some((param_view(x), end as int)),
            None => parameter_spec(s@, pos as int) is None,
        },
{
    let (base_type, p) = match identifier(s, pos) {
        Some(x) => x,
        None => return None,
    };
    let mut p = skip_spaces(s, p);
    let is_ref = match char_at(s, p, '&') {
        Some(q) => {
            p = q;
            true
        },
        None => false,
    };
    let p = skip_spaces(s, p);
    let (name, p) = match identifier(s, p) {
        Some(x) => x,
        None => return None,
    };
    let mut p = skip_spaces(s, p);
    let is_array = match keyword(s, p, &['[', ']']) {
        Some(q) => {
            p = q;
            true
        },
        None => false,
    };
    let p = skip_spaces(s, p);
    let (default_value, p) = default_value(s, p);
    Some((FunctionParameter { name, type_: FunctionParameterType { base_type, is_ref, is_array }, default_value }, p))
}

fn parameter_or_varargs(s: &Vec<char>, pos: usize) -> (r: Option<(FunctionParameter, usize)>)
    requires
        pos <= s@.len(),
    ensures
        match r {
            Some((_, end)) => pos < end <= s@.len(),
            None => true,
        },
        match r {
            Some((x, end)) => param_or_varargs_spec(s@, pos as int) == Some((param_view(x), end as int)),
            None => param_or_varargs_spec(s@, pos as int) is None,
        },
{
    match parameter(s, pos) {
        Some(x) => Some(x),
        None => varargs(s, pos),
    }
}

/// Line breaks if there are any; the position is unchanged otherwise.
fn opt_line_breaks(s: &Vec<char>, pos: usize) -> (end: usize)
    requires
        pos <= s@.len(),
    ensures
        pos <= end <= s@.len(),
        end == opt_breaks(s@, pos as int),
{
    match line_breaks(s, pos) {
        Some(q) => q,
        None => pos,
    }
}

/// A parenthesized parameter list, entries separated by commas.
fn parameters(s: &Vec<char>, pos: usize) -> (r: Option<(Vec<FunctionParameter>, usize)>)
    requires
        pos <= s@.len(),
    ensures
        match r {
            Some((_, end)) => pos < end <= s@.len(),
            None => true,
        },
        match r {
            Some((x, end)) => parameters_spec(s@, pos as int) == Some((x@.map_values(|p: FunctionParameter| param_view(p)), end as int)),
            None => parameters_spec(s@, pos as int) is None,
        },
{
    let p = match char_at(s, pos, '(') {
        Some(p) => p,
        None => return None,
    };
    let mut p = skip_spaces(s, p);
    let mut params: Vec<FunctionParameter> = Vec::new();
    let ghost p_start = p as int;
    let ghost spec_list = match param_or_varargs_spec(s@, p as int) {
        Some((x, e)) => (seq![x] + params_rest(s@, e).0, params_rest(s@, e).1),
        None => (Seq::empty(), p as int),
    };
    if let Some((first, e)) = parameter_or_varargs(s, p) {
        params.push(first);
        p = e;
        proof {
            assert(params@.map_values(|x: FunctionParameter| param_view(x)) =~= seq![param_view(first)]);
        }
        loop
            invariant
                pos < p <= s@.len(),
                spec_list == (params@.map_values(|x: FunctionParameter| param_view(x)) + params_rest(s@, p as int).0, params_rest(s@, p as int).1),
            ensures
                pos < p <= s@.len(),
                spec_list == (params@.map_values(|x: FunctionParameter| param_view(x)), p as int),
            decreases s@.len() - p,
        {
            let q = skip_spaces(s, opt_line_breaks(s, p));
            let q = match char_at(s, q, ',') {
                Some(q) => q,
                None => {
                    proof {
                        assert(params@.map_values(|x: FunctionParameter| param_view(x)) + params_rest(s@, p as int).0 =~= params@.map_values(|x: FunctionParameter| param_view(x)));
                    }
                    break;
                },
            };
            let q = opt_line_breaks(s, skip_spaces(s, q));
            match parameter_or_varargs(s, q) {
                Some((param, e)) => {
                    let ghost old_v = params@.map_values(|x: FunctionParameter| param_view(x));
                    params.push(param);
                    p = e;
                    proof {
                        assert(params@.map_values(|x: FunctionParameter| param_view(x)) =~= old_v + seq![param_view(param)]);
                        assert(params@.map_values(|x: FunctionParameter| param_view(x)) + params_rest(s@, p as int).0 =~= old_v + (seq![param_view(param)] + params_rest(s@, p as int).0));
                    }
                },
                None => {
                    proof {
                        assert(params@.map_values(|x: FunctionParameter| param_view(x)) + params_rest(s@, p as int).0 =~= params@.map_values(|x: FunctionParameter| param_view(x)));
                    }
                    break;
                },
            }
        }
    } else {
        proof {
            assert(params@.map_values(|x: FunctionParameter| param_view(x)) =~= Seq::<crate::grammar_spec::ParamView>::empty());
        }
    }
    let p = skip_spaces(s, p);
    match char_at(s, p, ')') {
        Some(end) => Some((params, end)),
        None => None,
    }
}

/// A signature: an optional `DEBUGONLY`, then `PROC name(...)` or
/// `FUNC returnType name(...)`.
pub fn function_definition(s: &Vec<char>, pos: usize) -> (r: Option<(FunctionDefinition, usize)>)
    requires
        pos <= s@.len(),
    ensures
        match r {
            Some((_, end)) => pos < end <= s@.len(),
            None => true,
        },
        match r {
            Some((d, end)) => definition_spec(s@, pos as int) == Some((definition_view(d), end as int)),
            None => definition_spec(s@, pos as int) is None,
        },
{
    let p = match keyword(s, pos, &['D', 'E', 'B', 'U', 'G', 'O', 'N', 'L', 'Y']) {
        Some(q) => q,
        None => pos,
    };
    let p = skip_spaces(s, p);
    if let Some(q) = keyword(s, p, &['P', 'R', 'O', 'C']) {
        let q = skip_spaces(s, q);
        if let Some((name, q)) = identifier(s, q) {
            let q = skip_spaces(s, q);
            if let Some((params, end)) = parameters(s, q) {
                return Some((FunctionDefinition { name, return_type: None, params }, end));
            }
        }
    }
    let q = match keyword(s, p, &['F', 'U', 'N', 'C']) {
        Some(q) => q,
        None => return None,
    };
    let q = skip_spaces(s, q);
    let (return_type, q) = match identifier(s, q) {
        Some(x) => x,
        None => return None,
    };
    let q = skip_spaces(s, q);
    let (name, q) = match identifier(s, q) {
        Some(x) => x,
        None => return None,
    };
    let q = skip_spaces(s, q);
    match parameters(s, q) {
        Some((params, end)) => Some((FunctionDefinition { name, return_type: Some(return_type), params }, end)),
        None => None,
    }
}

/// Every field's value is the hash literal of the field's own name.
pub open spec fn all_hash_keyed(values: Seq<EnumField>) -> bool {
    forall|i: int| 0 <= i < values.len() ==> (#[trigger] values[i]).value == Some(
        Expression::Literal(Literal::Hash(values[i].name)),
    )
}

fn clone_opt(o: &Option<String>) -> (r: Option<String>)
    ensures
        r == *o,
{
    match o {
        Some(t) => Some(t.clone()),
        None => None,
    }
}

/// The fields of a hash-keyed enumeration: each keeps its name and comment,
/// and its value becomes `HASH("<name>")` whatever was written.
pub fn hash_keyed(fields: &Vec<EnumField>) -> (r: Vec<EnumField>)
    ensures
        r@.len() == fields@.len(),
        all_hash_keyed(r@),
        forall|i: int| 0 <= i < r@.len() ==> (#[trigger] r@[i]).name == fields@[i].name && r@[i].comment == fields@[i].comment,
{
    let mut r: Vec<EnumField> = Vec::new();
    let mut i: usize = 0;
    while i < fields.len()
        invariant
            0 <= i <= fields@.len(),
            r@.len() == i,
            all_hash_keyed(r@),
            forall|j: int| 0 <= j < i ==> (#[trigger] r@[j]).name == fields@[j].name && r@[j].comment == fields@[j].comment,
        decreases fields@.len() - i,
    {
        let f = &fields[i];
        r.push(EnumField {
            comment: clone_opt(&f.comment),
            name: f.name.clone(),
            value: Some(Expression::Literal(Literal::Hash(f.name.clone()))),
        });
        i = i + 1;
    }
    r
}

/// The comment kept for a struct field: the trailing one when there is
/// one, else the leading one.
pub fn field_comment(leading: Option<String>, trailing: Option<String>) -> (r: Option<String>)
    ensures
        r == (if trailing is Some { trailing } else { leading }),
{
    match trailing {
        Some(t) => Some(t),
        None => leading,
    }
}

/// A struct field: optional leading comment block on the lines before it,
/// type, name, optional `[size]`, optional `= default`, optional trailing
/// comment on the same line.
pub fn struct_field(s: &Vec<char>, pos: usize) -> (r: Option<(StructField, usize)>)
    requires
        pos <= s@.len(),
    ensures
        match r {
            Some((_, end)) => pos < end <= s@.len(),
            None => true,
        },
        match r {
            Some((f, end)) => struct_field_spec(s@, pos as int) == Some((struct_field_view(f), end as int)),
            None => struct_field_spec(s@, pos as int) is None,
        },
{
    let p = skip_spaces(s, pos);
    let (cs, q) = comments(s, p);
    let (leading, p) = match line_breaks(s, q) {
        Some(q2) => {
            let text = match join_comments(&cs) {
                Some(t) => t,
                None => String::new(),
            };
            proof {
                assert(text@ == join_crlf(texts_view(cs@)));
            }
            (Some(text), q2)
        },
        None => (None, p),
    };
    let p = skip_spaces(s, p);
    let (typename, p) = match identifier(s, p) {
        Some(x) => x,
        None => return None,
    };
    let p = skip_spaces(s, p);
    let (name, p) = match identifier(s, p) {
        Some(x) => x,
        None => return None,
    };
    let mut p = skip_spaces(s, p);
    let mut array_size: Option<Expression> = None;
    if let Some(q) = char_at(s, p, '[') {
        if let Some((e, q2)) = expression(s, q) {
            if let Some(q3) = char_at(s, q2, ']') {
                array_size = Some(e);
                p = q3;
            }
        }
    }
    let p = skip_spaces(s, p);
    let (default_value, p) = default_value(s, p);
    let p = skip_spaces(s, p);
    let (trailing, p) = match comment(s, p) {
        Some((t, e)) => (Some(t), e),
        None => (None, p),
    };
    Some((StructField { name, typename, array_size, default_value, comment: field_comment(leading, trailing) }, p))
}

/// `STRUCT name`, fields on their own lines, `ENDSTRUCT`.
pub fn struct_declaration(s: &Vec<char>, pos: usize) -> (r: Option<(StructDeclaration, usize)>)
    requires
        pos <= s@.len(),
    ensures
        match r {
            Some((_, end)) => pos < end <= s@.len(),
            None => true,
        },
        match r {
            Some((d, end)) => struct_spec(s@, pos as int) == Some((declaration_view(Declaration::Struct(d)), end as int)),
            None => struct_spec(s@, pos as int) is None,
        },
{
    let (comments, p) = leading_comments(s, pos);
    let p = skip_spaces(s, p);
    let p = match keyword(s, p, &['S', 'T', 'R', 'U', 'C', 'T']) {
        Some(q) => q,
        None => return None,
    };
    let p = skip_spaces(s, p);
    let (name, p) = match identifier(s, p) {
        Some(x) => x,
        None => return None,
    };
    let mut p = match line_breaks(s, p) {
        Some(q) => q,
        None => return None,
    };
    let mut fields: Vec<StructField> = Vec::new();
    let ghost p3 = p as int;
    let ghost spec_list = match struct_field_spec(s@, p3) {
        Some((f, e)) => (seq![f] + fields_rest(s@, e).0, fields_rest(s@, e).1),
        None => (Seq::empty(), p3),
    };
    if let Some((f, e)) = struct_field(s, p) {
        fields.push(f);
        p = e;
        proof {
            assert(fields@.map_values(|x: StructField| struct_field_view(x)) =~= seq![struct_field_view(f)]);
        }
        loop
            invariant
                pos < p <= s@.len(),
                spec_list == (fields@.map_values(|x: StructField| struct_field_view(x)) + fields_rest(s@, p as int).0, fields_rest(s@, p as int).1),
            ensures
                pos < p <= s@.len(),
                spec_list == (fields@.map_values(|x: StructField| struct_field_view(x)), p as int),
            decreases s@.len() - p,
        {
            let q = match line_breaks(s, p) {
                Some(q) => q,
                None => {
                    proof {
                        assert(fields@.map_values(|x: StructField| struct_field_view(x)) + fields_rest(s@, p as int).0 =~= fields@.map_values(|x: StructField| struct_field_view(x)));
                    }
                    break;
                },
            };
            match struct_field(s, q) {
                Some((f, e)) => {
                    let ghost old_v = fields@.map_values(|x: StructField| struct_field_view(x));
                    fields.push(f);
                    p = e;
                    proof {
                        assert(fields@.map_values(|x: StructField| struct_field_view(x)) =~= old_v + seq![struct_field_view(f)]);
                        assert(fields@.map_values(|x: StructField| struct_field_view(x)) + fields_rest(s@, p as int).0 =~= old_v + (seq![struct_field_view(f)] + fields_rest(s@, p as int).0));
                    }
                },
                None => {
                    proof {
                        assert(fields@.map_values(|x: StructField| struct_field_view(x)) + fields_rest(s@, p as int).0 =~= fields@.map_values(|x: StructField| struct_field_view(x)));
                    }
                    break;
                },
            }
        }
    } else {
        proof {
            assert(fields@.map_values(|x: StructField| struct_field_view(x)) =~= Seq::<StructFieldView>::empty());
        }
    }
    let p = match line_breaks(s, p) {
        Some(q) => q,
        None => return None,
    };
    match keyword(s, p, &['E', 'N', 'D', 'S', 'T', 'R', 'U', 'C', 'T']) {
        Some(end) => Some((StructDeclaration { comments, name, fields }, end)),
        None => None,
    }
}

/// Comments and line breaks, any number of each, in any order.
fn layout(s: &Vec<char>, pos: usize) -> (end: usize)
    requires
        pos <= s@.len(),
    ensures
        pos <= end <= s@.len(),
        end == layout_spec(s@, pos as int),
{
    let mut p = pos;
    loop
        invariant
            pos <= p <= s@.len(),
            layout_spec(s@, pos as int) == layout_spec(s@, p as int),
        ensures
            pos <= p <= s@.len(),
            layout_spec(s@, pos as int) == p,
        decreases s@.len() - p,
    {
        if let Some((_, e)) = comment(s, p) {
            if e > p {
                p = e;
                continue;
            }
        }
        match line_breaks(s, p) {
            Some(e) => p = e,
            None => break,
        }
    }
    p
}

/// An enumeration field: optional comment line, name, optional `= value`.
fn enum_field(s: &Vec<char>, pos: usize) -> (r: Option<(EnumField, usize)>)
    requires
        pos <= s@.len(),
    ensures
        match r {
            Some((_, end)) => pos < end <= s@.len(),
            None => true,
        },
        match r {
            Some((f, end)) => enum_field_spec(s@, pos as int) == Some((enum_field_view(f), end as int)),
            None => enum_field_spec(s@, pos as int) is None,
        },
{
    let (comment_text, p) = match comment(s, pos) {
        Some((t, e)) => match line_breaks(s, e) {
            Some(q) => (Some(t), q),
            None => (None, pos),
        },
        None => (None, pos),
    };
    let (name, p) = match identifier(s, p) {
        Some(x) => x,
        None => return None,
    };
    let q = skip_spaces(s, p);
    if let Some(q) = char_at(s, q, '=') {
        let q = skip_spaces(s, q);
        if let Some((e, end)) = expression(s, q) {
            return Some((EnumField { comment: comment_text, name, value: Some(e) }, end));
        }
    }
    Some((EnumField { comment: comment_text, name, value: None }, p))
}

/// Name (on the keyword's line or a later one), then fields separated by commas, with comments and line breaks
/// allowed around them.
fn enum_content(s: &Vec<char>, pos: usize) -> (r: Option<(String, Vec<EnumField>, usize)>)
    requires
        pos <= s@.len(),
    ensures
        match r {
            Some((_, _, end)) => pos < end <= s@.len(),
            None => true,
        },
        match r {
            Some((name, fields, end)) => enum_content_spec(s@, pos as int) == Some((name@, fields@.map_values(|f: EnumField| enum_field_view(f)), end as int)),
            None => enum_content_spec(s@, pos as int) is None,
        },
{
    let p = opt_line_breaks(s, pos);
    let (name, p) = match identifier(s, p) {
        Some(x) => x,
        None => return None,
    };
    let p = skip_spaces(s, p);
    let p = layout(s, p);
    let mut p = skip_spaces(s, p);
    let mut fields: Vec<EnumField> = Vec::new();
    let ghost p3 = p as int;
    let ghost spec_list = match enum_field_spec(s@, p3) {
        Some((f, e)) => (seq![f] + enum_fields_rest(s@, e).0, enum_fields_rest(s@, e).1),
        None => (Seq::empty(), p3),
    };
    if let Some((f, e)) = enum_field(s, p) {
        fields.push(f);
        p = e;
        proof {
            assert(fields@.map_values(|x: EnumField| enum_field_view(x)) =~= seq![enum_field_view(f)]);
        }
        loop
            invariant
                pos < p <= s@.len(),
                spec_list == (fields@.map_values(|x: EnumField| enum_field_view(x)) + enum_fields_rest(s@, p as int).0, enum_fields_rest(s@, p as int).1),
            ensures
                pos < p <= s@.len(),
                spec_list == (fields@.map_values(|x: EnumField| enum_field_view(x)), p as int),
            decreases s@.len() - p,
        {
            let q = skip_spaces(s, layout(s, skip_spaces(s, p)));
            let q = match char_at(s, q, ',') {
                Some(q) => q,
                None => {
                    proof {
                        assert(fields@.map_values(|x: EnumField| enum_field_view(x)) + enum_fields_rest(s@, p as int).0 =~= fields@.map_values(|x: EnumField| enum_field_view(x)));
                    }
                    break;
                },
            };
            let q = skip_spaces(s, layout(s, q));
            match enum_field(s, q) {
                Some((f, e)) => {
                    let ghost old_v = fields@.map_values(|x: EnumField| enum_field_view(x));
                    fields.push(f);
                    p = e;
                    proof {
                        assert(fields@.map_values(|x: EnumField| enum_field_view(x)) =~= old_v + seq![enum_field_view(f)]);
                        assert(fields@.map_values(|x: EnumField| enum_field_view(x)) + enum_fields_rest(s@, p as int).0 =~= old_v + (seq![enum_field_view(f)] + enum_fields_rest(s@, p as int).0));
                    }
                },
                None => {
                    proof {
                        assert(fields@.map_values(|x: EnumField| enum_field_view(x)) + enum_fields_rest(s@, p as int).0 =~= fields@.map_values(|x: EnumField| enum_field_view(x)));
                    }
                    break;
                },
            }
        }
    } else {
        proof {
            assert(fields@.map_values(|x: EnumField| enum_field_view(x)) =~= Seq::<EnumFieldView>::empty());
        }
    }
    let p = skip_spaces(s, p);
    let end = layout(s, p);
    Some((name, fields, end))
}

/// `ENUM`, `HASH_ENUM` or `STRICT_ENUM`, the content, `ENDENUM`. A
/// `HASH_ENUM`'s values are the hashes of the field names.
pub fn enum_declaration(s: &Vec<char>, pos: usize) -> (r: Option<(EnumDeclaration, usize)>)
    requires
        pos <= s@.len(),
    ensures
        match r {
            Some((d, end)) => pos < end <= s@.len() && (d.is_hash_kind ==> all_hash_keyed(d.values@)),
            None => true,
        },
        match r {
            Some((d, end)) => enum_spec(s@, pos as int) == Some((declaration_view(Declaration::Enum(d)), end as int)),
            None => enum_spec(s@, pos as int) is None,
        },
{
    let (comments, p) = leading_comments(s, pos);
    let p = skip_spaces(s, p);
    let (is_hash_kind, p) = if let Some(q) = keyword(s, p, &['E', 'N', 'U', 'M']) {
        (false, q)
    } else if let Some(q) = keyword(s, p, &['H', 'A', 'S', 'H', '_', 'E', 'N', 'U', 'M']) {
        (true, q)
    } else if let Some(q) = keyword(s, p, &['S', 'T', 'R', 'I', 'C', 'T', '_', 'E', 'N', 'U', 'M']) {
        (false, q)
    } else {
        return None;
    };
    let (name, values, p) = match enum_content(s, p) {
        Some(x) => x,
        None => return None,
    };
    let end = match keyword(s, p, &['E', 'N', 'D', 'E', 'N', 'U', 'M']) {
        Some(e) => e,
        None => return None,
    };
    let ghost content = values@.map_values(|f: EnumField| enum_field_view(f));
    let values = if is_hash_kind { hash_keyed(&values) } else { values };
    proof {
        if is_hash_kind {
            assert(values@.map_values(|f: EnumField| enum_field_view(f)) =~= content.map_values(|f: EnumFieldView| hashed_field(f)));
        }
    }
    Some((EnumDeclaration { comments, name, values, is_hash_kind }, end))
}

/// `USING "module"`.
pub fn using_declaration(s: &Vec<char>, pos: usize) -> (r: Option<(String, usize)>)
    requires
        pos <= s@.len(),
    ensures
        match r {
            Some((_, end)) => pos < end <= s@.len(),
            None => true,
        },
        match r {
            Some((u, end)) => using_spec(s@, pos as int) == Some((DeclarationView::Using(u@), end as int)),
            None => using_spec(s@, pos as int) is None,
        },
{
    let p = match keyword(s, pos, &['U', 'S', 'I', 'N', 'G']) {
        Some(q) => q,
        None => return None,
    };
    let p = skip_spaces(s, p);
    string_literal(s, p)
}

/// A native function: comment block, `NATIVE`, a signature, `=`, and the
/// native hash, which is the value of the hexadecimal digits that end the
/// declaration.
pub fn native_declaration(s: &Vec<char>, pos: usize) -> (r: Option<(NativeDeclaration, usize)>)
    requires
        pos <= s@.len(),
    ensures
        match r {
            Some((n, end)) => pos < end <= s@.len() && exists|q: int|
                pos <= q && q + 4 < end && has_at(s@, q, seq!['"', '0', 'x']) && s@[end - 1] == '"'
                && all_in(s@, q + 3, end - 1, |c: char| is_hex_digit(c))
                && n.native_hash as nat == #[trigger] hex_value(s@.subrange(q + 3, end - 1)),
            None => true,
        },
        match r {
            Some((d, end)) => native_spec(s@, pos as int) == Some((declaration_view(Declaration::Native(d)), end as int)),
            None => native_spec(s@, pos as int) is None,
        },
{
    let (comments, p) = leading_comments(s, pos);
    let p = match keyword(s, p, &['N', 'A', 'T', 'I', 'V', 'E']) {
        Some(q) => q,
        None => return None,
    };
    let p = skip_spaces(s, p);
    let (definition, p) = match function_definition(s, p) {
        Some(x) => x,
        None => return None,
    };
    let p = skip_spaces(s, p);
    let p = match char_at(s, p, '=') {
        Some(q) => q,
        None => return None,
    };
    let p = skip_spaces(s, p);
    match native_hash(s, p) {
        Some((native_hash, end)) => {
            proof {
                assert(has_at(s@, p as int, seq!['"', '0', 'x']));
            }
            Some((NativeDeclaration { comments, definition, native_hash }, end))
        },
        None => None,
    }
}

/// `NATIVE name`, an optional `: aliasTarget`, an optional trailing comment.
pub fn native_type_declaration(s: &Vec<char>, pos: usize) -> (r: Option<(NativeTypeDeclaration, usize)>)
    requires
        pos <= s@.len(),
    ensures
        match r {
            Some((_, end)) => pos < end <= s@.len(),
            None => true,
        },
        match r {
            Some((d, end)) => native_type_spec(s@, pos as int) == Some((declaration_view(Declaration::NativeType(d)), end as int)),
            None => native_type_spec(s@, pos as int) is None,
        },
{
    let p = match keyword(s, pos, &['N', 'A', 'T', 'I', 'V', 'E']) {
        Some(q) => q,
        None => return None,
    };
    let p = skip_spaces(s, p);
    let (name, p) = match identifier(s, p) {
        Some(x) => x,
        None => return None,
    };
    let mut p = skip_spaces(s, p);
    let mut alias_for: Option<String> = None;
    if let Some(q) = char_at(s, p, ':') {
        let q = skip_spaces(s, q);
        if let Some((a, e)) = identifier(s, q) {
            alias_for = Some(a);
            p = e;
        }
    }
    let p = skip_spaces(s, p);
    let (comment_text, end) = match comment(s, p) {
        Some((t, e)) => (Some(t), e),
        None => (None, p),
    };
    Some((NativeTypeDeclaration { name, alias_for, comment: comment_text }, end))
}

/// `ENDFUNC` or `ENDPROC` stands at `pos`.
pub open spec fn function_end_at(s: Seq<char>, pos: int) -> bool {
    has_at(s, pos, seq!['E', 'N', 'D', 'F', 'U', 'N', 'C']) || has_at(s, pos, seq!['E', 'N', 'D', 'P', 'R', 'O', 'C'])
}

fn at_function_end(s: &Vec<char>, pos: usize) -> (r: bool)
    ensures
        r == function_end_at(s@, pos as int),
{
    let f = ['E', 'N', 'D', 'F', 'U', 'N', 'C'];
    let e = ['E', 'N', 'D', 'P', 'R', 'O', 'C'];
    proof {
        assert(f@ =~= seq!['E', 'N', 'D', 'F', 'U', 'N', 'C']);
        assert(e@ =~= seq!['E', 'N', 'D', 'P', 'R', 'O', 'C']);
    }
    lit(s, pos, &f) || lit(s, pos, &e)
}

/// A user function: comment block, signature, the body up to the first
/// `ENDFUNC` or `ENDPROC` (kept as written, never empty), and that keyword.
pub fn function_declaration(s: &Vec<char>, pos: usize) -> (r: Option<(FunctionDeclaration, usize)>)
    requires
        pos <= s@.len(),
    ensures
        match r {
            Some((f, end)) => pos < end <= s@.len() && f.body@.len() > 0 && ({
                let b = end - 7 - f.body@.len();
                pos <= b && f.body@ == s@.subrange(b, end - 7) && function_end_at(s@, end - 7)
                    && forall|j: int| b <= j < end - 7 ==> !#[trigger] function_end_at(s@, j)
            }),
            None => true,
        },
        match r {
            Some((d, end)) => function_spec(s@, pos as int) == Some((declaration_view(Declaration::Function(d)), end as int)),
            None => function_spec(s@, pos as int) is None,
        },
{
    let (comments, p) = leading_comments(s, pos);
    let (definition, p) = match function_definition(s, p) {
        Some(x) => x,
        None => return None,
    };
    let mut i = p;
    while i < s.len() && !at_function_end(s, i)
        invariant
            pos <= p <= i <= s@.len(),
            forall|j: int| p <= j < i ==> !#[trigger] function_end_at(s@, j),
            body_end(s@, p as int) == body_end(s@, i as int),
        decreases s@.len() - i,
    {
        i = i + 1;
    }
    if i == p || i == s.len() {
        return None;
    }
    let body = string_of(&s.as_slice()[p..i]);
    proof {
        assert(body@ =~= s@.subrange(p as int, i as int));
    }
    let end = match keyword(s, i, &['E', 'N', 'D', 'F', 'U', 'N', 'C']) {
        Some(e) => e,
        None => match keyword(s, i, &['E', 'N', 'D', 'P', 'R', 'O', 'C']) {
            Some(e) => e,
            None => return None,
        },
    };
    Some((FunctionDeclaration { comments, definition, body }, end))
}

/// `CONST_<type> name value`, an optional trailing comment.
pub fn const_declaration(s: &Vec<char>, pos: usize) -> (r: Option<(ConstDeclaration, usize)>)
    requires
        pos <= s@.len(),
    ensures
        match r {
            Some((_, end)) => pos < end <= s@.len(),
            None => true,
        },
        match r {
            Some((d, end)) => const_spec(s@, pos as int) == Some((declaration_view(Declaration::Const(d)), end as int)),
            None => const_spec(s@, pos as int) is None,
        },
{
    let p = match keyword(s, pos, &['C', 'O', 'N', 'S', 'T', '_']) {
        Some(q) => q,
        None => return None,
    };
    let (typename, p) = match identifier(s, p) {
        Some(x) => x,
        None => return None,
    };
    let p = skip_spaces(s, p);
    let (name, p) = match identifier(s, p) {
        Some(x) => x,
        None => return None,
    };
    let p = skip_spaces(s, p);
    let (value, p) = match expression(s, p) {
        Some(x) => x,
        None => return None,
    };
    let p = skip_spaces(s, p);
    let (comment_text, end) = match comment(s, p) {
        Some((t, e)) => (Some(t), e),
        None => (None, p),
    };
    Some((ConstDeclaration { comment: comment_text, typename, name, value }, end))
}

/// One declaration: the forms are tried in a fixed order and the first
/// that matches is taken.
pub fn declaration(s: &Vec<char>, pos: usize) -> (r: Option<(Declaration, usize)>)
    requires
        pos <= s@.len(),
    ensures
        match r {
            Some((d, end)) => pos < end <= s@.len() && (d matches Declaration::Enum(e) ==> (e.is_hash_kind
                ==> all_hash_keyed(e.values@))),
            None => true,
        },
        match r {
            Some((d, end)) => declaration_spec(s@, pos as int) == Some((declaration_view(d), end as int)),
            None => declaration_spec(s@, pos as int) is None,
        },
{
    if let Some((u, end)) = using_declaration(s, pos) {
        return Some((Declaration::Using(u), end));
    }
    if let Some((n, end)) = native_declaration(s, pos) {
        return Some((Declaration::Native(n), end));
    }
    if let Some((t, end)) = native_type_declaration(s, pos) {
        return Some((Declaration::NativeType(t), end));
    }
    if let Some((f, end)) = function_declaration(s, pos) {
        return Some((Declaration::Function(f), end));
    }
    if let Some((d, end)) = struct_declaration(s, pos) {
        return Some((Declaration::Struct(d), end));
    }
    if let Some((e, end)) = enum_declaration(s, pos) {
        return Some((Declaration::Enum(e), end));
    }
    if let Some((c, end)) = const_declaration(s, pos) {
        return Some((Declaration::Const(c), end));
    }
    match comment(s, pos) {
        Some((t, end)) => Some((Declaration::Comment(t), end)),
        None => None,
    }
}

/// A rule that the grammar could have matched where a file stopped.
#[derive(Debug)]
pub enum ExpectedRule {
    Declaration,
    LineBreak,
    EndOfInput,
}

/// Where a file stopped matching the grammar (line and column 1-based),
/// and the rules that could have continued it there.
#[derive(Debug)]
pub struct ParseError {
    pub offset: usize,
    pub line: usize,
    pub column: usize,
    pub expected: Vec<ExpectedRule>,
}

/// The rules expected where a text stops matching: a declaration when none
/// was read yet or line breaks were just read; else a line break. The end
/// of the input is always one of them.
pub open spec fn expected_spec(s: Seq<char>) -> Seq<ExpectedRule> {
    let (ds, stop) = file_spec(s);
    if ds.len() == 0 || opt_breaks(s, stop) > stop {
        seq![ExpectedRule::Declaration, ExpectedRule::EndOfInput]
    } else {
        seq![ExpectedRule::LineBreak, ExpectedRule::EndOfInput]
    }
}

/// A line ends just before `i`: after LF, or after a CR not followed by LF.
pub open spec fn line_ends_before(s: Seq<char>, i: int) -> bool {
    s[i - 1] == '\n' || (s[i - 1] == '\r' && !(i < s.len() && s[i] == '\n'))
}

/// Line and column (both 1-based) of the character at `off`; lines end
/// with LF, CR LF or a lone CR.
pub open spec fn line_col(s: Seq<char>, off: int) -> (int, int)
    decreases off,
{
    if off <= 0 {
        (1, 1)
    } else if line_ends_before(s, off) {
        (line_col(s, off - 1).0 + 1, 1)
    } else {
        (line_col(s, off - 1).0, line_col(s, off - 1).1 + 1)
    }
}

pub fn parse_error_at(s: &Vec<char>, off: usize, expected: Vec<ExpectedRule>) -> (r: ParseError)
    requires
        off <= s@.len(),
        off < usize::MAX,
    ensures
        r.offset == off,
        r.expected == expected,
        (r.line as int, r.column as int) == line_col(s@, off as int),
{
    let mut line: usize = 1;
    let mut column: usize = 1;
    let mut i: usize = 0;
    while i < off
        invariant
            i <= off <= s@.len(),
            off < usize::MAX,
            1 <= line,
            1 <= column,
            line + column <= i + 2,
            (line as int, column as int) == line_col(s@, i as int),
        decreases off - i,
    {
        if s[i] == '\n' || (s[i] == '\r' && !(i + 1 < s.len() && s[i + 1] == '\n')) {
            line = line + 1;
            column = 1;
        } else {
            column = column + 1;
        }
        i = i + 1;
    }
    ParseError { offset: off, line, column, expected }
}

/// Parses a whole file: declarations separated by line breaks, optionally
/// preceded and followed by line breaks. Text that no declaration matches
/// makes the whole file fail, at the position where matching stopped.
pub fn parse_declarations(text: &str) -> (r: Result<Vec<Declaration>, ParseError>)
    ensures
        match r {
            Ok(decls) => forall|i: int| 0 <= i < decls@.len() ==> (#[trigger] decls@[i] matches Declaration::Enum(e)
                ==> (e.is_hash_kind ==> all_hash_keyed(e.values@))),
            Err(e) => e.offset <= text@.len() && (e.line as int, e.column as int) == line_col(text@, e.offset as int),
        },
        r is Ok <==> file_parses(text@),
        match r {
            Ok(decls) => decls@.map_values(|d: Declaration| declaration_view(d)) == file_decls(text@),
            Err(e) => e.offset == opt_breaks(text@, file_spec(text@).1) && e.expected@ == expected_spec(text@),
        },
{
    let s = crate::text::chars_of(text);
    let mut decls: Vec<Declaration> = Vec::new();
    let mut p = opt_line_breaks(&s, 0);
    let ghost spec_list = file_spec(s@);
    if let Some((d, e)) = declaration(&s, p) {
        decls.push(d);
        p = e;
        proof {
            assert(decls@.map_values(|x: Declaration| declaration_view(x)) =~= seq![declaration_view(d)]);
        }
        loop
            invariant
                p <= s@.len(),
                forall|i: int| 0 <= i < decls@.len() ==> (#[trigger] decls@[i] matches Declaration::Enum(e)
                    ==> (e.is_hash_kind ==> all_hash_keyed(e.values@))),
                spec_list == (decls@.map_values(|x: Declaration| declaration_view(x)) + declarations_rest(s@, p as int).0, declarations_rest(s@, p as int).1),
            ensures
                p <= s@.len(),
                forall|i: int| 0 <= i < decls@.len() ==> (#[trigger] decls@[i] matches Declaration::Enum(e)
                    ==> (e.is_hash_kind ==> all_hash_keyed(e.values@))),
                spec_list == (decls@.map_values(|x: Declaration| declaration_view(x)), p as int),
            decreases s@.len() - p,
        {
            let q = match line_breaks(&s, p) {
                Some(q) => q,
                None => {
                    proof {
                        assert(decls@.map_values(|x: Declaration| declaration_view(x)) + declarations_rest(s@, p as int).0 =~= decls@.map_values(|x: Declaration| declaration_view(x)));
                    }
                    break;
                },
            };
            match declaration(&s, q) {
                Some((d, e)) => {
                    let ghost old_v = decls@.map_values(|x: Declaration| declaration_view(x));
                    decls.push(d);
                    p = e;
                    proof {
                        assert(decls@.map_values(|x: Declaration| declaration_view(x)) =~= old_v + seq![declaration_view(d)]);
                        assert(decls@.map_values(|x: Declaration| declaration_view(x)) + declarations_rest(s@, p as int).0 =~= old_v + (seq![declaration_view(d)] + declarations_rest(s@, p as int).0));
                    }
                },
                None => {
                    proof {
                        assert(decls@.map_values(|x: Declaration| declaration_view(x)) + declarations_rest(s@, p as int).0 =~= decls@.map_values(|x: Declaration| declaration_view(x)));
                    }
                    break;
                },
            }
        }
    } else {
        proof {
            assert(decls@.map_values(|x: Declaration| declaration_view(x)) =~= Seq::<DeclarationView>::empty());
        }
    }
    let q = opt_line_breaks(&s, p);
    if q == s.len() {
        Ok(decls)
    } else {
        let expected = if decls.len() == 0 || q > p {
            vec![ExpectedRule::Declaration, ExpectedRule::EndOfInput]
        } else {
            vec![ExpectedRule::LineBreak, ExpectedRule::EndOfInput]
        };
        proof {
            assert(expected@ =~= expected_spec(s@));
        }
        Err(parse_error_at(&s, q, expected))
    }
}

/// The declarations of the files that parsed, file by file in the order
/// given, each file's in its own order; a file that failed adds nothing.
pub open spec fn parsed_declarations(results: Seq<Result<Vec<Declaration>, ParseError>>) -> Seq<Declaration>
    decreases results.len(),
{
    if results.len() == 0 {
        Seq::empty()
    } else {
        (match results[0] {
            Ok(d) => d@,
            Err(_) => Seq::empty(),
        }) + parsed_declarations(results.drop_first())
    }
}

/// Joins the results of parsing a batch of files, dropping those that failed.
pub fn collect_declarations(results: Vec<Result<Vec<Declaration>, ParseError>>) -> (r: Vec<Declaration>)
    ensures
        r@ == parsed_declarations(results@),
{
    let mut results = results;
    let ghost all = results@;
    let mut out: Vec<Declaration> = Vec::new();
    while results.len() > 0
        invariant
            out@ + parsed_declarations(results@) == parsed_declarations(all),
        decreases results@.len(),
    {
        let ghost before = results@;
        let res = results.remove(0);
        proof {
            assert(results@ =~= before.drop_first());
        }
        match res {
            Ok(d) => {
                let mut d = d;
                out.append(&mut d);
            },
            Err(_) => {},
        }
        proof {
            assert(out@ + parsed_declarations(results@) =~= parsed_declarations(all));
        }
    }
    proof {
        assert(out@ =~= out@ + parsed_declarations(results@));
    }
    out
}

} // verus!
