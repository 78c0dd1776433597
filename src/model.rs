//! Declarations as they are parsed from a declaration file, and the
//! canonical text of expressions.
use vstd::prelude::*;
use crate::text::{push_nat, push_str, string_of};

verus! {

/// A literal value. A numeral without a fraction is a 32-bit integer; one
/// with a fraction is held as its canonical decimal text (see
/// `crate::lexer::canonical_decimal`), not as a binary float.
#[derive(Debug)]
pub enum Literal {
    Int(i32),
    Float(String),
    Bool(bool),
    Hash(String),
}

#[derive(Debug)]
pub struct EnumField {
    pub comment: Option<String>,
    pub name: String,
    pub value: Option<Expression>,
}

#[derive(Debug)]
pub struct EnumDeclaration {
    pub comments: Vec<String>,
    pub name: String,
    pub values: Vec<EnumField>,
    /// Declared with `HASH_ENUM`: every value is the hash of its field's name.
    pub is_hash_kind: bool,
}

#[derive(Debug)]
pub struct StructField {
    pub name: String,
    pub typename: String,
    pub array_size: Option<Expression>,
    pub default_value: Option<Expression>,
    pub comment: Option<String>,
}

#[derive(Debug)]
pub struct StructDeclaration {
    pub comments: Vec<String>,
    pub name: String,
    pub fields: Vec<StructField>,
}

#[derive(Debug)]
pub enum Expression {
    Literal(Literal),
    Identifier(String),
    Add(Box<Expression>, Box<Expression>),
    Subtract(Box<Expression>, Box<Expression>),
    Multiply(Box<Expression>, Box<Expression>),
    Divide(Box<Expression>, Box<Expression>),
    BitOr(Box<Expression>, Box<Expression>),
    Parentheses(Box<Expression>),
}

#[derive(Debug)]
pub struct FunctionParameterType {
    pub base_type: String,
    pub is_ref: bool,
    pub is_array: bool,
}

#[derive(Debug)]
pub struct FunctionParameter {
    pub name: String,
    pub type_: FunctionParameterType,
    pub default_value: Option<Expression>,
}

#[derive(Debug)]
pub struct FunctionDefinition {
    pub name: String,
    pub return_type: Option<String>,
    pub params: Vec<FunctionParameter>,
}

#[derive(Debug)]
pub struct FunctionDeclaration {
    pub comments: Vec<String>,
    pub definition: FunctionDefinition,
    pub body: String,
}

#[derive(Debug)]
pub struct NativeDeclaration {
    pub comments: Vec<String>,
    pub definition: FunctionDefinition,
    pub native_hash: u64,
}

#[derive(Debug)]
pub struct ConstDeclaration {
    pub comment: Option<String>,
    pub typename: String,
    pub name: String,
    pub value: Expression,
}

#[derive(Debug)]
pub struct NativeTypeDeclaration {
    pub name: String,
    pub alias_for: Option<String>,
    pub comment: Option<String>,
}

#[derive(Debug)]
pub enum Declaration {
    Enum(EnumDeclaration),
    Struct(StructDeclaration),
    Comment(String),
    Using(String),
    Function(FunctionDeclaration),
    Native(NativeDeclaration),
    NativeType(NativeTypeDeclaration),
    Const(ConstDeclaration),
}

/// Decimal digits of a natural number, most significant first.
pub open spec fn nat_digits(n: nat) -> Seq<char>
    decreases n,
{
    if n < 10 {
        seq![digit_char(n)]
    } else {
        nat_digits(n / 10).push(digit_char(n % 10))
    }
}

pub open spec fn digit_char(d: nat) -> char {
    ((d + 48) as u8) as char
}

/// Decimal text of an integer, with a leading minus when negative.
pub open spec fn int_text(i: int) -> Seq<char> {
    if i < 0 {
        seq!['-'].add(nat_digits((-i) as nat))
    } else {
        nat_digits(i as nat)
    }
}

pub open spec fn render_literal(l: Literal) -> Seq<char> {
    match l {
        Literal::Int(i) => int_text(i as int),
        Literal::Float(t) => t@,
        Literal::Bool(b) => if b { seq!['t', 'r', 'u', 'e'] } else { seq!['f', 'a', 'l', 's', 'e'] },
        Literal::Hash(h) => seq!['H', 'A', 'S', 'H', '(', '"'].add(h@).add(seq!['"', ')']),
    }
}

pub open spec fn infix(l: Seq<char>, op: char, r: Seq<char>) -> Seq<char> {
    l.add(seq![' ', op, ' ']).add(r)
}

/// The canonical text of an expression: operators with one space on each
/// side, parentheses kept where they were written.
pub open spec fn render(e: Expression) -> Seq<char>
    decreases e,
{
    match e {
        Expression::Literal(l) => render_literal(l),
        Expression::Identifier(i) => i@,
        Expression::Add(l, r) => infix(render(*l), '+', render(*r)),
        Expression::Subtract(l, r) => infix(render(*l), '-', render(*r)),
        Expression::Multiply(l, r) => infix(render(*l), '*', render(*r)),
        Expression::Divide(l, r) => infix(render(*l), '/', render(*r)),
        Expression::BitOr(l, r) => infix(render(*l), '|', render(*r)),
        Expression::Parentheses(inner) => seq!['('].add(render(*inner)).push(')'),
    }
}

fn push_op(out: &mut Vec<char>, op: char)
    ensures
        final(out)@ == old(out)@ + seq![' ', op, ' '],
{
    out.push(' ');
    out.push(op);
    out.push(' ');
    proof {
        assert(final(out)@ =~= old(out)@ + seq![' ', op, ' ']);
    }
}

impl Literal {
    pub fn render_into(&self, out: &mut Vec<char>)
        ensures
            final(out)@ == old(out)@ + render_literal(*self),
    {
        match self {
            Literal::Int(i) => {
                if *i < 0 {
                    out.push('-');
                    let n: u64 = (-(*i as i64)) as u64;
                    push_nat(out, n);
                } else {
                    push_nat(out, *i as u64);
                }
                proof {
                    assert(final(out)@ =~= old(out)@ + render_literal(*self));
                }
            },
            Literal::Float(t) => push_str(out, t),
            Literal::Bool(b) => {
                if *b {
                    out.push('t');
                    out.push('r');
                    out.push('u');
                    out.push('e');
                } else {
                    out.push('f');
                    out.push('a');
                    out.push('l');
                    out.push('s');
                    out.push('e');
                }
                proof {
                    assert(final(out)@ =~= old(out)@ + render_literal(*self));
                }
            },
            Literal::Hash(h) => {
                out.push('H');
                out.push('A');
                out.push('S');
                out.push('H');
                out.push('(');
                out.push('"');
                push_str(out, h);
                out.push('"');
                out.push(')');
                proof {
                    assert(final(out)@ =~= old(out)@ + render_literal(*self));
                }
            },
        }
    }

    /// The literal's canonical text.
    pub fn to_text(&self) -> (r: String)
        ensures
            r@ == render_literal(*self),
    {
        let mut out: Vec<char> = Vec::new();
        self.render_into(&mut out);
        proof {
            assert(out@ =~= render_literal(*self));
        }
        string_of(out.as_slice())
    }
}

impl Expression {
    pub fn render_into(&self, out: &mut Vec<char>)
        ensures
            final(out)@ == old(out)@ + render(*self),
        decreases *self,
    {
        match self {
            Expression::Literal(l) => l.render_into(out),
            Expression::Identifier(i) => push_str(out, i),
            Expression::Add(l, r) => {
                l.render_into(out);
                push_op(out, '+');
                r.render_into(out);
                proof {
                    assert(final(out)@ =~= old(out)@ + render(*self));
                }
            },
            Expression::Subtract(l, r) => {
                l.render_into(out);
                push_op(out, '-');
                r.render_into(out);
                proof {
                    assert(final(out)@ =~= old(out)@ + render(*self));
                }
            },
            Expression::Multiply(l, r) => {
                l.render_into(out);
                push_op(out, '*');
                r.render_into(out);
                proof {
                    assert(final(out)@ =~= old(out)@ + render(*self));
                }
            },
            Expression::Divide(l, r) => {
                l.render_into(out);
                push_op(out, '/');
                r.render_into(out);
                proof {
                    assert(final(out)@ =~= old(out)@ + render(*self));
                }
            },
            Expression::BitOr(l, r) => {
                l.render_into(out);
                push_op(out, '|');
                r.render_into(out);
                proof {
                    assert(final(out)@ =~= old(out)@ + render(*self));
                }
            },
            Expression::Parentheses(inner) => {
                out.push('(');
                inner.render_into(out);
                out.push(')');
                proof {
                    assert(final(out)@ =~= old(out)@ + render(*self));
                }
            },
        }
    }

    /// The expression's canonical text.
    pub fn to_text(&self) -> (r: String)
        ensures
            r@ == render(*self),
    {
        let mut out: Vec<char> = Vec::new();
        self.render_into(&mut out);
        proof {
            assert(out@ =~= render(*self));
        }
        string_of(out.as_slice())
    }
}

} // verus!
