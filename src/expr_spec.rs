//! What the expression grammar produces: trees whose shape follows the
//! operator tiers, with canonical atoms; and the text that surrounds a
//! rendered sub-expression inside the rendering of a whole one.
use vstd::prelude::*;
use crate::lexer::{
    all_in, canonical_decimal, digits_end, end_enum_word, end_struct_word, has_at_ci, is_digit,
    is_ident_char, is_ident_start, run_end, strip_leading_zeros, strip_trailing_zeros, has_at,
    spaces_end, string_spec, number_spec, bool_spec, ident_spec,
};
use crate::model::{render, Expression, Literal};

verus! {

/// 3 for `+ -`, 2 for `* /`, 1 for `|`, 0 for anything else.
pub open spec fn node_tier(e: Expression) -> int {
    match e {
        Expression::Add(_, _) | Expression::Subtract(_, _) => 3,
        Expression::Multiply(_, _) | Expression::Divide(_, _) => 2,
        Expression::BitOr(_, _) => 1,
        _ => 0,
    }
}

pub open spec fn node_op(e: Expression) -> char {
    match e {
        Expression::Add(_, _) => '+',
        Expression::Subtract(_, _) => '-',
        Expression::Multiply(_, _) => '*',
        Expression::Divide(_, _) => '/',
        _ => '|',
    }
}

pub open spec fn left(e: Expression) -> Expression {
    match e {
        Expression::Add(l, _) | Expression::Subtract(l, _) | Expression::Multiply(l, _)
        | Expression::Divide(l, _) | Expression::BitOr(l, _) => *l,
        _ => e,
    }
}

pub open spec fn right(e: Expression) -> Expression {
    match e {
        Expression::Add(_, r) | Expression::Subtract(_, r) | Expression::Multiply(_, r)
        | Expression::Divide(_, r) | Expression::BitOr(_, r) => *r,
        _ => e,
    }
}

/// The operator characters of a tier.
pub open spec fn is_tier_op(c: char, t: int) -> bool {
    if t == 3 {
        c == '+' || c == '-'
    } else if t == 2 {
        c == '*' || c == '/'
    } else {
        c == '|'
    }
}

/// The node that operator `op` makes of `l` and `r`.
pub open spec fn mk(op: char, l: Expression, r: Expression) -> Expression {
    if op == '+' {
        Expression::Add(Box::new(l), Box::new(r))
    } else if op == '-' {
        Expression::Subtract(Box::new(l), Box::new(r))
    } else if op == '*' {
        Expression::Multiply(Box::new(l), Box::new(r))
    } else if op == '/' {
        Expression::Divide(Box::new(l), Box::new(r))
    } else {
        Expression::BitOr(Box::new(l), Box::new(r))
    }
}

/// An identifier that the grammar reads back as that identifier: not a
/// closing keyword, and not starting like a boolean.
pub open spec fn wf_ident(n: Seq<char>) -> bool {
    n.len() > 0 && is_ident_start(n[0]) && all_in(n, 1, n.len() as int, |c: char| is_ident_char(c))
        && n != end_struct_word() && n != end_enum_word()
        && !(n.len() >= 4 && has_at_ci(n, 0, seq!['T', 'R', 'U', 'E']))
        && !(n.len() >= 5 && has_at_ci(n, 0, seq!['F', 'A', 'L', 'S', 'E']))
}

/// Where the integer digits of a number's text end.
pub open spec fn int_start(t: Seq<char>) -> int {
    if t.len() > 0 && t[0] == '-' { 1 } else { 0 }
}

/// Number text in its canonical form: `-`?, digits, and `.` with digits
/// if there is a fraction, and equal to its own canonical decimal.
pub open spec fn wf_number(t: Seq<char>) -> bool {
    exists|b: int|
        int_start(t) < b <= t.len() && #[trigger] digits_end(t, int_start(t), b) && (b == t.len() || (t[b] == '.'
            && b + 1 < t.len() && digits_end(t, b + 1, t.len() as int)))
            && t == canonical_decimal(t[0] == '-', t.subrange(int_start(t), b),
                if b == t.len() { Seq::empty() } else { t.subrange(b + 1, t.len() as int) })
}

pub open spec fn wf_literal(l: Literal) -> bool {
    match l {
        Literal::Float(t) => wf_number(t@) && t@.contains('.'),
        Literal::Bool(_) => true,
        Literal::Hash(h) => all_in(h@, 0, h@.len() as int, |c: char| c != '"'),
        Literal::Int(_) => true,
    }
}

/// A tree that the grammar can produce at tier `t` (0: an atom; 3: a whole
/// expression): operators of tier `t` at the top associate to the left,
/// looser operators only inside parentheses.
pub open spec fn wf_tier(e: Expression, t: int) -> bool
    decreases e, t,
{
    if t <= 0 {
        match e {
            Expression::Literal(l) => wf_literal(l),
            Expression::Identifier(n) => wf_ident(n@),
            Expression::Parentheses(inner) => wf_tier(*inner, 3),
            _ => false,
        }
    } else {
        match e {
            Expression::Add(l, r) | Expression::Subtract(l, r) => if t == 3 {
                wf_tier(*l, 3) && wf_tier(*r, 2)
            } else {
                wf_tier(e, t - 1)
            },
            Expression::Multiply(l, r) | Expression::Divide(l, r) => if t == 2 {
                wf_tier(*l, 2) && wf_tier(*r, 1)
            } else {
                wf_tier(e, t - 1)
            },
            Expression::BitOr(l, r) => if t == 1 {
                wf_tier(*l, 1) && wf_tier(*r, 0)
            } else {
                wf_tier(e, t - 1)
            },
            _ => wf_tier(e, t - 1),
        }
    }
}

/// Structural equality, comparing names and texts by their characters.
pub open spec fn eqv(a: Expression, b: Expression) -> bool
    decreases a,
{
    match (a, b) {
        (Expression::Literal(x), Expression::Literal(y)) => match (x, y) {
            (Literal::Int(p), Literal::Int(q)) => p == q,
            (Literal::Float(p), Literal::Float(q)) => p@ == q@,
            (Literal::Bool(p), Literal::Bool(q)) => p == q,
            (Literal::Hash(p), Literal::Hash(q)) => p@ == q@,
            _ => false,
        },
        (Expression::Identifier(x), Expression::Identifier(y)) => x@ == y@,
        (Expression::Add(a1, a2), Expression::Add(b1, b2)) => eqv(*a1, *b1) && eqv(*a2, *b2),
        (Expression::Subtract(a1, a2), Expression::Subtract(b1, b2)) => eqv(*a1, *b1) && eqv(*a2, *b2),
        (Expression::Multiply(a1, a2), Expression::Multiply(b1, b2)) => eqv(*a1, *b1) && eqv(*a2, *b2),
        (Expression::Divide(a1, a2), Expression::Divide(b1, b2)) => eqv(*a1, *b1) && eqv(*a2, *b2),
        (Expression::BitOr(a1, a2), Expression::BitOr(b1, b2)) => eqv(*a1, *b1) && eqv(*a2, *b2),
        (Expression::Parentheses(x), Expression::Parentheses(y)) => eqv(*x, *y),
        _ => false,
    }
}

/// Text that may follow an expression of tier `t` without extending it:
/// nothing, a `)`, or a space and an operator of a looser tier.
pub open spec fn stop(rest: Seq<char>, t: int) -> bool {
    rest.len() == 0 || rest[0] == ')' || (rest.len() >= 2 && rest[0] == ' ' && exists|u: int|
        t < u <= 3 && #[trigger] is_tier_op(rest[1], u))
}

/// `s` holds the rendering of `e` at `pos`, followed by text that stops tier `t`.
pub open spec fn rendered_at(s: Seq<char>, pos: int, e: Expression, t: int) -> bool {
    0 <= pos && pos + render(e).len() <= s.len() && s.subrange(pos, pos + render(e).len()) == render(e)
        && stop(s.subrange(pos + render(e).len(), s.len() as int), t)
}

/// How many tier-`t` operators stand on the left spine of `e`.
pub open spec fn depth(e: Expression, t: int) -> nat
    decreases e,
{
    match e {
        Expression::Add(l, _) | Expression::Subtract(l, _) | Expression::Multiply(l, _)
        | Expression::Divide(l, _) | Expression::BitOr(l, _) => if node_tier(e) == t {
            depth(*l, t) + 1
        } else {
            0
        },
        _ => 0,
    }
}

/// The sub-tree on the left spine of `e` with `k` tier-`t` operators.
pub open spec fn spine_at(e: Expression, t: int, k: nat) -> Expression
    decreases e,
{
    match e {
        Expression::Add(l, _) | Expression::Subtract(l, _) | Expression::Multiply(l, _)
        | Expression::Divide(l, _) | Expression::BitOr(l, _) => if node_tier(e) == t && depth(e, t) > k {
            spine_at(*l, t, k)
        } else {
            e
        },
        _ => e,
    }
}

/// What follows the rendering of `spine_at(e, t, k)` in that of `e`.
pub open spec fn tail(e: Expression, t: int, k: nat) -> Seq<char>
    decreases e,
{
    match e {
        Expression::Add(l, r) | Expression::Subtract(l, r) | Expression::Multiply(l, r)
        | Expression::Divide(l, r) | Expression::BitOr(l, r) => if node_tier(e) == t && depth(e, t) > k {
            tail(*l, t, k) + seq![' ', node_op(e), ' '] + render(*r)
        } else {
            Seq::empty()
        },
        _ => Seq::empty(),
    }
}

pub proof fn lemma_wf_below(x: Expression, t: int)
    requires
        0 <= t,
        wf_tier(x, t),
    ensures
        node_tier(x) <= t,
        forall|u: int| t <= u <= 3 ==> #[trigger] wf_tier(x, u),
    decreases t,
{
    if t > 0 && node_tier(x) != t {
        lemma_wf_below(x, t - 1);
    }
    assert forall|u: int| t <= u <= 3 implies #[trigger] wf_tier(x, u) by {
        lemma_wf_lift(x, t, u);
    }
}

proof fn lemma_wf_lift(x: Expression, t: int, u: int)
    requires
        0 <= t <= u,
        wf_tier(x, t),
        node_tier(x) <= t,
    ensures
        wf_tier(x, u),
    decreases u - t,
{
    if u > t {
        lemma_wf_lift(x, t, u - 1);
    }
}

pub proof fn lemma_render_start(e: Expression, t: int)
    requires
        0 <= t <= 3,
        wf_tier(e, t),
    ensures
        render(e).len() > 0,
        render(e)[0] != ' ',
        render(e)[0] != '\t',
        render(e)[0] != ')',
    decreases e, t,
{
    if t > 0 && node_tier(e) != t {
        lemma_render_start(e, t - 1);
    } else if t > 0 {
        lemma_render_start(left(e), t);
        assert(render(e) == render(left(e)) + seq![' ', node_op(e), ' '] + render(right(e)));
    } else {
        match e {
            Expression::Literal(l) => match l {
                Literal::Int(i) => {
                    lemma_int_text(i as int);
                },
                Literal::Float(n) => {
                    let b = choose|b: int| int_start(n@) < b <= n@.len() && #[trigger] digits_end(n@, int_start(n@), b) && (b == n@.len() || (n@[b] == '.'
                        && b + 1 < n@.len() && digits_end(n@, b + 1, n@.len() as int)))
                        && n@ == canonical_decimal(n@[0] == '-', n@.subrange(int_start(n@), b),
                            if b == n@.len() { Seq::empty() } else { n@.subrange(b + 1, n@.len() as int) });
                    let p = |c: char| is_digit(c);
                    assert(all_in(n@, int_start(n@), b, p));
                    assert(p(n@[int_start(n@)]));
                    assert(n@[0] == '-' || is_digit(n@[0]));
                },
                _ => {},
            },
            Expression::Parentheses(_) => {},
            _ => {},
        }
    }
}

pub proof fn lemma_spine(e: Expression, t: int, k: nat)
    requires
        1 <= t <= 3,
        k <= depth(e, t),
    ensures
        render(e) == render(spine_at(e, t, k)) + tail(e, t, k),
        depth(spine_at(e, t, k), t) == k,
        k == depth(e, t) ==> spine_at(e, t, k) == e && tail(e, t, k).len() == 0,
        k < depth(e, t) ==> ({
            let u = spine_at(e, t, k + 1);
            node_tier(u) == t && left(u) == spine_at(e, t, k) && tail(e, t, k) == seq![' ', node_op(u), ' ']
                + render(right(u)) + tail(e, t, k + 1)
        }),
        wf_tier(e, t) ==> wf_tier(spine_at(e, t, k), t),
        wf_tier(e, t) && k < depth(e, t) ==> wf_tier(right(spine_at(e, t, k + 1)), t - 1),
    decreases e,
{
    if depth(e, t) > 0 {
        let l = left(e);
        assert(render(e) == render(l) + seq![' ', node_op(e), ' '] + render(right(e)));
        if k < depth(e, t) {
            lemma_spine(l, t, k);
            if k + 1 < depth(e, t) {
                lemma_spine(l, t, (k + 1) as nat);
            }
        }
        assert(render(e) =~= render(spine_at(e, t, k)) + tail(e, t, k));
        if k + 1 < depth(e, t) {
            assert(tail(e, t, k) =~= seq![' ', node_op(spine_at(e, t, k + 1)), ' ']
                + render(right(spine_at(e, t, k + 1))) + tail(e, t, k + 1));
        }
    }
}

pub proof fn lemma_stop_lower(rest: Seq<char>, t: int, t2: int)
    requires
        stop(rest, t),
        t2 <= t,
    ensures
        stop(rest, t2),
{
    if rest.len() >= 2 && rest[0] == ' ' && rest[0] != ')' && rest.len() != 0 {
        if exists|u: int| t < u <= 3 && #[trigger] is_tier_op(rest[1], u) {
            let u = choose|u: int| t < u <= 3 && #[trigger] is_tier_op(rest[1], u);
            assert(t2 < u <= 3 && is_tier_op(rest[1], u));
        }
    }
}

/// What `crate::lexer::number` promises of a match `(text, end)` at `pos`.
pub open spec fn number_ok(s: Seq<char>, pos: int, text: Seq<char>, end: int) -> bool {
    pos < end <= s.len() && exists|a: int, b: int|
        pos <= a < b <= end && a == (if s[pos] == '-' { pos + 1 } else { pos })
        && #[trigger] digits_end(s, a, b)
        && (b == end || (s[b] == '.' && b + 1 < end && run_end(s, b + 1, end, |c: char| is_digit(c))))
        && text == canonical_decimal(s[pos] == '-', s.subrange(a, b),
            if b == end { Seq::empty() } else { s.subrange(b + 1, end) })
        && (b == end ==> !(b + 1 < s.len() && s[b] == '.' && is_digit(s[b + 1])))
}

proof fn lemma_strip_leading(d: Seq<char>)
    requires
        d.len() > 0,
        all_in(d, 0, d.len() as int, |c: char| is_digit(c)),
    ensures
        strip_leading_zeros(d).len() > 0,
        all_in(strip_leading_zeros(d), 0, strip_leading_zeros(d).len() as int, |c: char| is_digit(c)),
        strip_leading_zeros(strip_leading_zeros(d)) == strip_leading_zeros(d),
    decreases d.len(),
{
    if d.len() > 1 && d[0] == '0' {
        let r = d.drop_first();
        assert forall|i: int| 0 <= i < r.len() implies #[trigger] is_digit(r[i]) by {
            let p = |c: char| is_digit(c);
            assert(p(d[i + 1]));
        }
        lemma_strip_leading(r);
    }
}

proof fn lemma_strip_trailing(d: Seq<char>)
    requires
        all_in(d, 0, d.len() as int, |c: char| is_digit(c)),
    ensures
        all_in(strip_trailing_zeros(d), 0, strip_trailing_zeros(d).len() as int, |c: char| is_digit(c)),
        strip_trailing_zeros(strip_trailing_zeros(d)) == strip_trailing_zeros(d),
    decreases d.len(),
{
    if d.len() > 0 && d.last() == '0' {
        let r = d.drop_last();
        assert forall|i: int| 0 <= i < r.len() implies #[trigger] is_digit(r[i]) by {
            let p = |c: char| is_digit(c);
            assert(p(d[i]));
        }
        lemma_strip_trailing(r);
    }
}

/// A canonical decimal is in canonical form.
pub proof fn lemma_canonical_wf(neg: bool, d: Seq<char>, f: Seq<char>)
    requires
        d.len() > 0,
        all_in(d, 0, d.len() as int, |c: char| is_digit(c)),
        all_in(f, 0, f.len() as int, |c: char| is_digit(c)),
    ensures
        wf_number(canonical_decimal(neg, d, f)),
{
    lemma_strip_leading(d);
    lemma_strip_trailing(f);
    let sl = strip_leading_zeros(d);
    let st = strip_trailing_zeros(f);
    let c = canonical_decimal(neg, d, f);
    let sign: Seq<char> = if neg { seq!['-'] } else { Seq::empty() };
    let ft: Seq<char> = if st.len() > 0 { st } else { seq!['0'] };
    let fr: Seq<char> = if f.len() > 0 { seq!['.'] + ft } else { Seq::empty() };
    assert(c == sign + sl + fr);
    let p = |ch: char| is_digit(ch);
    assert(p(sl[0]));
    let a = sign.len() as int;
    assert(int_start(c) == a);
    let b = a + sl.len();
    assert(c.subrange(a, b) =~= sl);
    assert forall|i: int| a <= i < b implies #[trigger] p(c[i]) by {
        assert(c[i] == sl[i - a]);
        assert(p(sl[i - a]));
    }
    if f.len() > 0 {
        assert(c[b] == '.');
        assert(c.subrange(b + 1, c.len() as int) =~= ft);
        assert forall|i: int| b + 1 <= i < c.len() implies #[trigger] p(c[i]) by {
            assert(c[i] == ft[i - b - 1]);
            if st.len() > 0 {
                assert(p(st[i - b - 1]));
            }
        }
        assert(digits_end(c, b + 1, c.len() as int));
        if st.len() == 0 {
            assert(seq!['0'].drop_last() =~= Seq::<char>::empty());
            assert(strip_trailing_zeros(seq!['0']) == strip_trailing_zeros(Seq::<char>::empty()));
        }
        assert(c =~= canonical_decimal(c[0] == '-', c.subrange(a, b), c.subrange(b + 1, c.len() as int)));
    } else {
        assert(b == c.len());
        assert(c =~= canonical_decimal(c[0] == '-', c.subrange(a, b), Seq::empty()));
    }
    assert(digits_end(c, a, b));
}

/// A number in canonical form, followed by text that ends it, reads back
/// as itself.
pub proof fn lemma_number_back(s: Seq<char>, pos: int, t: Seq<char>, text: Seq<char>, end: int)
    requires
        number_ok(s, pos, text, end),
        wf_number(t),
        0 <= pos,
        pos + t.len() <= s.len(),
        s.subrange(pos, pos + t.len()) == t,
        pos + t.len() == s.len() || s[pos + t.len()] == ' ' || s[pos + t.len()] == ')',
    ensures
        text == t,
        end == pos + t.len(),
{
    let p = |c: char| is_digit(c);
    let bt = choose|b: int| int_start(t) < b <= t.len() && #[trigger] digits_end(t, int_start(t), b) && (b == t.len() || (t[b] == '.'
        && b + 1 < t.len() && digits_end(t, b + 1, t.len() as int)))
        && t == canonical_decimal(t[0] == '-', t.subrange(int_start(t), b),
            if b == t.len() { Seq::empty() } else { t.subrange(b + 1, t.len() as int) });
    let (a, b) = choose|a: int, b: int|
        pos <= a < b <= end && a == (if s[pos] == '-' { pos + 1 } else { pos })
        && #[trigger] digits_end(s, a, b)
        && (b == end || (s[b] == '.' && b + 1 < end && run_end(s, b + 1, end, |c: char| is_digit(c))))
        && text == canonical_decimal(s[pos] == '-', s.subrange(a, b),
            if b == end { Seq::empty() } else { s.subrange(b + 1, end) })
        && (b == end ==> !(b + 1 < s.len() && s[b] == '.' && is_digit(s[b + 1])));
    assert(s[pos] == t[0]);
    assert(a == pos + int_start(t));
    // the integer digits end at the same place
    assert(all_in(s, a, pos + bt, p)) by {
        assert forall|i: int| a <= i < pos + bt implies #[trigger] p(s[i]) by {
            assert(s[i] == t[i - pos]);
            assert(p(t[i - pos]));
        }
    }
    assert(pos + bt == s.len() || !p(s[pos + bt]));
    crate::lexer::lemma_run_end_unique(s, a, b, pos + bt, p);
    assert(b == pos + bt);
    assert(s.subrange(a, b) =~= t.subrange(int_start(t), bt));
    if bt == t.len() {
        if b != end {
            assert(s[b] == '.');
        }
        assert(end == b);
    } else {
        assert(s[b] == '.' && s[b + 1] == t[bt + 1]);
        assert(p(t[bt + 1]));
        assert(end != b);
        assert(all_in(s, b + 1, pos + t.len(), p)) by {
            assert forall|i: int| b + 1 <= i < pos + t.len() implies #[trigger] p(s[i]) by {
                assert(s[i] == t[i - pos]);
                assert(p(t[i - pos]));
            }
        }
        crate::lexer::lemma_run_end_unique(s, b + 1, end, pos + t.len(), p);
        assert(s.subrange(b + 1, end) =~= t.subrange(bt + 1, t.len() as int));
    }
}

pub proof fn lemma_number_start(t: Seq<char>)
    requires
        wf_number(t),
    ensures
        t.len() > 0,
        t[0] == '-' || is_digit(t[0]),
        t[0] == '-' ==> t.len() > 1 && is_digit(t[1]),
        !is_digit('-'),
{
    let b = choose|b: int| int_start(t) < b <= t.len() && #[trigger] digits_end(t, int_start(t), b) && (b == t.len() || (t[b] == '.'
        && b + 1 < t.len() && digits_end(t, b + 1, t.len() as int)))
        && t == canonical_decimal(t[0] == '-', t.subrange(int_start(t), b),
            if b == t.len() { Seq::empty() } else { t.subrange(b + 1, t.len() as int) });
    let p = |c: char| is_digit(c);
    assert(p(t[int_start(t)]));
}

/// A literal with its texts as character sequences.
pub enum LitView {
    Int(int),
    Float(Seq<char>),
    Bool(bool),
    Hash(Seq<char>),
}

/// An expression with its texts as character sequences; a binary node
/// carries its operator character.
pub enum ExprView {
    Lit(LitView),
    Ident(Seq<char>),
    Bin(char, Box<ExprView>, Box<ExprView>),
    Paren(Box<ExprView>),
}

pub open spec fn lit_view(l: Literal) -> LitView {
    match l {
        Literal::Int(i) => LitView::Int(i as int),
        Literal::Float(t) => LitView::Float(t@),
        Literal::Bool(b) => LitView::Bool(b),
        Literal::Hash(h) => LitView::Hash(h@),
    }
}

pub open spec fn expr_view(e: Expression) -> ExprView
    decreases e,
{
    match e {
        Expression::Literal(l) => ExprView::Lit(lit_view(l)),
        Expression::Identifier(n) => ExprView::Ident(n@),
        Expression::Add(l, r) => ExprView::Bin('+', Box::new(expr_view(*l)), Box::new(expr_view(*r))),
        Expression::Subtract(l, r) => ExprView::Bin('-', Box::new(expr_view(*l)), Box::new(expr_view(*r))),
        Expression::Multiply(l, r) => ExprView::Bin('*', Box::new(expr_view(*l)), Box::new(expr_view(*r))),
        Expression::Divide(l, r) => ExprView::Bin('/', Box::new(expr_view(*l)), Box::new(expr_view(*r))),
        Expression::BitOr(l, r) => ExprView::Bin('|', Box::new(expr_view(*l)), Box::new(expr_view(*r))),
        Expression::Parentheses(x) => ExprView::Paren(Box::new(expr_view(*x))),
    }
}

/// The literal rule: `HASH("...")`, then a number, then a boolean.
pub open spec fn literal_spec(s: Seq<char>, pos: int) -> Option<(LitView, int)> {
    let hashed = if has_at(s, pos, seq!['H', 'A', 'S', 'H', '(']) {
        let p = spaces_end(s, pos + 5);
        match string_spec(s, p) {
            Some(q) => {
                let q2 = spaces_end(s, q);
                if 0 <= q2 < s.len() && s[q2] == ')' {
                    Some((LitView::Hash(s.subrange(p + 1, q - 1)), q2 + 1))
                } else {
                    None
                }
            },
            None => None,
        }
    } else {
        None
    };
    if hashed is Some {
        hashed
    } else {
        match number_spec(s, pos) {
            Some((t, e)) => match numeral_of(t) {
                Some(l) => Some((l, e)),
                None => None,
            },
            None => match bool_spec(s, pos) {
                Some((b, e)) => Some((LitView::Bool(b), e)),
                None => None,
            },
        }
    }
}

/// The atom rule: a literal, an identifier, or `( expression )`.
pub open spec fn atom_spec(s: Seq<char>, pos: int) -> Option<(ExprView, int)>
    decreases s.len() - pos, 0int,
{
    if !(0 <= pos <= s.len()) {
        None
    } else {
        match literal_spec(s, pos) {
            Some((l, e)) => Some((ExprView::Lit(l), e)),
            None => match ident_spec(s, pos) {
                Some(e) => Some((ExprView::Ident(s.subrange(pos, e)), e)),
                None => if pos < s.len() && s[pos] == '(' {
                    let p = spaces_end(s, pos + 1);
                    if pos < p <= s.len() {
                        match level_spec(s, p, 3) {
                            Some((x, q)) => {
                                let q2 = spaces_end(s, q);
                                if 0 <= q2 < s.len() && s[q2] == ')' {
                                    Some((ExprView::Paren(Box::new(x)), q2 + 1))
                                } else {
                                    None
                                }
                            },
                            None => None,
                        }
                    } else {
                        None
                    }
                } else {
                    None
                },
            },
        }
    }
}

/// Operands of tier `t - 1` (atoms when `t` is 1) joined left to right by
/// the operators of tier `t`.
pub open spec fn level_spec(s: Seq<char>, pos: int, t: int) -> Option<(ExprView, int)>
    decreases s.len() - pos, t,
{
    if !(0 <= pos <= s.len()) || t < 1 {
        None
    } else {
        let first = if t == 1 { atom_spec(s, pos) } else { level_spec(s, pos, t - 1) };
        match first {
            Some((x, e)) => if pos < e <= s.len() {
                Some(level_loop(s, t, x, e))
            } else {
                None
            },
            None => None,
        }
    }
}

/// The rest of a tier-`t` chain after `acc`, which ends at `p`.
pub open spec fn level_loop(s: Seq<char>, t: int, acc: ExprView, p: int) -> (ExprView, int)
    decreases s.len() - p, 0int,
{
    if !(0 <= p <= s.len()) || t < 1 {
        (acc, p)
    } else {
        let q = spaces_end(s, p);
        if p <= q < s.len() && is_tier_op(s[q], t) {
            let q2 = spaces_end(s, q + 1);
            if p < q2 <= s.len() {
                let sub = if t == 1 { atom_spec(s, q2) } else { level_spec(s, q2, t - 1) };
                match sub {
                    Some((r, e)) => if q2 < e <= s.len() {
                        level_loop(s, t, ExprView::Bin(s[q], Box::new(acc), Box::new(r)), e)
                    } else {
                        (acc, p)
                    },
                    None => (acc, p),
                }
            } else {
                (acc, p)
            }
        } else {
            (acc, p)
        }
    }
}

/// The expression rule at `pos`.
pub open spec fn expression_spec(s: Seq<char>, pos: int) -> Option<(ExprView, int)> {
    level_spec(s, pos, 3)
}

/// The value of a run of decimal digits.
pub open spec fn dec_value(d: Seq<char>) -> nat
    decreases d.len(),
{
    if d.len() == 0 {
        0
    } else {
        dec_value(d.drop_last()) * 10 + (d.last() as nat - '0' as nat) as nat
    }
}

/// The integer that a numeral without fraction denotes, if it fits in 32 bits.
pub open spec fn int_of(t: Seq<char>) -> Option<int> {
    let v = dec_value(t.subrange(int_start(t), t.len() as int));
    let i = if int_start(t) == 1 { -(v as int) } else { v as int };
    if i32::MIN <= i <= i32::MAX { Some(i) } else { None }
}

/// What a number's canonical text stands for: a float when it has a
/// fraction, else a 32-bit integer (none when it does not fit).
pub open spec fn numeral_of(t: Seq<char>) -> Option<LitView> {
    if t.contains('.') {
        Some(LitView::Float(t))
    } else {
        match int_of(t) {
            Some(i) => Some(LitView::Int(i)),
            None => None,
        }
    }
}

pub proof fn lemma_nat_digits(n: nat)
    ensures
        crate::model::nat_digits(n).len() > 0,
        forall|i: int| 0 <= i < crate::model::nat_digits(n).len() ==> #[trigger] is_digit(crate::model::nat_digits(n)[i]),
        crate::model::nat_digits(n).len() > 1 ==> crate::model::nat_digits(n)[0] != '0',
        dec_value(crate::model::nat_digits(n)) == n,
        strip_leading_zeros(crate::model::nat_digits(n)) == crate::model::nat_digits(n),
        !crate::model::nat_digits(n).contains('.'),
        n >= 10 ==> crate::model::nat_digits(n).len() > 1,
        n < 10 ==> crate::model::nat_digits(n) == seq![crate::model::digit_char(n)],
    decreases n,
{
    let d = crate::model::nat_digits(n);
    if n >= 10 {
        lemma_nat_digits(n / 10);
        let p = crate::model::nat_digits(n / 10);
        assert(d == p.push(crate::model::digit_char(n % 10)));
        assert(d.drop_last() =~= p);
        assert(d[0] == p[0]);
        let j = n % 10;
        assert(((j + 48) as u8) as nat == j + 48);
        assert((((j + 48) as u8) as char) as nat == j + 48);
        assert(d.last() as nat == j + 48);
        assert(dec_value(d) == dec_value(p) * 10 + j);
        assert((n / 10) * 10 + n % 10 == n) by (nonlinear_arith);
        if p.len() == 1 {
            let k = n / 10;
            assert(p == seq![crate::model::digit_char(k)]);
            assert(1 <= k < 10);
            assert(((k + 48) as u8) != 48u8);
            assert(((k + 48) as u8) as char != ((48u8) as char));
            assert('0' == (48u8 as char));
        }
        assert forall|i: int| 0 <= i < d.len() implies #[trigger] is_digit(d[i]) by {
            if i < p.len() {
                assert(d[i] == p[i]);
            }
        }
        if d.contains('.') {
            let k = choose|k: int| 0 <= k < d.len() && d[k] == '.';
            assert(is_digit(d[k]));
        }
    } else {
        if d.contains('.') {
            let k = choose|k: int| 0 <= k < d.len() && d[k] == '.';
            assert(d[k] == crate::model::digit_char(n));
        }
        assert(d.drop_last() =~= Seq::<char>::empty());
        assert((((n + 48) as u8) as char) as nat == n + 48);
        assert(d.last() as nat == n + 48);
        assert(dec_value(d) == dec_value(d.drop_last()) * 10 + n);
        assert(dec_value(Seq::<char>::empty()) == 0);
    }
}

/// The decimal text of an integer is a canonical numeral without fraction
/// that denotes it.
pub proof fn lemma_int_text(i: int)
    requires
        i32::MIN <= i <= i32::MAX,
    ensures
        wf_number(crate::model::int_text(i)),
        !crate::model::int_text(i).contains('.'),
        int_of(crate::model::int_text(i)) == Some(i),
        crate::model::int_text(i)[0] == '-' || is_digit(crate::model::int_text(i)[0]),
        crate::model::int_text(i)[0] == '-' ==> crate::model::int_text(i).len() > 1 && is_digit(crate::model::int_text(i)[1]),
{
    let n: nat = if i < 0 { (-i) as nat } else { i as nat };
    lemma_nat_digits(n);
    let d = crate::model::nat_digits(n);
    let t = crate::model::int_text(i);
    let sign: Seq<char> = if i < 0 { seq!['-'] } else { Seq::empty() };
    assert(t == sign + d);
    assert(is_digit(d[0]));
    assert(t[0] == (if i < 0 { '-' } else { d[0] }));
    assert(int_start(t) == sign.len());
    assert(t.subrange(int_start(t), t.len() as int) =~= d);
    assert(all_in(d, 0, d.len() as int, |c: char| is_digit(c)));
    lemma_canonical_wf(i < 0, d, Seq::empty());
    assert(canonical_decimal(i < 0, d, Seq::empty()) =~= t);
    if t.contains('.') {
        let k = choose|k: int| 0 <= k < t.len() && t[k] == '.';
        if i < 0 && k == 0 {
        } else {
            assert(t[k] == d[k - sign.len()]);
            assert(is_digit(d[k - sign.len()]));
        }
    }
    if i < 0 {
        assert(t[1] == d[0]);
    } else {
        assert(t[0] == d[0]);
    }
}

} // verus!
