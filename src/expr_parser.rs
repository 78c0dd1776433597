//! The expression grammar. From loosest to tightest: `+` and `-`, then `*`
//! and `/`, then `|`, then literals, identifiers and parenthesized
//! expressions. Every binary operator associates to the left.
//!
//! Each parsing function takes a ghost `target`: when the input holds the
//! rendering of a well-formed `target`, the function parses back a tree
//! equal to it. This is how rendering and re-parsing are shown to agree.
use vstd::prelude::*;
use crate::expr_spec::{
    depth, eqv, is_tier_op, lemma_canonical_wf, lemma_number_back, lemma_render_start, lemma_spine,
    lemma_stop_lower, lemma_wf_below, left, mk, node_op, node_tier, number_ok, rendered_at, right,
    spine_at, stop, tail, wf_literal, wf_tier,
};
use crate::lexer::{
    all_in, boolean, digits_end, has_at, has_at_ci, identifier, is_digit, is_ident_char, lit, number,
    skip_spaces, string_literal,
};
use crate::model::{render, render_literal, Expression, Literal};
use crate::expr_spec::{atom_spec, expr_view, level_loop, level_spec, lit_view, literal_spec, ExprView};

verus! {

fn make_node(op: char, l: Expression, r: Expression) -> (e: Expression)
    ensures
        e == mk(op, l, r),
{
    if op == '+' {
        Expression::Add(Box::new(l), Box::new(r))
    } else if op == '-' {
        Expression::Subtract(Box::new(l), Box::new(r))
    } else if op == '*' {
        Expression::Multiply(Box::new(l), Box::new(r))
    } else if op == '/' {
        Expression::Divide(Box::new(l), Box::new(r))
    } else {
        Expression::BitOr(Box::new(l), Box::new(r))
    }
}

proof fn lemma_mk(op: char, t: int, l: Expression, r: Expression, u: Expression)
    requires
        1 <= t <= 3,
        is_tier_op(op, t),
        node_tier(u) == t,
        op == node_op(u),
        eqv(l, left(u)),
        eqv(r, right(u)),
    ensures
        eqv(mk(op, l, r), u),
        node_tier(mk(op, l, r)) == t,
        wf_tier(l, t) && wf_tier(r, t - 1) ==> wf_tier(mk(op, l, r), t),
{
}

/// The operator character at `q`, if it is one of tier `t`.
fn operator_at(s: &Vec<char>, q: usize, t: u8) -> (r: Option<(char, usize)>)
    requires
        q <= s@.len(),
        1 <= t <= 3,
    ensures
        match r {
            Some((c, next)) => q < s@.len() && next == q + 1 && c == s@[q as int] && is_tier_op(c, t as int),
            None => q == s@.len() || !is_tier_op(s@[q as int], t as int),
        },
{
    if q < s.len() {
        let c = s[q];
        let hit = if t == 3 {
            c == '+' || c == '-'
        } else if t == 2 {
            c == '*' || c == '/'
        } else {
            c == '|'
        };
        if hit {
            return Some((c, q + 1));
        }
    }
    None
}


proof fn lemma_at(s: Seq<char>, pos: int, x: Seq<char>)
    requires
        0 <= pos,
        pos + x.len() <= s.len(),
        s.subrange(pos, pos + x.len()) == x,
    ensures
        forall|i: int| 0 <= i < x.len() ==> #[trigger] x[i] == s[pos + i],
{
    assert forall|i: int| 0 <= i < x.len() implies #[trigger] x[i] == s[pos + i] by {
        assert(s.subrange(pos, pos + x.len())[i] == s[pos + i]);
    }
}

proof fn lemma_skip(s: Seq<char>, pos: int, end: int)
    requires
        crate::lexer::run_end(s, pos, end, |c: char| crate::lexer::is_space(c)),
    ensures
        pos < s.len() && !crate::lexer::is_space(s[pos]) ==> end == pos,
        pos + 1 < s.len() && s[pos] == ' ' && !crate::lexer::is_space(s[pos + 1]) ==> end == pos + 1,
{
    let sp = |c: char| crate::lexer::is_space(c);
    if end > pos {
        assert(sp(s[pos]));
    }
    if end > pos + 1 {
        assert(sp(s[pos + 1]));
    }
}

proof fn lemma_ident_wf(s: Seq<char>, pos: int, end: int, i: Seq<char>)
    requires
        0 <= pos < end <= s.len(),
        crate::lexer::is_ident_start(s[pos]),
        crate::lexer::ident_run_end(s, pos + 1, end),
        i == s.subrange(pos, end),
        i != crate::lexer::end_struct_word(),
        i != crate::lexer::end_enum_word(),
        !has_at_ci(s, pos, seq!['T', 'R', 'U', 'E']),
        !has_at_ci(s, pos, seq!['F', 'A', 'L', 'S', 'E']),
    ensures
        crate::expr_spec::wf_ident(i),
{
    let pi = |c: char| is_ident_char(c);
    assert forall|j: int| 1 <= j < i.len() implies #[trigger] pi(i[j]) by {
        assert(i[j] == s[pos + j]);
        assert(pi(s[pos + j]));
    }
    if i.len() >= 4 && has_at_ci(i, 0, seq!['T', 'R', 'U', 'E']) {
        assert forall|j: int| 0 <= j < 4 implies #[trigger] crate::lexer::upper(s[pos + j]) == seq!['T', 'R', 'U', 'E'][j] by {
            assert(crate::lexer::upper(i[0 + j]) == seq!['T', 'R', 'U', 'E'][j]);
            assert(i[j] == s[pos + j]);
        }
    }
    if i.len() >= 5 && has_at_ci(i, 0, seq!['F', 'A', 'L', 'S', 'E']) {
        assert forall|j: int| 0 <= j < 5 implies #[trigger] crate::lexer::upper(s[pos + j]) == seq!['F', 'A', 'L', 'S', 'E'][j] by {
            assert(crate::lexer::upper(i[0 + j]) == seq!['F', 'A', 'L', 'S', 'E'][j]);
            assert(i[j] == s[pos + j]);
        }
    }
}

/// The literal that a number's canonical text stands for: a float when it
/// has a fraction, else a 32-bit integer; `None` when that overflows.
fn numeral_literal(t: String) -> (r: Option<Literal>)
    requires
        crate::expr_spec::wf_number(t@),
    ensures
        match r {
            Some(l) => crate::expr_spec::numeral_of(t@) == Some(lit_view(l)) && wf_literal(l),
            None => crate::expr_spec::numeral_of(t@) is None,
        },
{
    let cs = crate::text::chars_of(t.as_str());
    let mut k: usize = 0;
    while k < cs.len() && cs[k] != '.'
        invariant
            k <= cs@.len(),
            cs@ == t@,
            forall|j: int| 0 <= j < k ==> cs@[j] != '.',
        decreases cs@.len() - k,
    {
        k = k + 1;
    }
    if k < cs.len() {
        proof {
            assert(t@[k as int] == '.');
        }
        return Some(Literal::Float(t));
    }
    let ghost ts = t@;
    proof {
        assert(!ts.contains('.'));
        let b = choose|b: int| crate::expr_spec::int_start(ts) < b <= ts.len() && #[trigger] digits_end(ts, crate::expr_spec::int_start(ts), b) && (b == ts.len() || (ts[b] == '.'
            && b + 1 < ts.len() && digits_end(ts, b + 1, ts.len() as int)))
            && ts == crate::lexer::canonical_decimal(ts[0] == '-', ts.subrange(crate::expr_spec::int_start(ts), b),
                if b == ts.len() { Seq::empty() } else { ts.subrange(b + 1, ts.len() as int) });
        if b < ts.len() {
            assert(ts[b] == '.');
        }
        assert(all_in(ts, crate::expr_spec::int_start(ts), ts.len() as int, |c: char| is_digit(c)));
    }
    let start: usize = if cs.len() > 0 && cs[0] == '-' { 1 } else { 0 };
    assert(start as int == crate::expr_spec::int_start(ts));
    let mut v: u64 = 0;
    let mut big = false;
    let mut i = start;
    while i < cs.len()
        invariant
            start <= i <= cs@.len(),
            cs@ == ts,
            start as int == crate::expr_spec::int_start(ts),
            all_in(ts, start as int, ts.len() as int, |c: char| is_digit(c)),
            !big ==> v as nat == crate::expr_spec::dec_value(ts.subrange(start as int, i as int)) && v <= 2147483648,
            big ==> crate::expr_spec::dec_value(ts.subrange(start as int, i as int)) > 2147483648,
        decreases cs@.len() - i,
    {
        let c = cs[i];
        proof {
            let pd = |c: char| is_digit(c);
            assert(pd(ts[i as int]));
            assert(ts.subrange(start as int, i + 1).drop_last() =~= ts.subrange(start as int, i as int));
        }
        let d: u64 = (c as u32 - 48) as u64;
        if !big {
            let w = v * 10 + d;
            if w > 2147483648 {
                big = true;
            } else {
                v = w;
            }
        }
        i = i + 1;
    }
    proof {
        assert(ts.subrange(start as int, i as int) == ts.subrange(crate::expr_spec::int_start(ts), ts.len() as int));
    }
    if big {
        return None;
    }
    if start == 1 {
        let n: i64 = -(v as i64);
        Some(Literal::Int(n as i32))
    } else if v <= 2147483647 {
        Some(Literal::Int(v as i32))
    } else {
        None
    }
}

/// A literal: `HASH("...")`, a number, or a boolean, tried in that order.
#[verifier::rlimit(100)]
#[verifier::spinoff_prover]
fn literal(s: &Vec<char>, pos: usize, Ghost(target): Ghost<Literal>) -> (r: Option<(Literal, usize)>)
    requires
        pos <= s@.len(),
    ensures
        match r {
            Some((l, end)) => pos < end <= s@.len() && wf_literal(l),
            None => true,
        },
        wf_literal(target) && rendered_at(s@, pos as int, Expression::Literal(target), 0) ==> match r {
            Some((l, end)) => eqv(Expression::Literal(l), Expression::Literal(target)) && end == pos
                + render_literal(target).len(),
            None => false,
        },
        !has_at(s@, pos as int, seq!['H', 'A', 'S', 'H', '(']) && !(pos < s@.len() && is_digit(s@[pos as int]))
            && !(pos < s@.len() && s@[pos as int] == '-') && !has_at_ci(s@, pos as int, seq!['T', 'R', 'U', 'E'])
            && !has_at_ci(s@, pos as int, seq!['F', 'A', 'L', 'S', 'E']) ==> r is None,
        r is None ==> !has_at_ci(s@, pos as int, seq!['T', 'R', 'U', 'E'])
            && !has_at_ci(s@, pos as int, seq!['F', 'A', 'L', 'S', 'E']),
        match r {
            Some((l, end)) => literal_spec(s@, pos as int) == Some((lit_view(l), end as int)),
            None => literal_spec(s@, pos as int) is None,
        },
{
    let n = s.len();
    let ghost m = render_literal(target).len();
    let ghost rest = s@.subrange(pos + m, s@.len() as int);
    let ghost on_target = wf_literal(target) && rendered_at(s@, pos as int, Expression::Literal(target), 0);
    let ghost pq = |c: char| c != '"';
    let hash_word = ['H', 'A', 'S', 'H', '('];
    proof {
        assert(hash_word@ =~= seq!['H', 'A', 'S', 'H', '(']);
        if on_target {
            lemma_at(s@, pos as int, render_literal(target));
            if pos + m < s@.len() {
                assert(rest[0] == s@[pos + m]);
            }
            match target {
                Literal::Hash(h) => {
                    assert(s@.subrange(pos as int, pos + 5) =~= seq!['H', 'A', 'S', 'H', '(']) by {
                        assert forall|j: int| 0 <= j < 5 implies s@.subrange(pos as int, pos + 5)[j] == seq!['H', 'A', 'S', 'H', '('][j] by {
                            assert(render_literal(target)[j] == seq!['H', 'A', 'S', 'H', '('][j]);
                        }
                    }
                },
                Literal::Float(t) => {
                    crate::expr_spec::lemma_number_start(t@);
                },
                Literal::Int(ti) => {
                    crate::expr_spec::lemma_int_text(ti as int);
                },
                _ => {},
            }
            assert(s@[pos as int] == render_literal(target)[0]);
        }
    }
    if lit(s, pos, &hash_word) {
        assert(pos + 5 <= n);
        proof {
            assert(s@.subrange(pos as int, pos + 5)[0] == 'H');
        }
        let p = skip_spaces(s, pos + 5);
        let ghost k = pos + 6 + (match target { Literal::Hash(h) => h@.len(), _ => 0 });
        proof {
            if on_target {
                if let Literal::Hash(h) = target {
                    assert(s@[pos + 5] == render_literal(target)[5]);
                    lemma_skip(s@, pos + 5, p as int);
                    assert(s@[k] == render_literal(target)[6 + h@.len() as int]);
                    assert forall|i: int| pos + 6 <= i < k implies #[trigger] pq(s@[i]) by {
                        assert(s@[i] == render_literal(target)[i - pos]);
                        assert(render_literal(target)[i - pos] == h@[i - pos - 6]);
                        assert(pq(h@[i - pos - 6]));
                    }
                }
            }
        }
        match string_literal(s, p) {
            Some((h, q)) => {
                proof {
                    if on_target {
                        if let Literal::Hash(th) = target {
                            if q - 1 < k {
                                assert(pq(s@[q - 1]));
                            } else if q - 1 > k {
                                assert(pq(s@[k]));
                            }
                            assert(q == k + 1);
                            assert(s@[q as int] == render_literal(target)[7 + th@.len() as int]);
                            assert forall|j: int| 0 <= j < th@.len() implies h@[j] == th@[j] by {
                                assert(render_literal(target)[6 + j] == th@[j]);
                                assert(h@[j] == s@[p + 1 + j]);
                            }
                            assert(h@ =~= th@);
                            assert(pos + m == q + 1);
                        }
                    }
                }
                let q2 = skip_spaces(s, q);
                proof {
                    if on_target && target is Hash {
                        lemma_skip(s@, q as int, q2 as int);
                    }
                }
                if q2 < s.len() && s[q2] == ')' {
                    return Some((Literal::Hash(h), q2 + 1));
                }
            },
            None => {
                proof {
                    if on_target && target is Hash {
                        assert(pq(s@[k]));
                    }
                }
            },
        }
        proof {
            if on_target {
                assert(target is Hash);
            }
        }
    }
    proof {
        if on_target {
            assert(!(target is Hash));
        }
    }
    if let Some((t, end)) = number(s, pos) {
        proof {
            let (a, b) = choose|a: int, b: int|
                pos <= a < b <= end && a == (if s@[pos as int] == '-' { pos + 1 } else { pos as int })
                && #[trigger] digits_end(s@, a, b)
                && (b == end || (s@[b] == '.' && b + 1 < end && crate::lexer::run_end(s@, b + 1, end as int, |c: char| is_digit(c))))
                && t@ == crate::lexer::canonical_decimal(s@[pos as int] == '-', s@.subrange(a, b),
                    if b == end { Seq::empty() } else { s@.subrange(b + 1, end as int) })
                && (b == end ==> !(b + 1 < s@.len() && s@[b] == '.' && is_digit(s@[b + 1])));
            let pd = |c: char| is_digit(c);
            let d = s@.subrange(a, b);
            assert(all_in(d, 0, d.len() as int, pd)) by {
                assert forall|i: int| 0 <= i < d.len() implies #[trigger] pd(d[i]) by {
                    assert(pd(s@[a + i]));
                }
            }
            let f: Seq<char> = if b == end { Seq::empty() } else { s@.subrange(b + 1, end as int) };
            assert(all_in(f, 0, f.len() as int, pd)) by {
                assert forall|i: int| 0 <= i < f.len() implies #[trigger] pd(f[i]) by {
                    assert(pd(s@[b + 1 + i]));
                }
            }
            lemma_canonical_wf(s@[pos as int] == '-', d, f);
            assert(pd(s@[a]));
            assert(number_ok(s@, pos as int, t@, end as int));
            if on_target {
                match target {
                    Literal::Float(tt) => {
                        assert(s@.subrange(pos as int, pos + m) == tt@);
                        lemma_number_back(s@, pos as int, tt@, t@, end as int);
                    },
                    Literal::Int(ti) => {
                        crate::expr_spec::lemma_int_text(ti as int);
                        let tt = crate::model::int_text(ti as int);
                        assert(s@.subrange(pos as int, pos + m) == tt);
                        lemma_number_back(s@, pos as int, tt, t@, end as int);
                    },
                    _ => {},
                }
            }
            assert(s@[pos as int] == '-' || is_digit(s@[pos as int]));
            assert(!has_at_ci(s@, pos as int, seq!['T', 'R', 'U', 'E'])) by {
                if has_at_ci(s@, pos as int, seq!['T', 'R', 'U', 'E']) {
                    assert(crate::lexer::upper(s@[pos + 0]) == 'T');
                }
            }
            assert(!has_at_ci(s@, pos as int, seq!['F', 'A', 'L', 'S', 'E'])) by {
                if has_at_ci(s@, pos as int, seq!['F', 'A', 'L', 'S', 'E']) {
                    assert(crate::lexer::upper(s@[pos + 0]) == 'F');
                }
            }
        }
        return match numeral_literal(t) {
            Some(l) => Some((l, end)),
            None => None,
        };
    }
    proof {
        if on_target {
            if let Literal::Float(tt) = target {
                crate::expr_spec::lemma_number_start(tt@);
                assert(s@[pos as int] == render_literal(target)[0]);
                if tt@[0] == '-' {
                    assert(s@[pos + 1] == render_literal(target)[1]);
                }
            }
            if let Literal::Int(ti) = target {
                crate::expr_spec::lemma_int_text(ti as int);
                assert(s@[pos as int] == render_literal(target)[0]);
                if render_literal(target)[0] == '-' {
                    assert(s@[pos + 1] == render_literal(target)[1]);
                }
            }
        }
    }
    match boolean(s, pos) {
        Some((b, end)) => {
            proof {
                if on_target {
                    if let Literal::Bool(tb) = target {
                        if tb {
                            assert(s@[pos + 0] == 't');
                            assert(crate::lexer::upper(s@[pos + 0]) == 'T');
                        } else {
                            assert(s@[pos + 0] == 'f');
                            assert(crate::lexer::upper(s@[pos + 0]) == 'F');
                        }
                    }
                }
            }
            Some((Literal::Bool(b), end))
        },
        None => {
            proof {
                if on_target {
                    if let Literal::Bool(tb) = target {
                        if tb {
                            assert(has_at_ci(s@, pos as int, seq!['T', 'R', 'U', 'E'])) by {
                                assert forall|j: int| 0 <= j < 4 implies #[trigger] crate::lexer::upper(s@[pos + j]) == seq!['T', 'R', 'U', 'E'][j] by {
                                    assert(s@[pos + j] == render_literal(target)[j]);
                                }
                            }
                        } else {
                            assert(has_at_ci(s@, pos as int, seq!['F', 'A', 'L', 'S', 'E'])) by {
                                assert forall|j: int| 0 <= j < 5 implies #[trigger] crate::lexer::upper(s@[pos + j]) == seq!['F', 'A', 'L', 'S', 'E'][j] by {
                                    assert(s@[pos + j] == render_literal(target)[j]);
                                }
                            }
                        }
                    }
                }
            }
            None
        },
    }
}

/// A literal, an identifier, or a parenthesized expression.
fn atom(s: &Vec<char>, pos: usize, Ghost(target): Ghost<Expression>) -> (r: Option<(Expression, usize)>)
    requires
        pos <= s@.len(),
    ensures
        match r {
            Some((e, end)) => pos < end <= s@.len() && wf_tier(e, 0),
            None => true,
        },
        wf_tier(target, 0) && rendered_at(s@, pos as int, target, 0) ==> match r {
            Some((e, end)) => eqv(e, target) && end == pos + render(target).len(),
            None => false,
        },
        match r {
            Some((e, end)) => atom_spec(s@, pos as int) == Some((expr_view(e), end as int)),
            None => atom_spec(s@, pos as int) is None,
        },
    decreases s@.len() - pos, 0nat,
{
    let ghost on_target = wf_tier(target, 0) && rendered_at(s@, pos as int, target, 0);
    let ghost tl = match target {
        Expression::Literal(l) => l,
        _ => Literal::Bool(true),
    };
    proof {
        if on_target {
            lemma_at(s@, pos as int, render(target));
            lemma_render_start(target, 0);
            assert(s@[pos as int] == render(target)[0]);
            if let Expression::Literal(l) = target {
                assert(rendered_at(s@, pos as int, Expression::Literal(tl), 0));
            }
        }
    }
    if let Some((l, end)) = literal(s, pos, Ghost(tl)) {
        proof {
            if on_target && !(target is Literal) {
                lemma_not_literal(s@, pos as int, target);
            }
        }
        return Some((Expression::Literal(l), end));
    }
    if let Some((i, end)) = identifier(s, pos) {
        proof {
            lemma_ident_wf(s@, pos as int, end as int, i@);
            if on_target {
                lemma_not_literal(s@, pos as int, target);
                if let Expression::Identifier(n) = target {
                    lemma_identifier_back(s@, pos as int, n@, i@, end as int);
                } else {
                    assert(crate::lexer::is_ident_start(s@[pos as int]));
                }
            }
        }
        return Some((Expression::Identifier(i), end));
    }
    proof {
        if on_target {
            lemma_not_literal(s@, pos as int, target);
            if let Expression::Identifier(n) = target {
                lemma_identifier_found(s@, pos as int, n@);
                assert(false);
            }
            assert(!(target is Literal));
            assert(target is Parentheses);
        }
    }
    if pos < s.len() && s[pos] == '(' {
        let ghost inner = match target {
            Expression::Parentheses(x) => *x,
            _ => target,
        };
        proof {
            if on_target {
                if let Expression::Parentheses(x) = target {
                    let m = render(inner).len();
                    assert(render(target) == seq!['('] + render(inner) + seq![')']);
                    lemma_render_start(inner, 3);
                    assert(render(target)[1] == render(inner)[0]);
                    assert(s@[pos + 1] == render(inner)[0]);
                    assert forall|j: int| 0 <= j < m implies #[trigger] render(inner)[j] == s@[pos + 1 + j] by {
                        assert(render(target)[1 + j] == render(inner)[j]);
                    }
                    assert(s@.subrange(pos + 1, pos + 1 + m) =~= render(inner));
                    assert(render(target)[1 + m as int] == ')');
                    assert(s@[pos + 1 + m] == ')');
                    assert(stop(s@.subrange(pos + 1 + m, s@.len() as int), 3));
                    assert(wf_tier(inner, 3));
                    assert(rendered_at(s@, pos + 1, inner, 3));
                }
            }
        }
        let p = skip_spaces(s, pos + 1);
        proof {
            if on_target && target is Parentheses {
                lemma_skip(s@, pos + 1, p as int);
                assert(p == pos + 1);
                assert(rendered_at(s@, p as int, inner, 3));
            }
        }
        let sub = level(s, p, 3, Ghost(inner));
        proof {
            if on_target && target is Parentheses {
                assert(sub is Some);
            }
        }
        if let Some((e, q)) = sub {
            let q2 = skip_spaces(s, q);
            proof {
                if on_target && target is Parentheses {
                    lemma_skip(s@, q as int, q2 as int);
                }
            }
            proof {
                if on_target && target is Parentheses {
                    assert(q2 == q);
                    assert(s@[q2 as int] == ')');
                    assert(render(target).len() == render(inner).len() + 2);
                    assert(eqv(Expression::Parentheses(Box::new(e)), target));
                }
            }
            if q2 < s.len() && s[q2] == ')' {
                return Some((Expression::Parentheses(Box::new(e)), q2 + 1));
            }
        }
    }
    None
}

proof fn lemma_not_literal(s: Seq<char>, pos: int, target: Expression)
    requires
        wf_tier(target, 0),
        rendered_at(s, pos, target, 0),
        !(target is Literal),
    ensures
        !has_at(s, pos, seq!['H', 'A', 'S', 'H', '(']),
        !(pos < s.len() && is_digit(s[pos])),
        !(pos < s.len() && s[pos] == '-'),
        !has_at_ci(s, pos, seq!['T', 'R', 'U', 'E']),
        !has_at_ci(s, pos, seq!['F', 'A', 'L', 'S', 'E']),
{
    let r = render(target);
    let rest = s.subrange(pos + r.len(), s.len() as int);
    assert(s[pos] == r[0]);
    match target {
        Expression::Identifier(n) => {
            let m = n@.len();
            let pi = |c: char| is_ident_char(c);
            // the character after the name is not part of a word
            assert(pos + m == s.len() || s[pos + m] == ' ' || s[pos + m] == ')') by {
                if pos + m < s.len() {
                    assert(s[pos + m] == rest[0]);
                }
            }
            assert forall|j: int| 0 <= j < m implies s[pos + j] == #[trigger] n@[j] by {
                assert(s[pos + j] == r[j]);
            }
            if has_at(s, pos, seq!['H', 'A', 'S', 'H', '(']) {
                assert(s.subrange(pos, pos + 5)[4] == '(');
                if m > 4 {
                    assert(pi(n@[4]));
                }
            }
            if has_at_ci(s, pos, seq!['T', 'R', 'U', 'E']) {
                if m >= 4 {
                    assert(has_at_ci(n@, 0, seq!['T', 'R', 'U', 'E'])) by {
                        assert forall|j: int| 0 <= j < 4 implies #[trigger] crate::lexer::upper(n@[0 + j]) == seq!['T', 'R', 'U', 'E'][j] by {
                            assert(crate::lexer::upper(s[pos + j]) == seq!['T', 'R', 'U', 'E'][j]);
                        }
                    }
                } else {
                    assert(crate::lexer::upper(s[pos + m]) == seq!['T', 'R', 'U', 'E'][m as int]);
                }
            }
            if has_at_ci(s, pos, seq!['F', 'A', 'L', 'S', 'E']) {
                if m >= 5 {
                    assert(has_at_ci(n@, 0, seq!['F', 'A', 'L', 'S', 'E'])) by {
                        assert forall|j: int| 0 <= j < 5 implies #[trigger] crate::lexer::upper(n@[0 + j]) == seq!['F', 'A', 'L', 'S', 'E'][j] by {
                            assert(crate::lexer::upper(s[pos + j]) == seq!['F', 'A', 'L', 'S', 'E'][j]);
                        }
                    }
                } else {
                    assert(crate::lexer::upper(s[pos + m]) == seq!['F', 'A', 'L', 'S', 'E'][m as int]);
                }
            }
        },
        Expression::Parentheses(_) => {
            if has_at_ci(s, pos, seq!['T', 'R', 'U', 'E']) {
                assert(crate::lexer::upper(s[pos + 0]) == 'T');
            }
            if has_at_ci(s, pos, seq!['F', 'A', 'L', 'S', 'E']) {
                assert(crate::lexer::upper(s[pos + 0]) == 'F');
            }
            if has_at(s, pos, seq!['H', 'A', 'S', 'H', '(']) {
                assert(s.subrange(pos, pos + 5)[0] == 'H');
            }
        },
        _ => {},
    }
}

proof fn lemma_identifier_back(s: Seq<char>, pos: int, n: Seq<char>, i: Seq<char>, end: int)
    requires
        crate::expr_spec::wf_ident(n),
        0 <= pos,
        pos + n.len() <= s.len(),
        s.subrange(pos, pos + n.len()) == n,
        pos + n.len() == s.len() || s[pos + n.len()] == ' ' || s[pos + n.len()] == ')',
        pos < end,
        crate::lexer::ident_run_end(s, pos + 1, end),
        i == s.subrange(pos, end),
    ensures
        i == n,
        end == pos + n.len(),
{
    let pi = |c: char| is_ident_char(c);
    assert(crate::lexer::ident_run_end(s, pos + 1, pos + n.len())) by {
        assert forall|j: int| pos + 1 <= j < pos + n.len() implies #[trigger] pi(s[j]) by {
            assert(s[j] == n[j - pos]);
            assert(pi(n[j - pos]));
        }
    }
    crate::lexer::lemma_run_end_unique(s, pos + 1, end, pos + n.len(), pi);
}

proof fn lemma_identifier_found(s: Seq<char>, pos: int, n: Seq<char>)
    requires
        crate::expr_spec::wf_ident(n),
        0 <= pos,
        pos + n.len() <= s.len(),
        s.subrange(pos, pos + n.len()) == n,
        pos + n.len() == s.len() || s[pos + n.len()] == ' ' || s[pos + n.len()] == ')',
    ensures
        pos < s.len() && crate::lexer::is_ident_start(s[pos]),
        forall|e: int| #[trigger] crate::lexer::ident_run_end(s, pos + 1, e) ==> s.subrange(pos, e) == n,
{
    assert(s[pos] == n[0]);
    let pi = |c: char| is_ident_char(c);
    assert(crate::lexer::ident_run_end(s, pos + 1, pos + n.len())) by {
        assert forall|j: int| pos + 1 <= j < pos + n.len() implies #[trigger] pi(s[j]) by {
            assert(s[j] == n[j - pos]);
            assert(pi(n[j - pos]));
        }
    }
    assert forall|e: int| #[trigger] crate::lexer::ident_run_end(s, pos + 1, e) implies s.subrange(pos, e) == n by {
        crate::lexer::lemma_run_end_unique(s, pos + 1, e, pos + n.len(), pi);
    }
}

/// Operands of tier `t - 1` joined by the operators of tier `t` (1: `|`;
/// 2: `*` and `/`; 3: `+` and `-`).
fn level(s: &Vec<char>, pos: usize, t: u8, Ghost(target): Ghost<Expression>) -> (r: Option<(Expression, usize)>)
    requires
        pos <= s@.len(),
        1 <= t <= 3,
    ensures
        match r {
            Some((e, end)) => pos < end <= s@.len() && wf_tier(e, t as int),
            None => true,
        },
        wf_tier(target, t as int) && rendered_at(s@, pos as int, target, t as int) ==> match r {
            Some((e, end)) => eqv(e, target) && end == pos + render(target).len(),
            None => false,
        },
        match r {
            Some((e, end)) => level_spec(s@, pos as int, t as int) == Some((expr_view(e), end as int)),
            None => level_spec(s@, pos as int, t as int) is None,
        },
    decreases s@.len() - pos, t,
{
    let ghost ti = t as int;
    let ghost on_target = wf_tier(target, ti) && rendered_at(s@, pos as int, target, ti);
    let ghost dt = depth(target, ti);
    let ghost rt_len = render(target).len();
    let ghost rest = s@.subrange(pos + rt_len, s@.len() as int);
    let ghost first = spine_at(target, ti, 0);
    proof {
        lemma_spine(target, ti, 0);
        if on_target {
            lemma_at(s@, pos as int, render(target));
            lemma_at(s@, pos + rt_len, rest);
            lemma_render_start(target, ti);
            let m = render(first).len() as int;
            assert(render(target) == render(first) + tail(target, ti, 0));
            assert forall|j: int| 0 <= j < m implies #[trigger] render(first)[j] == s@[pos + j] by {
                assert(render(target)[j] == render(first)[j]);
            }
            assert(s@.subrange(pos as int, pos + m) =~= render(first));
            let after = s@.subrange(pos + m, s@.len() as int);
            if dt > 0 {
                lemma_spine(target, ti, 1);
                let u = spine_at(target, ti, 1);
                assert(tail(target, ti, 0) == seq![' ', node_op(u), ' '] + render(right(u)) + tail(target, ti, 1));
                assert(render(target)[m] == tail(target, ti, 0)[0]);
                assert(render(target)[m + 1] == tail(target, ti, 0)[1]);
                assert(after[0] == ' ');
                assert(after[1] == node_op(u));
                assert(is_tier_op(after[1], ti));
                assert(stop(after, ti - 1));
            } else {
                assert(tail(target, ti, 0).len() == 0);
                assert(after =~= rest);
                lemma_stop_lower(rest, ti, ti - 1);
            }
            assert(rendered_at(s@, pos as int, first, ti - 1));
        }
    }
    let (mut l, mut p) = if t == 1 {
        match atom(s, pos, Ghost(first)) {
            Some(x) => x,
            None => return None,
        }
    } else {
        match level(s, pos, t - 1, Ghost(first)) {
            Some(x) => x,
            None => return None,
        }
    };
    let ghost mut k: nat = 0;
    proof {
        lemma_wf_below(l, ti - 1);
    }
    loop
        invariant
            pos < p <= s@.len(),
            1 <= t <= 3,
            ti == t as int,
            dt == depth(target, ti),
            rt_len == render(target).len(),
            rest == s@.subrange(pos + rt_len, s@.len() as int),
            on_target == (wf_tier(target, ti) && rendered_at(s@, pos as int, target, ti)),
            wf_tier(l, ti),
            level_spec(s@, pos as int, ti) == Some(level_loop(s@, ti, expr_view(l), p as int)),
            on_target ==> k <= dt && eqv(l, spine_at(target, ti, k)) && p == pos + render(spine_at(target, ti, k)).len(),
        ensures
            pos < p <= s@.len(),
            wf_tier(l, ti),
            level_spec(s@, pos as int, ti) == Some((expr_view(l), p as int)),
            on_target ==> k == dt && eqv(l, spine_at(target, ti, k)) && p == pos + render(spine_at(target, ti, k)).len(),
        decreases s@.len() - p,
    {
        let ghost sk = spine_at(target, ti, k);
        let ghost u = spine_at(target, ti, k + 1);
        let ghost rt = right(u);
        let ghost ms = render(sk).len() as int;
        proof {
            if on_target {
                lemma_at(s@, pos as int, render(target));
                lemma_at(s@, pos + rt_len, rest);
                lemma_spine(target, ti, k);
                assert(render(target) == render(sk) + tail(target, ti, k));
                if k < dt {
                    lemma_spine(target, ti, (k + 1) as nat);
                    assert(tail(target, ti, k) == seq![' ', node_op(u), ' '] + render(rt) + tail(target, ti, k + 1));
                    assert(render(target)[ms] == tail(target, ti, k)[0]);
                    assert(render(target)[ms + 1] == tail(target, ti, k)[1]);
                    assert(render(target)[ms + 2] == tail(target, ti, k)[2]);
                    assert(s@[p as int] == ' ');
                    assert(s@[p + 1] == node_op(u));
                    assert(s@[p + 2] == ' ');
                    lemma_render_start(rt, ti - 1);
                    assert(render(target)[ms + 3] == render(rt)[0]);
                    assert(s@[p + 3] == render(rt)[0]);
                } else {
                    assert(tail(target, ti, k).len() == 0);
                    assert(ms == rt_len);
                    if rest.len() > 0 {
                        assert(s@[p as int] == rest[0]);
                    }
                    if rest.len() > 1 {
                        assert(s@[p + 1] == rest[1]);
                    }
                }
            }
        }
        let q = skip_spaces(s, p);
        proof {
            lemma_skip(s@, p as int, q as int);
            if on_target {
                if k < dt {
                    assert(q == p + 1);
                } else if rest.len() >= 2 && rest[0] == ' ' && rest[0] != ')' {
                    let w = choose|w: int| ti < w <= 3 && #[trigger] is_tier_op(rest[1], w);
                    assert(q == p + 1);
                    assert(!is_tier_op(s@[q as int], ti));
                } else {
                    assert(q == p);
                }
            }
        }
        let (op, next) = match operator_at(s, q, t) {
            Some(x) => x,
            None => break,
        };
        proof {
            if on_target && k < dt {
                let m = render(rt).len() as int;
                assert forall|j: int| 0 <= j < m implies #[trigger] render(rt)[j] == s@[next + 1 + j] by {
                    assert(render(target)[ms + 3 + j] == render(rt)[j]);
                }
                assert(s@.subrange(next + 1, next + 1 + m) =~= render(rt));
                let after = s@.subrange(next + 1 + m, s@.len() as int);
                if k + 1 < dt {
                    lemma_spine(target, ti, (k + 1) as nat);
                    let u2 = spine_at(target, ti, k + 2);
                    assert(tail(target, ti, k + 1) == seq![' ', node_op(u2), ' '] + render(right(u2)) + tail(target, ti, k + 2));
                    assert(render(target)[ms + 3 + m] == tail(target, ti, k + 1)[0]);
                    assert(render(target)[ms + 4 + m] == tail(target, ti, k + 1)[1]);
                    assert(after[0] == ' ');
                    assert(after[1] == node_op(u2));
                    assert(is_tier_op(after[1], ti));
                } else {
                    lemma_spine(target, ti, (k + 1) as nat);
                    assert(tail(target, ti, k + 1).len() == 0);
                    assert(after =~= rest);
                    lemma_stop_lower(rest, ti, ti - 1);
                }
                assert(rendered_at(s@, next + 1, rt, ti - 1));
            }
        }
        let q2 = skip_spaces(s, next);
        proof {
            lemma_skip(s@, next as int, q2 as int);
        }
        let sub = if t == 1 {
            atom(s, q2, Ghost(rt))
        } else {
            level(s, q2, t - 1, Ghost(rt))
        };
        match sub {
            Some((r, e)) => {
                proof {
                    lemma_wf_below(r, ti - 1);
                    lemma_mk_wf(op, ti, l, r);
                    lemma_mk_view(op, ti, l, r);
                    if on_target {
                        lemma_mk(op, ti, l, r, u);
                        assert(render(u) == render(sk) + seq![' ', node_op(u), ' '] + render(rt));
                        k = k + 1;
                    }
                }
                l = make_node(op, l, r);
                p = e;
            },
            None => break,
        }
    }
    proof {
        if on_target {
            lemma_spine(target, ti, k);
        }
    }
    Some((l, p))
}

proof fn lemma_mk_view(op: char, t: int, l: Expression, r: Expression)
    requires
        1 <= t <= 3,
        is_tier_op(op, t),
    ensures
        expr_view(mk(op, l, r)) == ExprView::Bin(op, Box::new(expr_view(l)), Box::new(expr_view(r))),
{
}

proof fn lemma_mk_wf(op: char, t: int, l: Expression, r: Expression)
    requires
        1 <= t <= 3,
        is_tier_op(op, t),
        wf_tier(l, t),
        wf_tier(r, t - 1),
    ensures
        wf_tier(mk(op, l, r), t),
{
}

/// An expression: products joined by `+` and `-`. What it returns is a
/// tree of the shape the grammar gives (`wf_tier(e, 3)`).
pub fn expression(s: &Vec<char>, pos: usize) -> (r: Option<(Expression, usize)>)
    requires
        pos <= s@.len(),
    ensures
        match r {
            Some((e, end)) => pos < end <= s@.len() && wf_tier(e, 3),
            None => true,
        },
        match r {
            Some((e, end)) => crate::expr_spec::expression_spec(s@, pos as int) == Some((expr_view(e), end as int)),
            None => crate::expr_spec::expression_spec(s@, pos as int) is None,
        },
{
    level(s, pos, 3, Ghost(arbitrary()))
}

/// Renders `e` and parses the text back: a tree of the shape the grammar
/// gives comes back equal to itself, having read the whole text.
pub fn reparse(e: &Expression) -> (r: Option<(Expression, usize)>)
    requires
        wf_tier(*e, 3),
    ensures
        match r {
            Some((e2, end)) => eqv(e2, *e) && end == render(*e).len(),
            None => false,
        },
{
    let mut v: Vec<char> = Vec::new();
    e.render_into(&mut v);
    proof {
        assert(v@ =~= render(*e));
        assert(v@.subrange(0, render(*e).len() as int) =~= render(*e));
        assert(v@.subrange(render(*e).len() as int, v@.len() as int).len() == 0);
    }
    level(&v, 0, 3, Ghost(*e))
}

} // verus!
