//! Properties of the parser stated over the grammar.
use vstd::prelude::*;
use crate::syntax::{ErrorKind, ExprView};
use crate::text::{is_space, is_digit, is_operator, is_number_char, is_allowed, all_allowed, strip_spaces};
use crate::grammar::{
    valid_literal, literal_end, at, base_at, factor_at, term_rest, term_at, expr_rest, expr_at,
    parse_text,
};

verus! {

/// Every literal of the tree is a valid number literal.
pub open spec fn well_formed(e: ExprView) -> bool
    decreases e,
{
    match e {
        ExprView::Num(d) => valid_literal(d),
        ExprView::Add(a, b) => well_formed(*a) && well_formed(*b),
        ExprView::Sub(a, b) => well_formed(*a) && well_formed(*b),
        ExprView::Mul(a, b) => well_formed(*a) && well_formed(*b),
        ExprView::Div(a, b) => well_formed(*a) && well_formed(*b),
        ExprView::Rem(a, b) => well_formed(*a) && well_formed(*b),
        ExprView::Pow(a, b) => well_formed(*a) && well_formed(*b),
    }
}

/// `(a op b)`: two operands joined by `op` inside parentheses.
pub open spec fn wrap(a: Seq<char>, op: char, b: Seq<char>) -> Seq<char> {
    seq!['('] + a + seq![op] + b + seq![')']
}

/// The text of a tree with every operation in parentheses.
pub open spec fn render(e: ExprView) -> Seq<char>
    decreases e,
{
    match e {
        ExprView::Num(d) => d,
        ExprView::Add(a, b) => wrap(render(*a), '+', render(*b)),
        ExprView::Sub(a, b) => wrap(render(*a), '-', render(*b)),
        ExprView::Mul(a, b) => wrap(render(*a), '*', render(*b)),
        ExprView::Div(a, b) => wrap(render(*a), '/', render(*b)),
        ExprView::Rem(a, b) => wrap(render(*a), '%', render(*b)),
        ExprView::Pow(a, b) => wrap(render(*a), '^', render(*b)),
    }
}

proof fn lemma_literal_end(s: Seq<char>, p: int, q: int)
    requires
        0 <= p <= q <= s.len(),
        forall|i: int| p <= i < q ==> is_number_char(#[trigger] s[i]),
        q == s.len() || !is_number_char(s[q]),
    ensures
        literal_end(s, p) == q,
    decreases q - p,
{
    if p < q {
        lemma_literal_end(s, p + 1, q);
    }
}

proof fn lemma_render_facts(e: ExprView)
    requires
        well_formed(e),
    ensures
        render(e).len() > 0,
        all_allowed(render(e)),
    decreases e,
{
    match e {
        ExprView::Num(d) => {
            let j = choose|j: int| 0 <= j < d.len() && is_digit(#[trigger] d[j]);
        },
        ExprView::Add(a, b) => {
            lemma_render_facts(*a);
            lemma_render_facts(*b);
            lemma_wrap_allowed(render(*a), '+', render(*b));
        },
        ExprView::Sub(a, b) => {
            lemma_render_facts(*a);
            lemma_render_facts(*b);
            lemma_wrap_allowed(render(*a), '-', render(*b));
        },
        ExprView::Mul(a, b) => {
            lemma_render_facts(*a);
            lemma_render_facts(*b);
            lemma_wrap_allowed(render(*a), '*', render(*b));
        },
        ExprView::Div(a, b) => {
            lemma_render_facts(*a);
            lemma_render_facts(*b);
            lemma_wrap_allowed(render(*a), '/', render(*b));
        },
        ExprView::Rem(a, b) => {
            lemma_render_facts(*a);
            lemma_render_facts(*b);
            lemma_wrap_allowed(render(*a), '%', render(*b));
        },
        ExprView::Pow(a, b) => {
            lemma_render_facts(*a);
            lemma_render_facts(*b);
            lemma_wrap_allowed(render(*a), '^', render(*b));
        },
    }
}

proof fn lemma_wrap_allowed(a: Seq<char>, op: char, b: Seq<char>)
    requires
        all_allowed(a),
        all_allowed(b),
        is_allowed(op),
    ensures
        all_allowed(wrap(a, op, b)),
{
    let w = wrap(a, op, b);
    assert forall|i: int| 0 <= i < w.len() implies is_allowed(#[trigger] w[i]) by {
        if 1 <= i < 1 + a.len() {
            assert(w[i] == a[i - 1]);
        } else if 2 + a.len() <= i < w.len() - 1 {
            assert(w[i] == b[i - 2 - a.len()]);
        }
    }
}

/// The tree that `op` builds from two operands.
pub open spec fn node(op: char, a: ExprView, b: ExprView) -> ExprView {
    if op == '+' {
        ExprView::Add(Box::new(a), Box::new(b))
    } else if op == '-' {
        ExprView::Sub(Box::new(a), Box::new(b))
    } else if op == '*' {
        ExprView::Mul(Box::new(a), Box::new(b))
    } else if op == '/' {
        ExprView::Div(Box::new(a), Box::new(b))
    } else if op == '%' {
        ExprView::Rem(Box::new(a), Box::new(b))
    } else {
        ExprView::Pow(Box::new(a), Box::new(b))
    }
}

/// `(a op b)` at `p`, given where each operand's parse ends.
proof fn lemma_wrapped_parses(s: Seq<char>, p: int, a: ExprView, op: char, b: ExprView, qa: int, qb: int)
    requires
        0 <= p,
        p + 1 < qa,
        qa + 1 < qb < s.len(),
        s[p] == '(',
        s[qa] == op,
        s[qb] == ')',
        is_operator(op),
        base_at(s, p + 1) == Ok::<(ExprView, int), ErrorKind>((a, qa)),
        op != '^' ==> factor_at(s, p + 1) == Ok::<(ExprView, int), ErrorKind>((a, qa)),
        factor_at(s, qa + 1) == Ok::<(ExprView, int), ErrorKind>((b, qb)),
    ensures
        base_at(s, p) == Ok::<(ExprView, int), ErrorKind>((node(op, a, b), qb + 1)),
{
    let n = node(op, a, b);
    if op == '+' || op == '-' {
        assert(term_rest(s, qa, a) == Ok::<(ExprView, int), ErrorKind>((a, qa)));
        assert(term_at(s, p + 1) == Ok::<(ExprView, int), ErrorKind>((a, qa)));
        assert(term_rest(s, qb, b) == Ok::<(ExprView, int), ErrorKind>((b, qb)));
        assert(term_at(s, qa + 1) == Ok::<(ExprView, int), ErrorKind>((b, qb)));
        assert(expr_rest(s, qb, n) == Ok::<(ExprView, int), ErrorKind>((n, qb)));
        assert(expr_rest(s, qa, a) == Ok::<(ExprView, int), ErrorKind>((n, qb)));
        assert(expr_at(s, p + 1) == Ok::<(ExprView, int), ErrorKind>((n, qb)));
    } else if op == '^' {
        assert(factor_at(s, p + 1) == Ok::<(ExprView, int), ErrorKind>((n, qb)));
        assert(term_rest(s, qb, n) == Ok::<(ExprView, int), ErrorKind>((n, qb)));
        assert(term_at(s, p + 1) == Ok::<(ExprView, int), ErrorKind>((n, qb)));
        assert(expr_rest(s, qb, n) == Ok::<(ExprView, int), ErrorKind>((n, qb)));
        assert(expr_at(s, p + 1) == Ok::<(ExprView, int), ErrorKind>((n, qb)));
    } else {
        assert(term_rest(s, qb, n) == Ok::<(ExprView, int), ErrorKind>((n, qb)));
        assert(term_rest(s, qa, a) == Ok::<(ExprView, int), ErrorKind>((n, qb)));
        assert(term_at(s, p + 1) == Ok::<(ExprView, int), ErrorKind>((n, qb)));
        assert(expr_rest(s, qb, n) == Ok::<(ExprView, int), ErrorKind>((n, qb)));
        assert(expr_at(s, p + 1) == Ok::<(ExprView, int), ErrorKind>((n, qb)));
    }
}

/// Where `(a op b)` stands in `s` at `p`, so do its parts.
proof fn lemma_wrap_slices(s: Seq<char>, p: int, a: Seq<char>, op: char, b: Seq<char>)
    requires
        0 <= p,
        p + wrap(a, op, b).len() <= s.len(),
        s.subrange(p, p + wrap(a, op, b).len()) == wrap(a, op, b),
    ensures
        s[p] == '(',
        s.subrange(p + 1, p + 1 + a.len()) == a,
        s[p + 1 + a.len()] == op,
        s.subrange(p + 2 + a.len(), p + 2 + a.len() + b.len()) == b,
        s[p + 2 + a.len() + b.len()] == ')',
{
    let w = wrap(a, op, b);
    let n = w.len();
    assert forall|i: int| 0 <= i < n implies s[p + i] == #[trigger] w[i] by {
        assert(s.subrange(p, p + n)[i] == s[p + i]);
    }
    assert(w[0] == '(');
    assert(w[1 + a.len() as int] == op);
    assert(w[2 + a.len() + b.len() as int] == ')');
    assert(s.subrange(p + 1, p + 1 + a.len()) =~= a) by {
        assert forall|i: int| 0 <= i < a.len() implies s[p + 1 + i] == a[i] by {
            assert(w[1 + i] == a[i]);
        }
    }
    assert(s.subrange(p + 2 + a.len(), p + 2 + a.len() + b.len()) =~= b) by {
        assert forall|i: int| 0 <= i < b.len() implies s[p + 2 + a.len() + i] == b[i] by {
            assert(w[2 + a.len() + i] == b[i]);
        }
    }
}

/// The text of a well-formed tree, standing in `s` at `p` and not followed by a
/// number character, is read back as that tree by `base`, and by `factor` where
/// no `^` follows.
proof fn lemma_render_parses(s: Seq<char>, p: int, e: ExprView)
    requires
        well_formed(e),
        0 <= p,
        p + render(e).len() <= s.len(),
        s.subrange(p, p + render(e).len()) == render(e),
        p + render(e).len() == s.len() || !is_number_char(s[p + render(e).len()]),
    ensures
        base_at(s, p) == Ok::<(ExprView, int), ErrorKind>((e, p + render(e).len())),
        !at(s, p + render(e).len(), '^') ==> factor_at(s, p) == Ok::<(ExprView, int), ErrorKind>(
            (e, p + render(e).len()),
        ),
    decreases e,
{
    lemma_render_facts(e);
    let n = render(e).len();
    match e {
        ExprView::Num(d) => {
            assert forall|i: int| p <= i < p + n implies is_number_char(#[trigger] s[i]) by {
                assert(s[i] == s.subrange(p, p + n)[i - p]);
            }
            lemma_literal_end(s, p, p + n);
        },
        ExprView::Add(a, b) => {
            lemma_render_facts(*a);
            lemma_render_facts(*b);
            lemma_wrap_slices(s, p, render(*a), '+', render(*b));
            let qa = p + 1 + render(*a).len();
            let qb = qa + 1 + render(*b).len();
            lemma_render_parses(s, p + 1, *a);
            lemma_render_parses(s, qa + 1, *b);
            lemma_wrapped_parses(s, p, *a, '+', *b, qa, qb);
        },
        ExprView::Sub(a, b) => {
            lemma_render_facts(*a);
            lemma_render_facts(*b);
            lemma_wrap_slices(s, p, render(*a), '-', render(*b));
            let qa = p + 1 + render(*a).len();
            let qb = qa + 1 + render(*b).len();
            lemma_render_parses(s, p + 1, *a);
            lemma_render_parses(s, qa + 1, *b);
            lemma_wrapped_parses(s, p, *a, '-', *b, qa, qb);
        },
        ExprView::Mul(a, b) => {
            lemma_render_facts(*a);
            lemma_render_facts(*b);
            lemma_wrap_slices(s, p, render(*a), '*', render(*b));
            let qa = p + 1 + render(*a).len();
            let qb = qa + 1 + render(*b).len();
            lemma_render_parses(s, p + 1, *a);
            lemma_render_parses(s, qa + 1, *b);
            lemma_wrapped_parses(s, p, *a, '*', *b, qa, qb);
        },
        ExprView::Div(a, b) => {
            lemma_render_facts(*a);
            lemma_render_facts(*b);
            lemma_wrap_slices(s, p, render(*a), '/', render(*b));
            let qa = p + 1 + render(*a).len();
            let qb = qa + 1 + render(*b).len();
            lemma_render_parses(s, p + 1, *a);
            lemma_render_parses(s, qa + 1, *b);
            lemma_wrapped_parses(s, p, *a, '/', *b, qa, qb);
        },
        ExprView::Rem(a, b) => {
            lemma_render_facts(*a);
            lemma_render_facts(*b);
            lemma_wrap_slices(s, p, render(*a), '%', render(*b));
            let qa = p + 1 + render(*a).len();
            let qb = qa + 1 + render(*b).len();
            lemma_render_parses(s, p + 1, *a);
            lemma_render_parses(s, qa + 1, *b);
            lemma_wrapped_parses(s, p, *a, '%', *b, qa, qb);
        },
        ExprView::Pow(a, b) => {
            lemma_render_facts(*a);
            lemma_render_facts(*b);
            lemma_wrap_slices(s, p, render(*a), '^', render(*b));
            let qa = p + 1 + render(*a).len();
            let qb = qa + 1 + render(*b).len();
            lemma_render_parses(s, p + 1, *a);
            lemma_render_parses(s, qa + 1, *b);
            lemma_wrapped_parses(s, p, *a, '^', *b, qa, qb);
        },
    }
}

proof fn lemma_strip_no_spaces(s: Seq<char>)
    requires
        forall|i: int| 0 <= i < s.len() ==> !is_space(#[trigger] s[i]),
    ensures
        strip_spaces(s) == s,
    decreases s.len(),
{
    if s.len() > 0 {
        let t = s.drop_last();
        assert forall|i: int| 0 <= i < t.len() implies !is_space(#[trigger] t[i]) by {
            assert(t[i] == s[i]);
        }
        lemma_strip_no_spaces(t);
        assert(!is_space(s[s.len() - 1]));
        assert(t.push(s.last()) =~= s);
    }
}

/// Writing every operation of a well-formed tree inside parentheses gives a text
/// that parses back to that same tree: the parser follows the structure that
/// full parenthesization spells out, whatever the operators.
pub proof fn law_parenthesized_round_trip(e: ExprView)
    requires
        well_formed(e),
    ensures
        parse_text(render(e)) == Ok::<ExprView, ErrorKind>(e),
{
    let s = render(e);
    let n = s.len() as int;
    lemma_render_facts(e);
    assert forall|i: int| 0 <= i < s.len() implies !is_space(#[trigger] s[i]) by {
        assert(is_allowed(s[i]));
    }
    lemma_strip_no_spaces(s);
    assert(s.subrange(0, n) =~= s);
    lemma_render_parses(s, 0, e);
    assert(term_rest(s, n, e) == Ok::<(ExprView, int), ErrorKind>((e, n)));
    assert(term_at(s, 0) == Ok::<(ExprView, int), ErrorKind>((e, n)));
    assert(expr_rest(s, n, e) == Ok::<(ExprView, int), ErrorKind>((e, n)));
    assert(expr_at(s, 0) == Ok::<(ExprView, int), ErrorKind>((e, n)));
}

/// Parsing depends on the text alone: the same text always gives the same
/// result, with no state kept from one parse to the next.
pub proof fn law_parse_is_pure(a: Seq<char>, b: Seq<char>)
    requires
        a == b,
    ensures
        parse_text(a) == parse_text(b),
{
}

proof fn lemma_base_well_formed(s: Seq<char>, p: int)
    ensures
        base_at(s, p) matches Ok((e, _)) ==> well_formed(e),
    decreases s.len() - p, 1int,
{
    if 0 <= p < s.len() && s[p] == '(' {
        lemma_expr_well_formed(s, p + 1);
    }
}

proof fn lemma_factor_well_formed(s: Seq<char>, p: int)
    ensures
        factor_at(s, p) matches Ok((e, _)) ==> well_formed(e),
    decreases s.len() - p, 2int,
{
    lemma_base_well_formed(s, p);
    if let Ok((b, q)) = base_at(s, p) {
        if at(s, q, '^') && q >= p {
            lemma_factor_well_formed(s, q + 1);
        }
    }
}

proof fn lemma_term_rest_well_formed(s: Seq<char>, p: int, acc: ExprView)
    requires
        well_formed(acc),
    ensures
        term_rest(s, p, acc) matches Ok((e, _)) ==> well_formed(e),
    decreases s.len() - p, 0int,
{
    if at(s, p, '*') || at(s, p, '/') || at(s, p, '%') {
        lemma_factor_well_formed(s, p + 1);
        if let Ok((f, q)) = factor_at(s, p + 1) {
            let next = if s[p] == '*' {
                ExprView::Mul(Box::new(acc), Box::new(f))
            } else if s[p] == '/' {
                ExprView::Div(Box::new(acc), Box::new(f))
            } else {
                ExprView::Rem(Box::new(acc), Box::new(f))
            };
            if p < q <= s.len() {
                lemma_term_rest_well_formed(s, q, next);
            }
        }
    }
}

proof fn lemma_term_well_formed(s: Seq<char>, p: int)
    ensures
        term_at(s, p) matches Ok((e, _)) ==> well_formed(e),
    decreases s.len() - p, 3int,
{
    lemma_factor_well_formed(s, p);
    if let Ok((f, q)) = factor_at(s, p) {
        if p < q <= s.len() {
            lemma_term_rest_well_formed(s, q, f);
        }
    }
}

proof fn lemma_expr_rest_well_formed(s: Seq<char>, p: int, acc: ExprView)
    requires
        well_formed(acc),
    ensures
        expr_rest(s, p, acc) matches Ok((e, _)) ==> well_formed(e),
    decreases s.len() - p, 0int,
{
    if at(s, p, '+') || at(s, p, '-') {
        lemma_term_well_formed(s, p + 1);
        if let Ok((t, q)) = term_at(s, p + 1) {
            let next = if s[p] == '+' {
                ExprView::Add(Box::new(acc), Box::new(t))
            } else {
                ExprView::Sub(Box::new(acc), Box::new(t))
            };
            if p < q <= s.len() {
                lemma_expr_rest_well_formed(s, q, next);
            }
        }
    }
}

proof fn lemma_expr_well_formed(s: Seq<char>, p: int)
    ensures
        expr_at(s, p) matches Ok((e, _)) ==> well_formed(e),
    decreases s.len() - p, 4int,
{
    lemma_term_well_formed(s, p);
    if let Ok((t, q)) = term_at(s, p) {
        if p < q <= s.len() {
            lemma_expr_rest_well_formed(s, q, t);
        }
    }
}

/// Every tree that parsing yields has valid number literals only.
pub proof fn law_parsed_tree_is_well_formed(text: Seq<char>)
    ensures
        parse_text(text) matches Ok(e) ==> well_formed(e),
{
    lemma_expr_well_formed(strip_spaces(text), 0);
}

/// A parsed expression, written back with every operation in parentheses,
/// parses to the same tree: precedence and grouping are exactly what the
/// parenthesized text spells out.
pub proof fn law_reparse_parenthesized(text: Seq<char>)
    requires
        parse_text(text) is Ok,
    ensures
        parse_text(render(parse_text(text)->Ok_0)) == parse_text(text),
{
    law_parsed_tree_is_well_formed(text);
    law_parenthesized_round_trip(parse_text(text)->Ok_0);
}

} // verus!
