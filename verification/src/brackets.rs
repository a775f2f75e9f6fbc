//! Syntactic closure of generated type expressions.  A type built purely
//! from primitives and containers — no class or enumeration references —
//! resolves to an expression whose angle brackets and parentheses are
//! balanced, and contributes no cross-service dependency at all.  The case
//! conversion applied to service names is opaque, which is exactly why the
//! claim is restricted to reference-free types.

use vstd::prelude::*;
use crate::model::Type;
use crate::resolve::{
    arity_error, first_arity_error, joined_exprs, seq_deps, type_deps, type_expr, type_wf,
};

verus! {

/// What one character contributes to a bracket count.
pub open spec fn bracket_delta(c: char, open: char, close: char) -> int {
    if c == open {
        1
    } else if c == close {
        -1
    } else {
        0
    }
}

/// The net count of one bracket pair over a whole sequence.
pub open spec fn bracket_net(s: Seq<char>, open: char, close: char) -> int
    decreases s.len(),
{
    if s.len() == 0 {
        0
    } else {
        bracket_net(s.drop_last(), open, close) + bracket_delta(s.last(), open, close)
    }
}

/// The lowest net count over all prefixes of a sequence.
pub open spec fn bracket_low(s: Seq<char>, open: char, close: char) -> int
    decreases s.len(),
{
    if s.len() == 0 {
        0
    } else {
        let m = bracket_low(s.drop_last(), open, close);
        let n = bracket_net(s, open, close);
        if n < m {
            n
        } else {
            m
        }
    }
}

/// One bracket pair is balanced: even overall, never below zero.
pub open spec fn pair_balanced(s: Seq<char>, open: char, close: char) -> bool {
    bracket_net(s, open, close) == 0 && bracket_low(s, open, close) >= 0
}

/// Syntactically closed: angle brackets and parentheses both balanced.
pub open spec fn balanced(s: Seq<char>) -> bool {
    pair_balanced(s, '<', '>') && pair_balanced(s, '(', ')')
}

/// The lowest prefix count never exceeds zero or the net count.
proof fn lemma_low_bounds(s: Seq<char>, open: char, close: char)
    ensures
        bracket_low(s, open, close) <= 0,
        bracket_low(s, open, close) <= bracket_net(s, open, close),
    decreases s.len(),
{
    if s.len() > 0 {
        lemma_low_bounds(s.drop_last(), open, close);
    }
}

/// Net counts add over concatenation; the lowest count of a concatenation is
/// the smaller of the first part's and the first part's net plus the
/// second's lowest.
proof fn lemma_bracket_concat(a: Seq<char>, b: Seq<char>, open: char, close: char)
    ensures
        bracket_net(a + b, open, close) == bracket_net(a, open, close) + bracket_net(
            b,
            open,
            close,
        ),
        bracket_low(a + b, open, close) == if bracket_net(a, open, close) + bracket_low(
            b,
            open,
            close,
        ) < bracket_low(a, open, close) {
            bracket_net(a, open, close) + bracket_low(b, open, close)
        } else {
            bracket_low(a, open, close)
        },
    decreases b.len(),
{
    if b.len() == 0 {
        assert(a + b =~= a);
        lemma_low_bounds(a, open, close);
    } else {
        assert((a + b).drop_last() =~= a + b.drop_last());
        assert((a + b).last() == b.last());
        lemma_bracket_concat(a, b.drop_last(), open, close);
    }
}

/// Concatenating balanced sequences keeps them balanced.
proof fn lemma_balanced_concat(a: Seq<char>, b: Seq<char>)
    requires
        balanced(a),
        balanced(b),
    ensures
        balanced(a + b),
{
    lemma_bracket_concat(a, b, '<', '>');
    lemma_bracket_concat(a, b, '(', ')');
}

/// A sequence without brackets of a pair counts zero for it.
proof fn lemma_no_brackets(s: Seq<char>, open: char, close: char)
    requires
        forall|i: int| 0 <= i < s.len() ==> s[i] != open && s[i] != close,
    ensures
        bracket_net(s, open, close) == 0,
        bracket_low(s, open, close) == 0,
    decreases s.len(),
{
    if s.len() > 0 {
        assert(forall|i: int|
            0 <= i < s.drop_last().len() ==> s.drop_last()[i] == s[i]);
        lemma_no_brackets(s.drop_last(), open, close);
    }
}

/// A sequence free of all four bracket characters is balanced.
proof fn lemma_bracket_free_balanced(s: Seq<char>)
    requires
        forall|i: int| 0 <= i < s.len() ==> s[i] != '<' && s[i] != '>' && s[i] != '(' && s[i] != ')',
    ensures
        balanced(s),
{
    lemma_no_brackets(s, '<', '>');
    lemma_no_brackets(s, '(', ')');
}

/// Wrapping a balanced expression in a generic container — a head whose only
/// bracket is its final `<`, then the expression, then `>` — stays balanced.
proof fn lemma_balanced_wrap_angle(head: Seq<char>, m: Seq<char>)
    requires
        head.len() > 0,
        head.last() == '<',
        forall|i: int|
            0 <= i < head.len() - 1 ==> head[i] != '<' && head[i] != '>' && head[i] != '('
                && head[i] != ')',
        balanced(m),
    ensures
        balanced(head + m + ">"@),
{
    let h = head.drop_last();
    lemma_no_brackets(h, '<', '>');
    lemma_no_brackets(h, '(', ')');
    assert(bracket_net(head, '<', '>') == 1);
    assert(bracket_low(head, '<', '>') == 0);
    assert(bracket_net(head, '(', ')') == 0);
    assert(bracket_low(head, '(', ')') == 0);
    lemma_bracket_concat(head, m, '<', '>');
    lemma_bracket_concat(head, m, '(', ')');
    reveal_strlit(">");
    let e = Seq::<char>::empty();
    assert(bracket_net(e, '<', '>') == 0);
    assert(bracket_low(e, '<', '>') == 0);
    assert(bracket_net(e, '(', ')') == 0);
    assert(bracket_low(e, '(', ')') == 0);
    assert(">"@.len() == 1);
    assert(">"@.drop_last() =~= e);
    assert(">"@.last() == '>');
    assert(bracket_net(">"@, '<', '>') == -1);
    assert(bracket_low(">"@, '<', '>') == -1);
    assert(bracket_net(">"@, '(', ')') == 0);
    assert(bracket_low(">"@, '(', ')') == 0);
    lemma_bracket_concat(head + m, ">"@, '<', '>');
    lemma_bracket_concat(head + m, ">"@, '(', ')');
}

/// Whether a node is built purely from primitives and containers, with no
/// class or enumeration reference at any depth.
pub open spec fn no_refs(t: Type) -> bool
    decreases t, 0int,
{
    match t {
        Type::List { types } => seq_no_refs(types@, types@.len() as int),
        Type::SetOf { types } => seq_no_refs(types@, types@.len() as int),
        Type::Dictionary { types } => seq_no_refs(types@, types@.len() as int),
        Type::Tuple { types } => seq_no_refs(types@, types@.len() as int),
        Type::Class { .. } => false,
        Type::Enumeration { .. } => false,
        _ => true,
    }
}

/// The same over the first `n` nodes of a child list.
pub open spec fn seq_no_refs(ts: Seq<Type>, n: int) -> bool
    decreases ts, n,
{
    if n <= 0 || n > ts.len() {
        true
    } else {
        seq_no_refs(ts, n - 1) && no_refs(ts[n - 1])
    }
}

/// A reference-free node contributes no dependency at all.
proof fn lemma_no_refs_deps(t: Type, cur: Seq<char>)
    requires
        no_refs(t),
    ensures
        type_deps(t, cur) == Set::<Seq<char>>::empty(),
    decreases t, 0int,
{
    match t {
        Type::List { types } => {
            lemma_seq_no_refs_deps(types@, types@.len() as int, cur);
        },
        Type::SetOf { types } => {
            lemma_seq_no_refs_deps(types@, types@.len() as int, cur);
        },
        Type::Dictionary { types } => {
            lemma_seq_no_refs_deps(types@, types@.len() as int, cur);
        },
        Type::Tuple { types } => {
            lemma_seq_no_refs_deps(types@, types@.len() as int, cur);
        },
        _ => {
            assert(type_deps(t, cur) =~= Set::empty());
        },
    }
}

proof fn lemma_seq_no_refs_deps(ts: Seq<Type>, n: int, cur: Seq<char>)
    requires
        seq_no_refs(ts, n),
    ensures
        seq_deps(ts, n, cur) == Set::<Seq<char>>::empty(),
    decreases ts, n,
{
    if n <= 0 || n > ts.len() {
        assert(seq_deps(ts, n, cur) =~= Set::empty());
    } else {
        lemma_seq_no_refs_deps(ts, n - 1, cur);
        lemma_no_refs_deps(ts[n - 1], cur);
        assert(seq_deps(ts, n, cur) =~= Set::empty());
    }
}

/// A clean child list is clean at each position.
proof fn lemma_first_arity_none(ts: Seq<Type>, n: int, j: int)
    requires
        first_arity_error(ts, n) is None,
        0 <= j < n <= ts.len(),
    ensures
        arity_error(ts[j]) is None,
    decreases n,
{
    if j < n - 1 {
        lemma_first_arity_none(ts, n - 1, j);
    }
}

/// A well-formed, reference-free node resolves to a balanced expression.
proof fn lemma_no_refs_balanced(t: Type, cur: Seq<char>)
    requires
        type_wf(t),
        no_refs(t),
    ensures
        balanced(type_expr(t, cur)),
    decreases t, 0int,
{
    match t {
        Type::Bool => {
            reveal_strlit("bool");
            lemma_literal_balanced("bool"@);
        },
        Type::SInt32 => {
            reveal_strlit("i32");
            lemma_literal_balanced("i32"@);
        },
        Type::UInt32 => {
            reveal_strlit("u32");
            lemma_literal_balanced("u32"@);
        },
        Type::Double => {
            reveal_strlit("f64");
            lemma_literal_balanced("f64"@);
        },
        Type::Float => {
            reveal_strlit("f32");
            lemma_literal_balanced("f32"@);
        },
        Type::String => {
            reveal_strlit("String");
            lemma_literal_balanced("String"@);
        },
        Type::List { types } => {
            lemma_no_refs_balanced(types@[0], cur);
            reveal_strlit("Vec<");
            lemma_balanced_wrap_angle("Vec<"@, type_expr(types@[0], cur));
        },
        Type::SetOf { types } => {
            lemma_no_refs_balanced(types@[0], cur);
            reveal_strlit("std::collections::HashSet<");
            lemma_balanced_wrap_angle(
                "std::collections::HashSet<"@,
                type_expr(types@[0], cur),
            );
        },
        Type::Dictionary { types } => {
            assert(arity_error(types@[0]) is None);
            assert(arity_error(types@[1]) is None);
            assert(seq_no_refs(types@, 1));
            assert(no_refs(types@[0]));
            assert(no_refs(types@[1]));
            lemma_no_refs_balanced(types@[0], cur);
            lemma_no_refs_balanced(types@[1], cur);
            let k = type_expr(types@[0], cur);
            let v = type_expr(types@[1], cur);
            reveal_strlit(", ");
            lemma_literal_balanced(", "@);
            lemma_balanced_concat(k, ", "@);
            lemma_balanced_concat(k + ", "@, v);
            reveal_strlit("std::collections::HashMap<");
            lemma_balanced_wrap_angle("std::collections::HashMap<"@, k + ", "@ + v);
            assert("std::collections::HashMap<"@ + (k + ", "@ + v) + ">"@ =~= type_expr(t, cur));
        },
        Type::Tuple { types } => {
            lemma_joined_balanced(types@, types@.len() as int, cur);
            let m = joined_exprs(types@, types@.len() as int, cur);
            reveal_strlit("(");
            reveal_strlit(")");
            let e = Seq::<char>::empty();
            assert(bracket_net(e, '<', '>') == 0);
            assert(bracket_low(e, '<', '>') == 0);
            assert(bracket_net(e, '(', ')') == 0);
            assert(bracket_low(e, '(', ')') == 0);
            assert("("@.drop_last() =~= e);
            assert("("@.last() == '(');
            assert(")"@.drop_last() =~= e);
            assert(")"@.last() == ')');
            assert(bracket_net("("@, '(', ')') == 1);
            assert(bracket_low("("@, '(', ')') == 0);
            assert(bracket_net("("@, '<', '>') == 0);
            assert(bracket_low("("@, '<', '>') == 0);
            assert(bracket_net(")"@, '(', ')') == -1);
            assert(bracket_low(")"@, '(', ')') == -1);
            assert(bracket_net(")"@, '<', '>') == 0);
            assert(bracket_low(")"@, '<', '>') == 0);
            lemma_bracket_concat("("@, m, '(', ')');
            lemma_bracket_concat("("@, m, '<', '>');
            lemma_bracket_concat("("@ + m, ")"@, '(', ')');
            lemma_bracket_concat("("@ + m, ")"@, '<', '>');
        },
        _ => {
        },
    }
}

/// The joined child expressions of a clean, reference-free tuple are
/// balanced.
proof fn lemma_joined_balanced(ts: Seq<Type>, n: int, cur: Seq<char>)
    requires
        first_arity_error(ts, n) is None,
        seq_no_refs(ts, n),
        n <= ts.len(),
    ensures
        balanced(joined_exprs(ts, n, cur)),
    decreases ts, n,
{
    if n <= 0 {
        lemma_bracket_free_balanced(Seq::empty());
    } else if n == 1 {
        lemma_first_arity_none(ts, n, 0);
        lemma_no_refs_balanced(ts[0], cur);
    } else {
        assert(first_arity_error(ts, n - 1) is None);
        assert(seq_no_refs(ts, n - 1));
        lemma_joined_balanced(ts, n - 1, cur);
        lemma_first_arity_none(ts, n, n - 1);
        lemma_no_refs_balanced(ts[n - 1], cur);
        reveal_strlit(", ");
        lemma_literal_balanced(", "@);
        lemma_balanced_concat(joined_exprs(ts, n - 1, cur), ", "@);
        lemma_balanced_concat(joined_exprs(ts, n - 1, cur) + ", "@, type_expr(ts[n - 1], cur));
    }
}

/// A bracket-free fixed name is balanced; the callers reveal the literal.
proof fn lemma_literal_balanced(s: Seq<char>)
    requires
        forall|i: int| 0 <= i < s.len() ==> s[i] != '<' && s[i] != '>' && s[i] != '(' && s[i] != ')',
    ensures
        balanced(s),
{
    lemma_bracket_free_balanced(s);
}

/// A type built purely from primitives and containers resolves without any
/// cross-service dependency, and its expression is syntactically closed:
/// angle brackets and parentheses balanced.
pub proof fn lemma_pure_resolution_closed(t: Type, cur: Seq<char>)
    requires
        type_wf(t),
        no_refs(t),
    ensures
        type_deps(t, cur) == Set::<Seq<char>>::empty(),
        balanced(type_expr(t, cur)),
{
    lemma_no_refs_deps(t, cur);
    lemma_no_refs_balanced(t, cur);
}

} // verus!
