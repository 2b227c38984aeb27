use vstd::prelude::*;

use crate::model::{
    attempt, compile, full_match, is_quantifier_char, scan, token, AtomModel, Quantifier,
    TokenModel,
};

verus! {

/// The empty pattern compiles to no tokens, and matches a string exactly when
/// that string is empty.
pub proof fn lemma_empty_pattern(s: Seq<char>)
    ensures
        compile(Seq::<char>::empty()) == Ok::<Seq<TokenModel>, nat>(Seq::<TokenModel>::empty()),
        full_match(Seq::<TokenModel>::empty(), s) <==> s.len() == 0,
{
    assert(attempt(Seq::<TokenModel>::empty(), 0, s, 0) is Full <==> s.len() == 0);
}

/// A quantifier character at the start of a pattern has nothing before it to
/// quantify: it is compiled as a literal token for that very character, and
/// compilation goes on after it. Alone, it compiles to that one token.
pub proof fn lemma_leading_quantifier_is_literal(p: Seq<char>)
    requires
        p.len() > 0,
        is_quantifier_char(p[0]),
    ensures
        compile(p) == scan(p, 1, seq![token(AtomModel::Char(p[0]), Quantifier::Exact)]),
        p.len() == 1 ==> compile(p) == Ok::<Seq<TokenModel>, nat>(
            seq![token(AtomModel::Char(p[0]), Quantifier::Exact)],
        ),
{
    let first = token(AtomModel::Char(p[0]), Quantifier::Exact);
    assert(Seq::<TokenModel>::empty().push(first) =~= seq![first]);
}

} // verus!
