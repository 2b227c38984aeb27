use vstd::prelude::*;

verus! {

/// How many times an atom must match.
#[derive(Clone, Copy, Debug, PartialEq, Eq)]
pub enum Quantifier {
    /// Exactly once.
    Exact,
    /// Zero or more times.
    Star,
    /// Zero times or once.
    Optional,
}

/// The mathematical form of an atom of a compiled pattern.
pub enum AtomModel {
    /// Any single character.
    Wildcard,
    /// Exactly this character.
    Char(char),
    /// A parenthesized sub-pattern.
    Group(Seq<TokenModel>),
}

/// The mathematical form of a token: an atom with its quantifier.
pub struct TokenModel {
    pub atom: AtomModel,
    pub quantifier: Quantifier,
}

pub open spec fn token(atom: AtomModel, quantifier: Quantifier) -> TokenModel {
    TokenModel { atom, quantifier }
}

// ---------------------------------------------------------------------------
// Compilation
// ---------------------------------------------------------------------------

pub open spec fn is_quantifier_char(c: char) -> bool {
    c == '*' || c == '+' || c == '?'
}

/// The last token emitted so far exists and is still unquantified.
pub open spec fn last_is_exact(acc: Seq<TokenModel>) -> bool {
    acc.len() > 0 && acc.last().quantifier == Quantifier::Exact
}

/// `acc` without its last token (unchanged when empty).
pub open spec fn without_last(acc: Seq<TokenModel>) -> Seq<TokenModel> {
    if acc.len() == 0 {
        acc
    } else {
        acc.drop_last()
    }
}

/// The closing parenthesis of the `(` at `open`: scanning from `hi - 1` down to
/// `open + 1`, the first `)` that does not follow a backslash.
pub open spec fn closing_paren(p: Seq<char>, open: nat, hi: nat) -> Option<nat>
    decreases hi,
{
    if hi <= open + 1 || hi > p.len() {
        None
    } else {
        let k = (hi - 1) as nat;
        if p[k as int] == ')' && p[k - 1] != '\\' {
            Some(k)
        } else {
            closing_paren(p, open, k)
        }
    }
}

/// Compiles pattern `p` into its token sequence, or fails with the index of an
/// unclosed `(`.
pub open spec fn compile(p: Seq<char>) -> Result<Seq<TokenModel>, nat>
    decreases p.len(), p.len() + 1,
{
    scan(p, 0, seq![])
}

/// The compiler's left-to-right scan from index `i`, with tokens `acc` emitted
/// so far. A character that follows a backslash replaces the token of that
/// backslash with itself as a literal. A `(` is closed by the last `)` of the
/// pattern that does not follow a backslash (nesting is not counted), and the
/// text between them is compiled on its own; an unclosed `(` inside it is
/// reported by its index in `p`. A quantifier character applies only to an
/// unquantified last token, and is a literal otherwise.
pub open spec fn scan(p: Seq<char>, i: nat, acc: Seq<TokenModel>) -> Result<
    Seq<TokenModel>,
    nat,
>
    decreases p.len(), p.len() - i,
    via scan_decreases
{
    if i >= p.len() {
        Ok(acc)
    } else {
        let c = p[i as int];
        if i > 0 && p[i - 1] == '\\' {
            scan(p, i + 1, without_last(acc).push(token(AtomModel::Char(c), Quantifier::Exact)))
        } else if c == '.' {
            scan(p, i + 1, acc.push(token(AtomModel::Wildcard, Quantifier::Exact)))
        } else if c == '(' {
            match closing_paren(p, i, p.len()) {
                None => Err(i),
                Some(k) => match compile(p.subrange(i + 1 as int, k as int)) {
                    Err(e) => Err(e + i + 1),
                    Ok(inner) => scan(
                        p,
                        k + 1,
                        acc.push(token(AtomModel::Group(inner), Quantifier::Exact)),
                    ),
                },
            }
        } else if c == '*' && last_is_exact(acc) {
            scan(p, i + 1, acc.drop_last().push(token(acc.last().atom, Quantifier::Star)))
        } else if c == '+' && last_is_exact(acc) {
            scan(p, i + 1, acc.push(token(acc.last().atom, Quantifier::Star)))
        } else if c == '?' && last_is_exact(acc) {
            scan(p, i + 1, acc.drop_last().push(token(acc.last().atom, Quantifier::Optional)))
        } else {
            scan(p, i + 1, acc.push(token(AtomModel::Char(c), Quantifier::Exact)))
        }
    }
}

/// A closing parenthesis found for the `(` at `open` lies after it and before `hi`.
pub proof fn lemma_closing_paren_range(p: Seq<char>, open: nat, hi: nat)
    ensures
        closing_paren(p, open, hi) matches Some(k) ==> open < k < hi && hi <= p.len(),
    decreases hi,
{
    if hi > open + 1 && hi <= p.len() {
        lemma_closing_paren_range(p, open, (hi - 1) as nat);
    }
}

#[via_fn]
proof fn scan_decreases(p: Seq<char>, i: nat, acc: Seq<TokenModel>) {
    lemma_closing_paren_range(p, i, p.len());
}

/// The decimal digits of `n`, most significant first.
pub open spec fn decimal(n: nat) -> Seq<char>
    decreases n,
{
    let digits = seq!['0', '1', '2', '3', '4', '5', '6', '7', '8', '9'];
    if n < 10 {
        seq![digits[n as int]]
    } else {
        decimal(n / 10).push(digits[(n % 10) as int])
    }
}

/// The message of the error for an unclosed `(` at `index`.
pub open spec fn unclosed_message(index: nat) -> Seq<char> {
    "unclosed parenthesis at index "@ + decimal(index)
}

// ---------------------------------------------------------------------------
// Matching
// ---------------------------------------------------------------------------

/// The outcome of a match attempt: the whole input was consumed, or the attempt
/// stopped after consuming some number of characters.
pub enum Outcome {
    Full,
    Partial(nat),
}

/// Adds `d` consumed characters in front of an outcome.
pub open spec fn shift(o: Outcome, d: nat) -> Outcome {
    match o {
        Outcome::Full => Outcome::Full,
        Outcome::Partial(k) => Outcome::Partial(k + d),
    }
}

/// Characters of `s` left from position `p`.
pub open spec fn gap(s: Seq<char>, p: nat) -> nat {
    if p <= s.len() {
        (s.len() - p) as nat
    } else {
        0
    }
}

/// How many characters atom `a` takes at position `p` of `s`; zero means that it
/// does not match there. A group is tried at `p`, the position reached, and
/// takes what its attempt there consumed (also when it stopped early), or all
/// that is left when it matched the rest of the input in full.
pub open spec fn atom_len(a: AtomModel, s: Seq<char>, p: nat) -> nat
    decreases a, 0nat, 0nat, 0nat,
{
    match a {
        AtomModel::Wildcard => 1,
        AtomModel::Char(c) => if p < s.len() && s[p as int] == c {
            1
        } else {
            0
        },
        AtomModel::Group(inner) => match attempt(inner, 0, s, p) {
            Outcome::Full => gap(s, p),
            Outcome::Partial(k) => k,
        },
    }
}

/// Matches tokens `ts[i..]` against the input `s` from position `p`. `Full`
/// means that they consumed all of `s[p..]`; `Partial(k)` counts the characters
/// consumed before the attempt could go no further.
pub open spec fn attempt(ts: Seq<TokenModel>, i: nat, s: Seq<char>, p: nat) -> Outcome
    decreases ts, ts.len() - i, gap(s, p), 1nat,
{
    if i >= ts.len() {
        if p == s.len() {
            Outcome::Full
        } else {
            Outcome::Partial(0)
        }
    } else {
        let t = ts[i as int];
        let is_last = i + 1 == ts.len();
        if p >= s.len() {
            if t.quantifier != Quantifier::Exact && is_last {
                Outcome::Full
            } else {
                Outcome::Partial(0)
            }
        } else {
            match t.quantifier {
                Quantifier::Exact => {
                    let m = atom_len(t.atom, s, p);
                    if m == 0 {
                        Outcome::Partial(0)
                    } else {
                        shift(attempt(ts, i + 1, s, p + m), m)
                    }
                },
                Quantifier::Star => star(ts, i, s, p),
                Quantifier::Optional => {
                    if attempt(ts, i + 1, s, p) is Full {
                        Outcome::Full
                    } else {
                        let m = atom_len(t.atom, s, p);
                        shift(attempt(ts, i + 1, s, p + m), m)
                    }
                },
            }
        }
    }
}

/// The zero-or-more loop of the star token `ts[i]`, at position `q`: the rest
/// of the tokens is tried at `q` before each further repetition of the atom,
/// where `q` counts the characters consumed so far. When the atom no longer
/// matches, or the input is used up, the rest goes on from `q`.
pub open spec fn star(ts: Seq<TokenModel>, i: nat, s: Seq<char>, q: nat) -> Outcome
    decreases ts, ts.len() - i, gap(s, q), 0nat,
    when i < ts.len()
{
    if q >= s.len() {
        attempt(ts, i + 1, s, q)
    } else if attempt(ts, i + 1, s, q) is Full {
        Outcome::Full
    } else {
        let m = atom_len(ts[i as int].atom, s, q);
        if m == 0 {
            attempt(ts, i + 1, s, q)
        } else {
            shift(star(ts, i, s, q + m), m)
        }
    }
}

/// Whether the token sequence `ts` matches the whole of `s`.
pub open spec fn full_match(ts: Seq<TokenModel>, s: Seq<char>) -> bool {
    attempt(ts, 0, s, 0) is Full
}

} // verus!
