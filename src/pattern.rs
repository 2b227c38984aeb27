use vstd::prelude::*;

use crate::model::{
    atom_len, attempt, closing_paren, compile, decimal, full_match, gap, scan, shift, star, token,
    unclosed_message, AtomModel, Outcome, Quantifier, TokenModel,
};

verus! {

/// A compiled pattern: a sequence of tokens, matched in order against the whole
/// of an input string.
#[derive(Debug, PartialEq, Eq)]
pub struct Regexp {
    tokens: Vec<Token>,
}

/// The error of a pattern that does not compile: a `(` without its `)`.
#[derive(Debug, Clone, PartialEq, Eq)]
pub struct RegexpParsingError {
    pub message: String,
    /// Index, in characters of the whole pattern, of the unclosed `(`.
    pub index: usize,
}

#[derive(Debug, PartialEq, Eq)]
struct Token {
    atom: Atom,
    quantifier: Quantifier,
}

#[derive(Debug, PartialEq, Eq)]
enum Atom {
    Wildcard,
    Char(char),
    Group(Regexp),
}

/// Outcome of an executable match attempt.
enum Match {
    Full,
    Partial(usize),
}

impl View for Match {
    type V = Outcome;

    closed spec fn view(&self) -> Outcome {
        match self {
            Match::Full => Outcome::Full,
            Match::Partial(k) => Outcome::Partial(*k as nat),
        }
    }
}

spec fn atom_view(a: Atom) -> AtomModel
    decreases a,
{
    match a {
        Atom::Wildcard => AtomModel::Wildcard,
        Atom::Char(c) => AtomModel::Char(c),
        Atom::Group(r) => AtomModel::Group(tokens_view(r.tokens@)),
    }
}

spec fn token_view(t: Token) -> TokenModel
    decreases t,
{
    token(atom_view(t.atom), t.quantifier)
}

spec fn tokens_view(ts: Seq<Token>) -> Seq<TokenModel>
    decreases ts,
{
    if ts.len() == 0 {
        seq![]
    } else {
        tokens_view(ts.subrange(0, ts.len() - 1)).push(token_view(ts[ts.len() - 1]))
    }
}

impl View for Regexp {
    type V = Seq<TokenModel>;

    closed spec fn view(&self) -> Seq<TokenModel> {
        tokens_view(self.tokens@)
    }
}

proof fn lemma_tokens_view(ts: Seq<Token>)
    ensures
        tokens_view(ts).len() == ts.len(),
        forall|k: int| 0 <= k < ts.len() ==> #[trigger] tokens_view(ts)[k] == token_view(ts[k]),
    decreases ts.len(),
{
    if ts.len() > 0 {
        let init = ts.subrange(0, ts.len() - 1);
        lemma_tokens_view(init);
        assert forall|k: int| 0 <= k < ts.len() implies #[trigger] tokens_view(ts)[k]
            == token_view(ts[k]) by {
            if k < ts.len() - 1 {
                assert(init[k] == ts[k]);
            }
        }
    }
}

proof fn lemma_tokens_view_push(ts: Seq<Token>, t: Token)
    ensures
        tokens_view(ts.push(t)) == tokens_view(ts).push(token_view(t)),
{
    assert(ts.push(t).subrange(0, ts.len() as int) =~= ts);
}

proof fn lemma_tokens_view_drop_last(ts: Seq<Token>)
    requires
        ts.len() > 0,
    ensures
        tokens_view(ts.drop_last()) == tokens_view(ts).drop_last(),
{
    assert(ts.drop_last() =~= ts.subrange(0, ts.len() - 1));
    assert(tokens_view(ts).drop_last() =~= tokens_view(ts.subrange(0, ts.len() - 1)));
}

impl Token {
    /// The token that matches exactly `c`, once.
    fn literal(c: char) -> (t: Token)
        ensures
            token_view(t) == token(AtomModel::Char(c), Quantifier::Exact),
    {
        Token { atom: Atom::Char(c), quantifier: Quantifier::Exact }
    }
}

impl Atom {
    /// A deep copy.
    fn duplicate(&self) -> (r: Atom)
        ensures
            atom_view(r) == atom_view(*self),
        decreases atom_view(*self),
    {
        match self {
            Atom::Wildcard => Atom::Wildcard,
            Atom::Char(c) => Atom::Char(*c),
            Atom::Group(inner) => {
                proof {
                    assert(atom_view(*self)->Group_0 == inner@);
                }
                Atom::Group(inner.duplicate())
            },
        }
    }
}

impl Regexp {
    /// A deep copy.
    fn duplicate(&self) -> (r: Regexp)
        ensures
            r@ == self@,
        decreases self@,
    {
        proof {
            lemma_tokens_view(self.tokens@);
        }
        let mut tokens: Vec<Token> = Vec::new();
        let mut k: usize = 0;
        while k < self.tokens.len()
            invariant
                k <= self.tokens.len(),
                tokens_view(self.tokens@).len() == self.tokens.len(),
                forall|j: int|
                    0 <= j < self.tokens.len() ==> #[trigger] tokens_view(self.tokens@)[j]
                        == token_view(self.tokens@[j]),
                tokens_view(tokens@) == tokens_view(self.tokens@).subrange(0, k as int),
            decreases self.tokens.len() - k,
        {
            let t = &self.tokens[k];
            proof {
                assert(self@[k as int] == token_view(self.tokens@[k as int]));
                assert(decreases_to!(self@ => self@[k as int]));
                assert(decreases_to!(self@[k as int] => self@[k as int].atom));
            }
            let atom = t.atom.duplicate();
            let copy = Token { atom, quantifier: t.quantifier };
            proof {
                lemma_tokens_view_push(tokens@, copy);
            }
            tokens.push(copy);
            k += 1;
            assert(tokens_view(tokens@) =~= tokens_view(self.tokens@).subrange(0, k as int));
        }
        assert(tokens_view(self.tokens@).subrange(0, k as int) =~= tokens_view(self.tokens@));
        Regexp { tokens }
    }
}

/// Collects the characters of `s` in order.
fn chars_of(s: &str) -> (r: Vec<char>)
    ensures
        r@ == s@,
{
    let mut r: Vec<char> = Vec::new();
    for c in it: s.chars()
        invariant
            r@ == it.seq().take(it.index() as int),
            it.seq() == s@,
    {
        r.push(c);
    }
    r
}

impl Regexp {
    /// Compiles `pattern`, as `model::compile` states. Fails only on a `(`
    /// that finds no closing `)`, at any depth of groups.
    pub fn new(pattern: &str) -> (r: Result<Self, RegexpParsingError>)
        ensures
            match r {
                Ok(re) => compile(pattern@) == Ok::<Seq<TokenModel>, nat>(re@),
                Err(e) => {
                    &&& compile(pattern@) == Err::<Seq<TokenModel>, nat>(e.index as nat)
                    &&& e.message@ == unclosed_message(e.index as nat)
                },
            },
    {
        let chars = chars_of(pattern);
        let r = compile_range(&chars, 0, chars.len());
        assert(chars@.subrange(0, chars.len() as int) =~= pattern@);
        match r {
            Ok(re) => Ok(re),
            Err(index) => Err(RegexpParsingError::unclosed(index)),
        }
    }

    /// Whether this pattern matches the whole of `string`.
    pub fn matches(&self, string: &str) -> (r: bool)
        ensures
            r == full_match(self@, string@),
    {
        let chars = chars_of(string);
        match self.start_match(0, &chars, 0) {
            Match::Full => true,
            Match::Partial(_) => false,
        }
    }

    /// Matches the tokens from index `from` on against `chars` from position
    /// `pos` on.
    fn start_match(&self, from: usize, chars: &Vec<char>, pos: usize) -> (r: Match)
        requires
            from <= self@.len(),
            pos <= chars.len(),
        ensures
            r@ == attempt(self@, from as nat, chars@, pos as nat),
            r matches Match::Partial(k) ==> k <= chars.len() - pos,
        decreases self@, self@.len() - from, gap(chars@, pos as nat), 1nat,
    {
        proof {
            lemma_tokens_view(self.tokens@);
        }
        let n = chars.len();
        let len = self.tokens.len();
        let mut i = from;
        let mut p = pos;
        while i < len
            invariant
                len == self.tokens.len() == self@.len(),
                forall|j: int|
                    0 <= j < self.tokens.len() ==> #[trigger] self@[j] == token_view(
                        self.tokens@[j],
                    ),
                n == chars.len(),
                from <= i <= len,
                pos <= p <= n,
                attempt(self@, from as nat, chars@, pos as nat) == shift(
                    attempt(self@, i as nat, chars@, p as nat),
                    (p - pos) as nat,
                ),
            decreases len - i,
        {
            let t = &self.tokens[i];
            proof {
                assert(decreases_to!(self@ => self@[i as int]));
                assert(decreases_to!(self@[i as int] => self@[i as int].atom));
            }
            match t.quantifier {
                Quantifier::Exact => {
                    if p == n {
                        return Match::Partial(p - pos);
                    }
                    let m = value_match_len_at_index(chars, p, &t.atom);
                    if m == 0 {
                        return Match::Partial(p - pos);
                    }
                    i += 1;
                    p += m;
                },
                Quantifier::Star => {
                    if p == n {
                        if i + 1 == len {
                            return Match::Full;
                        }
                        return Match::Partial(p - pos);
                    }
                    let mut q = p;
                    let mut stuck = false;
                    while !stuck && q < n
                        invariant
                            len == self.tokens.len() == self@.len(),
                            n == chars.len(),
                            from <= i < len,
                            pos <= p <= q <= n,
                            self@[i as int].atom == atom_view(t.atom),
                            attempt(self@, from as nat, chars@, pos as nat) == shift(
                                attempt(self@, i as nat, chars@, p as nat),
                                (p - pos) as nat,
                            ),
                            attempt(self@, i as nat, chars@, p as nat) == shift(
                                star(self@, i as nat, chars@, q as nat),
                                (q - p) as nat,
                            ),
                            stuck ==> star(self@, i as nat, chars@, q as nat) == attempt(
                                self@,
                                (i + 1) as nat,
                                chars@,
                                q as nat,
                            ),
                        decreases n - q + (if stuck { 0int } else { 1int }),
                    {
                        if let Match::Full = self.start_match(i + 1, chars, q) {
                            proof {
                                assert(star(self@, i as nat, chars@, q as nat) is Full);
                            }
                            return Match::Full;
                        }
                        let m = value_match_len_at_index(chars, q, &t.atom);
                        if m == 0 {
                            stuck = true;
                        } else {
                            q += m;
                        }
                    }
                    i += 1;
                    p = q;
                },
                Quantifier::Optional => {
                    if p == n {
                        if i + 1 == len {
                            return Match::Full;
                        }
                        return Match::Partial(p - pos);
                    }
                    if let Match::Full = self.start_match(i + 1, chars, p) {
                        return Match::Full;
                    }
                    let m = value_match_len_at_index(chars, p, &t.atom);
                    i += 1;
                    p += m;
                },
            }
        }
        if p == n {
            Match::Full
        } else {
            Match::Partial(p - pos)
        }
    }
}

/// How many characters `value` takes at `index` of `chars`; zero when it does
/// not match there.
fn value_match_len_at_index(chars: &Vec<char>, index: usize, value: &Atom) -> (m: usize)
    requires
        index < chars.len(),
    ensures
        m == atom_len(atom_view(*value), chars@, index as nat),
        m <= chars.len() - index,
    decreases atom_view(*value), 0nat, 0nat, 0nat,
{
    match value {
        Atom::Wildcard => 1,
        Atom::Char(c) => if chars[index] == *c {
            1
        } else {
            0
        },
        Atom::Group(inner) => {
            proof {
                assert(atom_view(*value)->Group_0 == inner@);
                lemma_tokens_view(inner.tokens@);
            }
            match inner.start_match(0, chars, index) {
                Match::Full => chars.len() - index,
                Match::Partial(k) => k,
            }
        },
    }
}

/// The closing parenthesis of the `(` at `open`, within `chars[lo..hi]`: the
/// last `)` before `hi` that does not follow a backslash.
fn find_closing(chars: &Vec<char>, lo: usize, open: usize, hi: usize) -> (r: Option<usize>)
    requires
        lo <= open < hi <= chars.len(),
    ensures
        closing_paren(chars@.subrange(lo as int, hi as int), (open - lo) as nat, (hi - lo) as nat)
            == match r {
            Some(k) => Some((k - lo) as nat),
            None => None::<nat>,
        },
        r matches Some(k) ==> open < k < hi,
{
    let ghost p = chars@.subrange(lo as int, hi as int);
    let ghost o = (open - lo) as nat;
    let mut j = hi;
    while j > open + 1
        invariant
            lo <= open < j <= hi <= chars.len(),
            p == chars@.subrange(lo as int, hi as int),
            o == open - lo,
            closing_paren(p, o, (hi - lo) as nat) == closing_paren(p, o, (j - lo) as nat),
        decreases j,
    {
        let k = j - 1;
        if chars[k] == ')' && chars[k - 1] != '\\' {
            return Some(k);
        }
        j = k;
    }
    None
}

/// Compiles the pattern `chars[lo..hi]`. An error holds the index of the
/// unclosed `(` within that range.
fn compile_range(chars: &Vec<char>, lo: usize, hi: usize) -> (r: Result<Regexp, usize>)
    requires
        lo <= hi <= chars.len(),
    ensures
        match r {
            Ok(re) => compile(chars@.subrange(lo as int, hi as int)) == Ok::<Seq<TokenModel>, nat>(re@),
            Err(e) => compile(chars@.subrange(lo as int, hi as int)) == Err::<Seq<TokenModel>, nat>(e as nat) && e < hi
                - lo,
        },
    decreases hi - lo,
{
    let ghost p = chars@.subrange(lo as int, hi as int);
    let mut tokens: Vec<Token> = Vec::new();
    let mut i = lo;
    assert(tokens_view(tokens@) =~= seq![]);
    while i < hi
        invariant
            lo <= i <= hi <= chars.len(),
            p == chars@.subrange(lo as int, hi as int),
            compile(p) == scan(p, (i - lo) as nat, tokens_view(tokens@)),
        decreases hi - i,
    {
        proof {
            lemma_tokens_view(tokens@);
        }
        let c = chars[i];
        let n = tokens.len();
        let last_exact = n > 0 && matches!(tokens[n - 1].quantifier, Quantifier::Exact);
        if i > lo && chars[i - 1] == '\\' {
            if n > 0 {
                proof {
                    lemma_tokens_view_drop_last(tokens@);
                }
                tokens.pop();
            }
            let t = Token::literal(c);
            proof {
                lemma_tokens_view_push(tokens@, t);
            }
            tokens.push(t);
            i += 1;
        } else if c == '.' {
            let t = Token { atom: Atom::Wildcard, quantifier: Quantifier::Exact };
            proof {
                lemma_tokens_view_push(tokens@, t);
            }
            tokens.push(t);
            i += 1;
        } else if c == '(' {
            match find_closing(chars, lo, i, hi) {
                None => {
                    return Err(i - lo);
                },
                Some(k) => {
                    let inner = compile_range(chars, i + 1, k);
                    assert(chars@.subrange(i + 1, k as int) =~= p.subrange(
                        i - lo + 1,
                        k - lo,
                    ));
                    match inner {
                        Err(e) => {
                            return Err(e + (i - lo) + 1);
                        },
                        Ok(inner) => {
                            let t = Token { atom: Atom::Group(inner), quantifier: Quantifier::Exact };
                            proof {
                                lemma_tokens_view_push(tokens@, t);
                            }
                            tokens.push(t);
                            i = k + 1;
                        },
                    }
                },
            }
        } else if c == '*' && last_exact {
            proof {
                lemma_tokens_view_drop_last(tokens@);
            }
            let last = tokens.pop().unwrap();
            let t = Token { atom: last.atom, quantifier: Quantifier::Star };
            proof {
                lemma_tokens_view_push(tokens@, t);
            }
            tokens.push(t);
            i += 1;
        } else if c == '+' && last_exact {
            let atom = tokens[n - 1].atom.duplicate();
            let t = Token { atom, quantifier: Quantifier::Star };
            proof {
                lemma_tokens_view_push(tokens@, t);
            }
            tokens.push(t);
            i += 1;
        } else if c == '?' && last_exact {
            proof {
                lemma_tokens_view_drop_last(tokens@);
            }
            let last = tokens.pop().unwrap();
            let t = Token { atom: last.atom, quantifier: Quantifier::Optional };
            proof {
                lemma_tokens_view_push(tokens@, t);
            }
            tokens.push(t);
            i += 1;
        } else {
            let t = Token::literal(c);
            proof {
                lemma_tokens_view_push(tokens@, t);
            }
            tokens.push(t);
            i += 1;
        }
    }
    Ok(Regexp { tokens })
}

/// Relies on `ToString::to_string` through std's `Display` for `usize`, which
/// writes the number in decimal, without sign or leading zeros.
#[verifier::external_body]
fn index_text(n: usize) -> (r: String)
    ensures
        r@ == decimal(n as nat),
{
    n.to_string()
}

impl RegexpParsingError {
    /// The error for an unclosed `(` at `index`.
    fn unclosed(index: usize) -> (e: RegexpParsingError)
        ensures
            e.index == index,
            e.message@ == unclosed_message(index as nat),
    {
        let mut message = String::from_str("unclosed parenthesis at index ");
        let digits = index_text(index);
        message.append(digits.as_str());
        RegexpParsingError { message, index }
    }

    /// The message of this error.
    pub fn to_string(&self) -> (r: String)
        ensures
            r@ == self.message@,
    {
        self.message.clone()
    }
}

impl Clone for Regexp {
    fn clone(&self) -> (r: Self)
        ensures
            r@ == self@,
    {
        self.duplicate()
    }
}

} // verus!
