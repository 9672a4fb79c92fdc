//! The query parser: a recursive descent over the token stream that builds a
//! filter tree.
//!
//! A query is a group followed by `Eof`. A group is a run of terms, all of
//! which must hold, optionally followed by `or` and a second run: `or` binds
//! looser than the implicit AND, and a third alternative needs parentheses.
//! A term is `!` and a term, a parenthesised group, or a field clause: a
//! field keyword, a separator and an argument.

use vstd::prelude::*;
use crate::card::{Rarity, SpAtk, Temple};
use crate::filter::{Cmp, CostQuery, Filter, FilterV};
use crate::lexer::{int_of, parse_isize, lex_error, lex_from, tokenize_query, tokens_view, Token, TokenV};
use crate::text::{char_vec, eq_text, string_of, sub_vec};

verus! {

/// What went wrong in a query.
#[derive(Clone, Copy, Debug, PartialEq, Eq, Structural)]
pub enum ParseErrorKind {
    /// A token that cannot stand here.
    UnexpectedToken,
    /// A separator that the field does not take.
    BadSeparator,
    /// No argument, or one of the wrong kind, after a separator.
    MissingArgument,
    /// A cost shorthand that is not digit-then-letter pairs.
    BadCost,
    /// A value outside the field's closed vocabulary.
    UnknownValue,
}

/// A parse error and the position of the offending token.
#[derive(Clone, Copy, Debug, PartialEq, Eq, Structural)]
pub struct ParseError {
    pub pos: usize,
    pub kind: ParseErrorKind,
}

pub open spec fn perr(pos: int, kind: ParseErrorKind) -> ParseError {
    ParseError { pos: pos as usize, kind }
}

/// The token at `i`, or `Eof` past the end.
pub open spec fn tok_at(t: Seq<TokenV>, i: int) -> TokenV {
    if 0 <= i < t.len() {
        t[i]
    } else {
        TokenV::Eof
    }
}

pub open spec fn is_field(k: TokenV) -> bool {
    match k {
        TokenV::Name | TokenV::Desc | TokenV::Rarity | TokenV::Temple | TokenV::Tribe
        | TokenV::Attack | TokenV::Health | TokenV::Sigil | TokenV::SpAtk | TokenV::Costs
        | TokenV::CostType | TokenV::Trait => true,
        _ => false,
    }
}

/// A term can start with this token.
pub open spec fn starts_term(k: TokenV) -> bool {
    is_field(k) || k == TokenV::Not || k == TokenV::OpenParen
}

pub open spec fn rarity_of(w: Seq<char>) -> Option<Rarity> {
    if w == "common"@ {
        Some(Rarity::Common)
    } else if w == "uncommon"@ {
        Some(Rarity::Uncommon)
    } else if w == "rare"@ {
        Some(Rarity::Rare)
    } else if w == "unique"@ {
        Some(Rarity::Unique)
    } else if w == "side"@ {
        Some(Rarity::Side)
    } else if w == "deathcard"@ {
        Some(Rarity::Deathcard)
    } else if w == "jokecard"@ {
        Some(Rarity::Jokecard)
    } else {
        None
    }
}

pub open spec fn temple_of(w: Seq<char>) -> Option<u8> {
    if w == "beast"@ {
        Some(Temple::BEAST)
    } else if w == "undead"@ {
        Some(Temple::UNDEAD)
    } else if w == "tech"@ {
        Some(Temple::TECH)
    } else if w == "magick"@ {
        Some(Temple::MAGICK)
    } else if w == "fool"@ {
        Some(Temple::FOOL)
    } else if w == "extras"@ {
        Some(Temple::EXTRAS)
    } else {
        None
    }
}

pub open spec fn spatk_of(w: Seq<char>) -> Option<SpAtk> {
    if w == "mox"@ {
        Some(SpAtk::Mox)
    } else if w == "green_mox"@ {
        Some(SpAtk::GreenMox)
    } else if w == "mirror"@ {
        Some(SpAtk::Mirror)
    } else if w == "ant"@ {
        Some(SpAtk::Ant)
    } else if w == "bell"@ {
        Some(SpAtk::Bell)
    } else if w == "card"@ {
        Some(SpAtk::Card)
    } else {
        None
    }
}

/// The comparison a separator stands for on a number field.
pub open spec fn cmp_of(k: TokenV) -> Option<Cmp> {
    match k {
        TokenV::Colon | TokenV::Equal => Some(Cmp::Eq),
        TokenV::Greater => Some(Cmp::Gt),
        TokenV::GreaterEq => Some(Cmp::Ge),
        TokenV::Less => Some(Cmp::Lt),
        TokenV::LessEq => Some(Cmp::Le),
        _ => None,
    }
}

pub open spec fn is_digit(c: char) -> bool {
    '0' <= c && c <= '9'
}

/// The first index from `j` on that does not hold a digit.
pub open spec fn digit_end(w: Seq<char>, j: int) -> int
    decreases w.len() - j,
{
    if j < 0 || j >= w.len() || !is_digit(w[j]) {
        j
    } else {
        digit_end(w, j + 1)
    }
}

proof fn lemma_digit_end(w: Seq<char>, j: int)
    requires
        0 <= j,
    ensures
        j <= digit_end(w, j),
        digit_end(w, j) <= w.len() || digit_end(w, j) == j,
        forall|k: int| j <= k < digit_end(w, j) ==> is_digit(#[trigger] w[k]),
    decreases w.len() - j,
{
    if !(j >= w.len() || !is_digit(w[j])) {
        lemma_digit_end(w, j + 1);
    }
}

/// A cost shorthand from index `i` on, given the amounts read so far: pairs
/// of a decimal count and a letter, `b` for blood, `o` for bone and `e` for
/// energy, each letter at most once.
pub open spec fn cost_from(
    w: Seq<char>,
    i: int,
    b: Option<int>,
    o: Option<int>,
    e: Option<int>,
) -> Option<CostQuery>
    decreases w.len() - i via cost_from_decreases
{
    if i < 0 || i >= w.len() {
        Some(
            CostQuery {
                blood: b.unwrap_or(0) as isize,
                bone: o.unwrap_or(0) as isize,
                energy: e.unwrap_or(0) as isize,
            },
        )
    } else {
        let j = digit_end(w, i);
        if j == i || j >= w.len() {
            None
        } else {
            match int_of(w.subrange(i, j)) {
                None => None,
                Some(n) => {
                    let l = w[j];
                    if l == 'b' && b is None {
                        cost_from(w, j + 1, Some(n), o, e)
                    } else if l == 'o' && o is None {
                        cost_from(w, j + 1, b, Some(n), e)
                    } else if l == 'e' && e is None {
                        cost_from(w, j + 1, b, o, Some(n))
                    } else {
                        None
                    }
                },
            }
        }
    }
}

#[via_fn]
proof fn cost_from_decreases(w: Seq<char>, i: int, b: Option<int>, o: Option<int>, e: Option<int>) {
    if 0 <= i < w.len() {
        lemma_digit_end(w, i);
    }
}

/// The amounts of a cost shorthand; an empty one is malformed.
pub open spec fn cost_of(w: Seq<char>) -> Option<CostQuery> {
    if w.len() == 0 {
        None
    } else {
        cost_from(w, 0, None, None, None)
    }
}

/// A field clause starting at `p`, where `t[p]` is a field keyword.
pub open spec fn clause(t: Seq<TokenV>, p: int) -> Result<(FilterV, int), ParseError> {
    let field = tok_at(t, p);
    let sep = tok_at(t, p + 1);
    let arg = tok_at(t, p + 2);
    match field {
        TokenV::Attack | TokenV::Health => match cmp_of(sep) {
            None => Err(perr(p + 1, ParseErrorKind::BadSeparator)),
            Some(c) => match arg {
                TokenV::Num(n) => Ok(
                    (
                        if field == TokenV::Attack {
                            FilterV::Attack(c, n)
                        } else {
                            FilterV::Health(c, n)
                        },
                        p + 3,
                    ),
                ),
                _ => Err(perr(p + 2, ParseErrorKind::MissingArgument)),
            },
        },
        _ => if sep != TokenV::Colon {
            Err(perr(p + 1, ParseErrorKind::BadSeparator))
        } else {
            match arg {
                TokenV::Str(s) => match field {
                    TokenV::Name => Ok((FilterV::Name(s), p + 3)),
                    TokenV::Desc => Ok((FilterV::Desc(s), p + 3)),
                    TokenV::Tribe => Ok((FilterV::Tribe(s), p + 3)),
                    TokenV::Sigil => Ok((FilterV::Sigil(s), p + 3)),
                    TokenV::Trait => Ok((FilterV::Trait(s), p + 3)),
                    TokenV::Rarity => match rarity_of(s) {
                        Some(r) => Ok((FilterV::Rarity(r), p + 3)),
                        None => Err(perr(p + 2, ParseErrorKind::UnknownValue)),
                    },
                    TokenV::Temple => match temple_of(s) {
                        Some(b) => Ok((FilterV::Temple(Temple { bits: b }), p + 3)),
                        None => Err(perr(p + 2, ParseErrorKind::UnknownValue)),
                    },
                    TokenV::SpAtk => match spatk_of(s) {
                        Some(a) => Ok((FilterV::SpAtk(a), p + 3)),
                        None => Err(perr(p + 2, ParseErrorKind::UnknownValue)),
                    },
                    _ => match cost_of(s) {
                        Some(q) => Ok(
                            (
                                if field == TokenV::Costs {
                                    FilterV::Costs(q)
                                } else {
                                    FilterV::CostType(q)
                                },
                                p + 3,
                            ),
                        ),
                        None => Err(perr(p + 2, ParseErrorKind::BadCost)),
                    },
                },
                TokenV::Num(_) => if field == TokenV::Costs || field == TokenV::CostType {
                    Err(perr(p + 2, ParseErrorKind::BadCost))
                } else {
                    Err(perr(p + 2, ParseErrorKind::MissingArgument))
                },
                _ => Err(perr(p + 2, ParseErrorKind::MissingArgument)),
            }
        },
    }
}

/// A term at `p`: the filter and the position after it.
pub open spec fn term(t: Seq<TokenV>, p: int) -> Result<(FilterV, int), ParseError>
    decreases t.len() - p, 0int,
{
    if p < 0 || p >= t.len() {
        Err(perr(p, ParseErrorKind::UnexpectedToken))
    } else {
        let k = t[p];
        if k == TokenV::Not {
            match term(t, p + 1) {
                Ok((f, q)) => Ok((FilterV::Not(Box::new(f)), q)),
                Err(e) => Err(e),
            }
        } else if k == TokenV::OpenParen {
            match group(t, p + 1) {
                Ok((f, q)) => if tok_at(t, q) == TokenV::CloseParen {
                    Ok((f, q + 1))
                } else {
                    Err(perr(q, ParseErrorKind::UnexpectedToken))
                },
                Err(e) => Err(e),
            }
        } else if is_field(k) {
            clause(t, p)
        } else {
            Err(perr(p, ParseErrorKind::UnexpectedToken))
        }
    }
}

/// A run of terms at `p`, all of which must hold.
pub open spec fn terms(t: Seq<TokenV>, p: int) -> Result<(FilterV, int), ParseError>
    decreases t.len() - p, 1int,
{
    if p < 0 || p > t.len() {
        Err(perr(p, ParseErrorKind::UnexpectedToken))
    } else {
        match term(t, p) {
            Err(e) => Err(e),
            Ok((f, q)) => if p < q && q <= t.len() && starts_term(tok_at(t, q)) {
                match terms(t, q) {
                    Ok((g, r)) => Ok((FilterV::And(Box::new(f), Box::new(g)), r)),
                    Err(e) => Err(e),
                }
            } else {
                Ok((f, q))
            },
        }
    }
}

/// A group at `p`: a run of terms, or two runs joined by `or`.
pub open spec fn group(t: Seq<TokenV>, p: int) -> Result<(FilterV, int), ParseError>
    decreases t.len() - p, 2int,
{
    if p < 0 || p > t.len() {
        Err(perr(p, ParseErrorKind::UnexpectedToken))
    } else {
        match terms(t, p) {
            Err(e) => Err(e),
            Ok((f, q)) => if p <= q && q < t.len() && t[q] == TokenV::Or {
                match terms(t, q + 1) {
                    Ok((g, r)) => Ok((FilterV::Or(Box::new(f), Box::new(g)), r)),
                    Err(e) => Err(e),
                }
            } else {
                Ok((f, q))
            },
        }
    }
}

/// The filter tree of a whole token stream, which must end after one group.
pub open spec fn parse_spec(t: Seq<TokenV>) -> Result<FilterV, ParseError> {
    match group(t, 0) {
        Ok((f, q)) => if tok_at(t, q) == TokenV::Eof {
            Ok(f)
        } else {
            Err(perr(q, ParseErrorKind::UnexpectedToken))
        },
        Err(e) => Err(e),
    }
}


/// The exec result `r` is the spec result `s`.
pub open spec fn mirrors(r: Result<(Filter, usize), ParseError>, s: Result<(FilterV, int), ParseError>) -> bool {
    match s {
        Ok((f, q)) => r is Ok && r->Ok_0.0@ == f && r->Ok_0.1 as int == q,
        Err(e) => r == Err::<(Filter, usize), ParseError>(e),
    }
}

fn rarity_exec(w: &Vec<char>) -> (r: Option<Rarity>)
    ensures
        r == rarity_of(w@),
{
    if eq_text(w, "common") {
        Some(Rarity::Common)
    } else if eq_text(w, "uncommon") {
        Some(Rarity::Uncommon)
    } else if eq_text(w, "rare") {
        Some(Rarity::Rare)
    } else if eq_text(w, "unique") {
        Some(Rarity::Unique)
    } else if eq_text(w, "side") {
        Some(Rarity::Side)
    } else if eq_text(w, "deathcard") {
        Some(Rarity::Deathcard)
    } else if eq_text(w, "jokecard") {
        Some(Rarity::Jokecard)
    } else {
        None
    }
}

fn temple_exec(w: &Vec<char>) -> (r: Option<u8>)
    ensures
        r == temple_of(w@),
{
    if eq_text(w, "beast") {
        Some(Temple::BEAST)
    } else if eq_text(w, "undead") {
        Some(Temple::UNDEAD)
    } else if eq_text(w, "tech") {
        Some(Temple::TECH)
    } else if eq_text(w, "magick") {
        Some(Temple::MAGICK)
    } else if eq_text(w, "fool") {
        Some(Temple::FOOL)
    } else if eq_text(w, "extras") {
        Some(Temple::EXTRAS)
    } else {
        None
    }
}

fn spatk_exec(w: &Vec<char>) -> (r: Option<SpAtk>)
    ensures
        r == spatk_of(w@),
{
    if eq_text(w, "mox") {
        Some(SpAtk::Mox)
    } else if eq_text(w, "green_mox") {
        Some(SpAtk::GreenMox)
    } else if eq_text(w, "mirror") {
        Some(SpAtk::Mirror)
    } else if eq_text(w, "ant") {
        Some(SpAtk::Ant)
    } else if eq_text(w, "bell") {
        Some(SpAtk::Bell)
    } else if eq_text(w, "card") {
        Some(SpAtk::Card)
    } else {
        None
    }
}

fn cmp_tok(t: &Token) -> (r: Option<Cmp>)
    ensures
        r == cmp_of(t@),
{
    match t {
        Token::Colon | Token::Equal => Some(Cmp::Eq),
        Token::Greater => Some(Cmp::Gt),
        Token::GreaterEq => Some(Cmp::Ge),
        Token::Less => Some(Cmp::Lt),
        Token::LessEq => Some(Cmp::Le),
        _ => None,
    }
}

pub open spec fn opt_int(x: Option<isize>) -> Option<int> {
    match x {
        Some(v) => Some(v as int),
        None => None,
    }
}

/// Reads a cost shorthand such as `3b6e2o`.
pub fn parse_cost(s: &String) -> (r: Option<CostQuery>)
    ensures
        r == cost_of(s@),
{
    let w = char_vec(s.as_str());
    if w.len() == 0 {
        return None;
    }
    let mut i: usize = 0;
    let mut b: Option<isize> = None;
    let mut o: Option<isize> = None;
    let mut e: Option<isize> = None;
    while i < w.len()
        invariant
            w@ == s@,
            w@.len() > 0,
            i <= w@.len(),
            cost_of(s@) == cost_from(w@, i as int, opt_int(b), opt_int(o), opt_int(e)),
        decreases w@.len() - i,
    {
        let mut j = i;
        while j < w.len() && '0' <= w[j] && w[j] <= '9'
            invariant
                i <= j <= w@.len(),
                digit_end(w@, i as int) == digit_end(w@, j as int),
            decreases w@.len() - j,
        {
            j += 1;
        }
        if j == i || j >= w.len() {
            return None;
        }
        let digits = string_of(&sub_vec(&w, i, j));
        let n = match parse_isize(digits.as_str()) {
            Some(n) => n,
            None => {
                return None;
            },
        };
        let l = w[j];
        if l == 'b' && b.is_none() {
            b = Some(n);
        } else if l == 'o' && o.is_none() {
            o = Some(n);
        } else if l == 'e' && e.is_none() {
            e = Some(n);
        } else {
            return None;
        }
        i = j + 1;
    }
    let blood = match b {
        Some(v) => v,
        None => 0,
    };
    let bone = match o {
        Some(v) => v,
        None => 0,
    };
    let energy = match e {
        Some(v) => v,
        None => 0,
    };
    Some(CostQuery { blood, bone, energy })
}

fn clause_exec(tokens: &Vec<Token>, p: usize) -> (r: Result<(Filter, usize), ParseError>)
    requires
        p < tokens@.len(),
        is_field(tokens@[p as int]@),
    ensures
        mirrors(r, clause(tokens_view(tokens@), p as int)),
{
    let ghost t = tokens_view(tokens@);
    assert(forall|i: int| 0 <= i < tokens@.len() ==> #[trigger] t[i] == tokens@[i]@);
    let n = tokens.len();
    match &tokens[p] {
        Token::Attack | Token::Health => {
            let attack = match &tokens[p] {
                Token::Attack => true,
                _ => false,
            };
            let c = if p + 1 < n { cmp_tok(&tokens[p + 1]) } else { None };
            match c {
                None => Err(ParseError { pos: p + 1, kind: ParseErrorKind::BadSeparator }),
                Some(c) => {
                    if p + 2 < n {
                        match &tokens[p + 2] {
                            Token::Num(v) => {
                                let f = if attack { Filter::Attack(c, *v) } else { Filter::Health(c, *v) };
                                Ok((f, p + 3))
                            },
                            _ => Err(ParseError { pos: p + 2, kind: ParseErrorKind::MissingArgument }),
                        }
                    } else {
                        Err(ParseError { pos: p + 2, kind: ParseErrorKind::MissingArgument })
                    }
                },
            }
        },
        _ => {
            let colon = p + 1 < n && match &tokens[p + 1] {
                Token::Colon => true,
                _ => false,
            };
            if !colon {
                Err(ParseError { pos: p + 1, kind: ParseErrorKind::BadSeparator })
            } else if p + 2 < n {
                match &tokens[p + 2] {
                    Token::Str(s) => match &tokens[p] {
                        Token::Name => Ok((Filter::Name(s.clone()), p + 3)),
                        Token::Desc => Ok((Filter::Desc(s.clone()), p + 3)),
                        Token::Tribe => Ok((Filter::Tribe(s.clone()), p + 3)),
                        Token::Sigil => Ok((Filter::Sigil(s.clone()), p + 3)),
                        Token::Trait => Ok((Filter::Trait(s.clone()), p + 3)),
                        Token::Rarity => match rarity_exec(&char_vec(s.as_str())) {
                            Some(r) => Ok((Filter::Rarity(r), p + 3)),
                            None => Err(ParseError { pos: p + 2, kind: ParseErrorKind::UnknownValue }),
                        },
                        Token::Temple => match temple_exec(&char_vec(s.as_str())) {
                            Some(b) => Ok((Filter::Temple(Temple::from_bits(b)), p + 3)),
                            None => Err(ParseError { pos: p + 2, kind: ParseErrorKind::UnknownValue }),
                        },
                        Token::SpAtk => match spatk_exec(&char_vec(s.as_str())) {
                            Some(a) => Ok((Filter::SpAtk(a), p + 3)),
                            None => Err(ParseError { pos: p + 2, kind: ParseErrorKind::UnknownValue }),
                        },
                        Token::Costs => match parse_cost(s) {
                            Some(q) => Ok((Filter::Costs(q), p + 3)),
                            None => Err(ParseError { pos: p + 2, kind: ParseErrorKind::BadCost }),
                        },
                        _ => match parse_cost(s) {
                            Some(q) => Ok((Filter::CostType(q), p + 3)),
                            None => Err(ParseError { pos: p + 2, kind: ParseErrorKind::BadCost }),
                        },
                    },
                    Token::Num(_) => match &tokens[p] {
                        Token::Costs | Token::CostType => Err(
                            ParseError { pos: p + 2, kind: ParseErrorKind::BadCost },
                        ),
                        _ => Err(ParseError { pos: p + 2, kind: ParseErrorKind::MissingArgument }),
                    },
                    _ => Err(ParseError { pos: p + 2, kind: ParseErrorKind::MissingArgument }),
                }
            } else {
                Err(ParseError { pos: p + 2, kind: ParseErrorKind::MissingArgument })
            }
        },
    }
}


fn starts_term_exec(tokens: &Vec<Token>, q: usize) -> (r: bool)
    ensures
        r == starts_term(tok_at(tokens_view(tokens@), q as int)),
{
    if q < tokens.len() {
        match &tokens[q] {
            Token::Name | Token::Desc | Token::Rarity | Token::Temple | Token::Tribe
            | Token::Attack | Token::Health | Token::Sigil | Token::SpAtk | Token::Costs
            | Token::CostType | Token::Trait | Token::Not | Token::OpenParen => true,
            _ => false,
        }
    } else {
        false
    }
}

fn term_exec(tokens: &Vec<Token>, p: usize) -> (r: Result<(Filter, usize), ParseError>)
    ensures
        mirrors(r, term(tokens_view(tokens@), p as int)),
    decreases tokens@.len() - p, 0int,
{
    let ghost t = tokens_view(tokens@);
    assert(forall|i: int| 0 <= i < tokens@.len() ==> #[trigger] t[i] == tokens@[i]@);
    if p >= tokens.len() {
        return Err(ParseError { pos: p, kind: ParseErrorKind::UnexpectedToken });
    }
    match &tokens[p] {
        Token::Not => match term_exec(tokens, p + 1) {
            Ok((f, q)) => Ok((Filter::Not(Box::new(f)), q)),
            Err(e) => Err(e),
        },
        Token::OpenParen => match group_exec(tokens, p + 1) {
            Ok((f, q)) => {
                let close = q < tokens.len() && match &tokens[q] {
                    Token::CloseParen => true,
                    _ => false,
                };
                if close {
                    Ok((f, q + 1))
                } else {
                    Err(ParseError { pos: q, kind: ParseErrorKind::UnexpectedToken })
                }
            },
            Err(e) => Err(e),
        },
        Token::Name | Token::Desc | Token::Rarity | Token::Temple | Token::Tribe | Token::Attack
        | Token::Health | Token::Sigil | Token::SpAtk | Token::Costs | Token::CostType
        | Token::Trait => clause_exec(tokens, p),
        _ => Err(ParseError { pos: p, kind: ParseErrorKind::UnexpectedToken }),
    }
}

fn terms_exec(tokens: &Vec<Token>, p: usize) -> (r: Result<(Filter, usize), ParseError>)
    ensures
        mirrors(r, terms(tokens_view(tokens@), p as int)),
    decreases tokens@.len() - p, 1int,
{
    if p > tokens.len() {
        return Err(ParseError { pos: p, kind: ParseErrorKind::UnexpectedToken });
    }
    match term_exec(tokens, p) {
        Err(e) => Err(e),
        Ok((f, q)) => {
            if p < q && q <= tokens.len() && starts_term_exec(tokens, q) {
                match terms_exec(tokens, q) {
                    Ok((g, r)) => Ok((Filter::And(Box::new(f), Box::new(g)), r)),
                    Err(e) => Err(e),
                }
            } else {
                Ok((f, q))
            }
        },
    }
}

fn group_exec(tokens: &Vec<Token>, p: usize) -> (r: Result<(Filter, usize), ParseError>)
    ensures
        mirrors(r, group(tokens_view(tokens@), p as int)),
    decreases tokens@.len() - p, 2int,
{
    let ghost t = tokens_view(tokens@);
    assert(forall|i: int| 0 <= i < tokens@.len() ==> #[trigger] t[i] == tokens@[i]@);
    if p > tokens.len() {
        return Err(ParseError { pos: p, kind: ParseErrorKind::UnexpectedToken });
    }
    match terms_exec(tokens, p) {
        Err(e) => Err(e),
        Ok((f, q)) => {
            let or = p <= q && q < tokens.len() && match &tokens[q] {
                Token::Or => true,
                _ => false,
            };
            if or {
                match terms_exec(tokens, q + 1) {
                    Ok((g, r)) => Ok((Filter::Or(Box::new(f), Box::new(g)), r)),
                    Err(e) => Err(e),
                }
            } else {
                Ok((f, q))
            }
        },
    }
}

/// Parses a token stream into a filter tree.
pub fn parse_query(tokens: &Vec<Token>) -> (r: Result<Filter, ParseError>)
    ensures
        match parse_spec(tokens_view(tokens@)) {
            Ok(f) => r is Ok && r->Ok_0@ == f,
            Err(e) => r == Err::<Filter, ParseError>(e),
        },
{
    let ghost t = tokens_view(tokens@);
    assert(forall|i: int| 0 <= i < tokens@.len() ==> #[trigger] t[i] == tokens@[i]@);
    match group_exec(tokens, 0) {
        Ok((f, q)) => {
            let end = q >= tokens.len() || match &tokens[q] {
                Token::Eof => true,
                _ => false,
            };
            if end {
                Ok(f)
            } else {
                Err(ParseError { pos: q, kind: ParseErrorKind::UnexpectedToken })
            }
        },
        Err(e) => Err(e),
    }
}


/// Why a query text was refused.
#[derive(Clone, Debug, PartialEq)]
pub enum QueryError {
    /// The lexer's message.
    Lex(String),
    /// The parser's error.
    Parse(ParseError),
}

/// `r` is what the query text `q` gives: the lexer's message for its first
/// unrecognised symbol, else the parser's error or filter tree for its tokens.
pub open spec fn parse_str_result(q: Seq<char>, r: Result<Filter, QueryError>) -> bool {
    match lex_from(q, 0, false) {
        Err(c) => r matches Err(QueryError::Lex(m)) && m@ == lex_error(c),
        Ok(ts) => match parse_spec(ts) {
            Ok(f) => r is Ok && r->Ok_0@ == f,
            Err(e) => r == Err::<Filter, QueryError>(QueryError::Parse(e)),
        },
    }
}

/// Tokenizes and parses a query text.
pub fn parse_str(query: &str) -> (r: Result<Filter, QueryError>)
    ensures
        parse_str_result(query@, r),
{
    match tokenize_query(query) {
        Err(m) => Err(QueryError::Lex(m)),
        Ok(tokens) => match parse_query(&tokens) {
            Ok(f) => Ok(f),
            Err(e) => Err(QueryError::Parse(e)),
        },
    }
}

/// The same query text always gives the same filter tree, or the same
/// error: any two results that `parse_str` may return for it agree.
pub proof fn lemma_parse_deterministic(q: Seq<char>, r1: Result<Filter, QueryError>, r2: Result<Filter, QueryError>)
    requires
        parse_str_result(q, r1),
        parse_str_result(q, r2),
    ensures
        r1 is Ok <==> r2 is Ok,
        r1 is Ok ==> r1->Ok_0@ == r2->Ok_0@,
        r1 matches Err(QueryError::Parse(e)) ==> r2 == Err::<Filter, QueryError>(QueryError::Parse(e)),
        r1 matches Err(QueryError::Lex(m1)) ==> r2 matches Err(QueryError::Lex(m2)) && m1@ == m2@,
{
}

} // verus!
