//! The query lexer: turns query text into a flat token stream that always
//! ends with `Eof`.

use vstd::prelude::*;
use crate::text::{char_vec, eq_text, string_of, sub_vec};

verus! {

/// A token of the query language.
#[derive(Clone, Debug, PartialEq)]
pub enum Token {
    /// End of input.
    Eof,
    /// `(`, opens a group.
    OpenParen,
    /// `)`, closes a group.
    CloseParen,
    /// A text argument.
    Str(String),
    /// A number argument; may be negative.
    Num(isize),
    /// `name`, `n`
    Name,
    /// `description`, `d`
    Desc,
    /// `rarity`, `r`
    Rarity,
    /// `temple`, `tp`
    Temple,
    /// `tribe`, `tb`
    Tribe,
    /// `attack`, `a`
    Attack,
    /// `health`, `h`
    Health,
    /// `sigil`, `s`
    Sigil,
    /// `spatk`, `sp`
    SpAtk,
    /// `cost`, `c`
    Costs,
    /// `costtype`, `ct`
    CostType,
    /// `trait`, `tr`
    Trait,
    /// `or`
    Or,
    /// `!`
    Not,
    /// `:`
    Colon,
    /// `=`
    Equal,
    /// `>`
    Greater,
    /// `>=`
    GreaterEq,
    /// `<`
    Less,
    /// `<=`
    LessEq,
}

/// The mathematical form of a token: text arguments as character sequences.
pub ghost enum TokenV {
    Eof,
    OpenParen,
    CloseParen,
    Str(Seq<char>),
    Num(int),
    Name,
    Desc,
    Rarity,
    Temple,
    Tribe,
    Attack,
    Health,
    Sigil,
    SpAtk,
    Costs,
    CostType,
    Trait,
    Or,
    Not,
    Colon,
    Equal,
    Greater,
    GreaterEq,
    Less,
    LessEq,
}

impl View for Token {
    type V = TokenV;

    open spec fn view(&self) -> TokenV {
        match self {
            Token::Eof => TokenV::Eof,
            Token::OpenParen => TokenV::OpenParen,
            Token::CloseParen => TokenV::CloseParen,
            Token::Str(s) => TokenV::Str(s@),
            Token::Num(n) => TokenV::Num(*n as int),
            Token::Name => TokenV::Name,
            Token::Desc => TokenV::Desc,
            Token::Rarity => TokenV::Rarity,
            Token::Temple => TokenV::Temple,
            Token::Tribe => TokenV::Tribe,
            Token::Attack => TokenV::Attack,
            Token::Health => TokenV::Health,
            Token::Sigil => TokenV::Sigil,
            Token::SpAtk => TokenV::SpAtk,
            Token::Costs => TokenV::Costs,
            Token::CostType => TokenV::CostType,
            Token::Trait => TokenV::Trait,
            Token::Or => TokenV::Or,
            Token::Not => TokenV::Not,
            Token::Colon => TokenV::Colon,
            Token::Equal => TokenV::Equal,
            Token::Greater => TokenV::Greater,
            Token::GreaterEq => TokenV::GreaterEq,
            Token::Less => TokenV::Less,
            Token::LessEq => TokenV::LessEq,
        }
    }
}

/// The views of a token sequence.
pub open spec fn tokens_view(ts: Seq<Token>) -> Seq<TokenV> {
    ts.map_values(|t: Token| t@)
}

pub open spec fn is_space(c: char) -> bool {
    c == ' ' || c == '\t' || c == '\n' || c == '\r' || c == '\x0C'
}

/// Whether std classifies `c` as alphanumeric (Unicode `Alphabetic` or
/// `Numeric`).
pub uninterp spec fn is_alnum_of(c: char) -> bool;

/// Relies on `char::is_alphanumeric`: the classification depends on the
/// character alone; on ASCII it holds exactly for letters and digits.
#[verifier::external_body]
fn is_alnum(c: char) -> (r: bool)
    ensures
        r == is_alnum_of(c),
        (c as u32) < 128 ==> r == (('a' <= c && c <= 'z') || ('A' <= c && c <= 'Z') || ('0' <= c
            && c <= '9')),
{
    c.is_alphanumeric()
}

/// Characters that make up words: letters and digits, `_` and `-`.
pub open spec fn is_word(c: char) -> bool {
    is_alnum_of(c) || c == '_' || c == '-'
}

fn is_space_exec(c: char) -> (r: bool)
    ensures
        r == is_space(c),
{
    c == ' ' || c == '\t' || c == '\n' || c == '\r' || c == '\x0C'
}

fn is_word_exec(c: char) -> (r: bool)
    ensures
        r == is_word(c),
{
    c == '_' || c == '-' || is_alnum(c)
}

/// The value of a run of decimal digits.
pub open spec fn digits_value(d: Seq<char>) -> int
    decreases d.len(),
{
    if d.len() == 0 {
        0
    } else {
        digits_value(d.drop_last()) * 10 + (d.last() as int - '0' as int)
    }
}

pub open spec fn all_digits(d: Seq<char>) -> bool {
    d.len() > 0 && forall|i: int| 0 <= i < d.len() ==> '0' <= #[trigger] d[i] && d[i] <= '9'
}

/// The integer a text spells in decimal: an optional `+` or `-`, then at
/// least one digit, with a value that fits an `isize`.
pub open spec fn int_of(w: Seq<char>) -> Option<int> {
    let neg = w.len() > 0 && w[0] == '-';
    let d = if w.len() > 0 && (w[0] == '-' || w[0] == '+') { w.drop_first() } else { w };
    let v = if neg { -digits_value(d) } else { digits_value(d) };
    if all_digits(d) && isize::MIN <= v && v <= isize::MAX {
        Some(v)
    } else {
        None
    }
}

proof fn lemma_digits_prefix(d: Seq<char>, k: int)
    requires
        0 <= k <= d.len(),
        forall|i: int| 0 <= i < d.len() ==> '0' <= #[trigger] d[i] && d[i] <= '9',
    ensures
        0 <= digits_value(d.subrange(0, k)) <= digits_value(d),
    decreases d.len() - k,
{
    if k < d.len() {
        lemma_digits_prefix(d, k + 1);
        let p = d.subrange(0, k + 1);
        assert(p.drop_last() =~= d.subrange(0, k));
    } else {
        assert(d.subrange(0, k) =~= d);
        lemma_digits_nonneg(d);
    }
}

proof fn lemma_digits_nonneg(d: Seq<char>)
    requires
        forall|i: int| 0 <= i < d.len() ==> '0' <= #[trigger] d[i] && d[i] <= '9',
    ensures
        digits_value(d) >= 0,
    decreases d.len(),
{
    if d.len() > 0 {
        lemma_digits_nonneg(d.drop_last());
    }
}

/// Reads a decimal integer as `str::parse::<isize>` does: an optional sign,
/// then at least one digit, with a value that fits.
pub fn parse_isize(s: &str) -> (r: Option<isize>)
    ensures
        r == (match int_of(s@) {
            Some(v) => Some(v as isize),
            None => None::<isize>,
        }),
{
    let w = char_vec(s);
    let n = w.len();
    if n == 0 {
        return None;
    }
    let neg = w[0] == '-';
    let start: usize = if w[0] == '-' || w[0] == '+' { 1 } else { 0 };
    let ghost d = w@.subrange(start as int, n as int);
    assert(d =~= if w@[0] == '-' || w@[0] == '+' { w@.drop_first() } else { w@ });
    if start == n {
        return None;
    }
    let limit: u128 = if neg { isize::MAX as u128 + 1 } else { isize::MAX as u128 };
    let mut acc: u128 = 0;
    let mut i: usize = start;
    while i < n
        invariant
            w@ == s@,
            n == w@.len(),
            start <= i <= n,
            d == w@.subrange(start as int, n as int),
            limit <= isize::MAX as u128 + 1,
            acc <= limit,
            acc as int == digits_value(w@.subrange(start as int, i as int)),
            neg == (w@[0] == '-'),
            limit as int == if neg { isize::MAX as int + 1 } else { isize::MAX as int },
            d == (if w@[0] == '-' || w@[0] == '+' { w@.drop_first() } else { w@ }),
            forall|k: int| start <= k < i ==> '0' <= #[trigger] w@[k] && w@[k] <= '9',
        decreases n - i,
    {
        let c = w[i];
        if !('0' <= c && c <= '9') {
            assert(d[i - start] == c);
            assert(!all_digits(d));
            assert(int_of(s@) is None);
            return None;
        }
        let ghost pre = w@.subrange(start as int, i + 1);
        assert(pre.drop_last() =~= w@.subrange(start as int, i as int));
        acc = acc * 10 + ((c as u32 - '0' as u32) as u128);
        i += 1;
        if acc > limit {
            proof {
                if all_digits(d) {
                    lemma_digits_prefix(d, i - start);
                    assert(d.subrange(0, i - start) =~= w@.subrange(start as int, i as int));
                    assert(digits_value(d) > limit);
                }
                assert(int_of(s@) is None);
            }
            return None;
        }
    }
    assert(w@.subrange(start as int, i as int) =~= d);
    if neg {
        Some((0 - (acc as i128)) as isize)
    } else {
        Some(acc as isize)
    }
}

/// The keyword a word stands for, if any.
pub open spec fn keyword_of(w: Seq<char>) -> Option<TokenV> {
    if w == "name"@ || w == "n"@ {
        Some(TokenV::Name)
    } else if w == "description"@ || w == "d"@ {
        Some(TokenV::Desc)
    } else if w == "rarity"@ || w == "r"@ {
        Some(TokenV::Rarity)
    } else if w == "temple"@ || w == "tp"@ {
        Some(TokenV::Temple)
    } else if w == "tribe"@ || w == "tb"@ {
        Some(TokenV::Tribe)
    } else if w == "attack"@ || w == "a"@ {
        Some(TokenV::Attack)
    } else if w == "health"@ || w == "h"@ {
        Some(TokenV::Health)
    } else if w == "sigil"@ || w == "s"@ {
        Some(TokenV::Sigil)
    } else if w == "spatk"@ || w == "sp"@ {
        Some(TokenV::SpAtk)
    } else if w == "cost"@ || w == "c"@ {
        Some(TokenV::Costs)
    } else if w == "costtype"@ || w == "ct"@ {
        Some(TokenV::CostType)
    } else if w == "trait"@ || w == "tr"@ {
        Some(TokenV::Trait)
    } else if w == "or"@ {
        Some(TokenV::Or)
    } else {
        None
    }
}

/// A literal word: a number where it spells one, else text.
pub open spec fn literal_of(w: Seq<char>) -> TokenV {
    match int_of(w) {
        Some(v) => TokenV::Num(v),
        None => TokenV::Str(w),
    }
}

/// The token of a word. Right after a `:` it is always a literal.
pub open spec fn word_token(w: Seq<char>, after_colon: bool) -> TokenV {
    if after_colon {
        literal_of(w)
    } else {
        match keyword_of(w) {
            Some(k) => k,
            None => literal_of(w),
        }
    }
}

/// The token of a one-character symbol.
pub open spec fn sym_of(c: char) -> Option<TokenV> {
    if c == '(' {
        Some(TokenV::OpenParen)
    } else if c == ')' {
        Some(TokenV::CloseParen)
    } else if c == '!' {
        Some(TokenV::Not)
    } else if c == ':' {
        Some(TokenV::Colon)
    } else if c == '=' {
        Some(TokenV::Equal)
    } else if c == '>' {
        Some(TokenV::Greater)
    } else if c == '<' {
        Some(TokenV::Less)
    } else {
        None
    }
}

/// The first index from `j` on that holds a `"`, or the length.
pub open spec fn quote_end(s: Seq<char>, j: int) -> int
    decreases s.len() - j,
{
    if j >= s.len() || s[j] == '"' {
        j
    } else {
        quote_end(s, j + 1)
    }
}

/// The first index from `j` on that does not hold a word character.
pub open spec fn word_end(s: Seq<char>, j: int) -> int
    decreases s.len() - j,
{
    if j >= s.len() || !is_word(s[j]) {
        j
    } else {
        word_end(s, j + 1)
    }
}

pub open spec fn prepend(p: Seq<TokenV>, r: Result<Seq<TokenV>, char>) -> Result<Seq<TokenV>, char> {
    match r {
        Ok(rest) => Ok(p + rest),
        Err(c) => Err(c),
    }
}

/// The tokens of `s` from index `i` on, or the first character that is no
/// token. Whitespace separates; a `"` starts a quoted text that runs to the
/// next `"` (a `"` without a non-empty text and a closing `"` is skipped); a
/// word is classified by `word_token`; `>=` and `<=` are taken before single
/// symbols.
pub open spec fn lex_from(s: Seq<char>, i: int, after_colon: bool) -> Result<Seq<TokenV>, char>
    decreases s.len() - i via lex_from_decreases
{
    if i < 0 || i >= s.len() {
        Ok(seq![TokenV::Eof])
    } else {
        let c = s[i];
        if is_space(c) {
            lex_from(s, i + 1, after_colon)
        } else if c == '"' {
            let e = quote_end(s, i + 1);
            if e < s.len() && e > i + 1 {
                prepend(seq![TokenV::Str(s.subrange(i + 1, e))], lex_from(s, e + 1, false))
            } else {
                lex_from(s, i + 1, after_colon)
            }
        } else if is_word(c) {
            let e = word_end(s, i);
            prepend(seq![word_token(s.subrange(i, e), after_colon)], lex_from(s, e, false))
        } else if (c == '>' || c == '<') && i + 1 < s.len() && s[i + 1] == '=' {
            prepend(
                seq![if c == '>' { TokenV::GreaterEq } else { TokenV::LessEq }],
                lex_from(s, i + 2, false),
            )
        } else {
            match sym_of(c) {
                Some(t) => prepend(seq![t], lex_from(s, i + 1, t == TokenV::Colon)),
                None => Err(c),
            }
        }
    }
}

#[via_fn]
proof fn lex_from_decreases(s: Seq<char>, i: int, after_colon: bool) {
    if 0 <= i < s.len() {
        lemma_quote_end(s, i + 1);
        lemma_word_end(s, i);
    }
}

/// The error text for an unrecognised symbol.
pub open spec fn lex_error(c: char) -> Seq<char> {
    "Unrecognized token: "@.push(c)
}

proof fn lemma_quote_end(s: Seq<char>, j: int)
    requires
        0 <= j,
    ensures
        j <= quote_end(s, j),
        quote_end(s, j) <= s.len() || quote_end(s, j) == j,
    decreases s.len() - j,
{
    if !(j >= s.len() || s[j] == '"') {
        lemma_quote_end(s, j + 1);
    }
}

proof fn lemma_word_end(s: Seq<char>, j: int)
    requires
        0 <= j,
    ensures
        j <= word_end(s, j),
        word_end(s, j) <= s.len() || word_end(s, j) == j,
        j < s.len() && is_word(s[j]) ==> j < word_end(s, j),
    decreases s.len() - j,
{
    if !(j >= s.len() || !is_word(s[j])) {
        lemma_word_end(s, j + 1);
    }
}

fn find_quote_end(s: &Vec<char>, j: usize) -> (e: usize)
    requires
        j <= s@.len(),
    ensures
        e == quote_end(s@, j as int),
{
    let mut k = j;
    while k < s.len() && s[k] != '"'
        invariant
            j <= k <= s@.len(),
            quote_end(s@, j as int) == quote_end(s@, k as int),
        decreases s@.len() - k,
    {
        k += 1;
    }
    k
}

fn find_word_end(s: &Vec<char>, j: usize) -> (e: usize)
    requires
        j <= s@.len(),
    ensures
        e == word_end(s@, j as int),
{
    let mut k = j;
    while k < s.len() && is_word_exec(s[k])
        invariant
            j <= k <= s@.len(),
            word_end(s@, j as int) == word_end(s@, k as int),
        decreases s@.len() - k,
    {
        k += 1;
    }
    k
}

fn keyword_exec(w: &Vec<char>) -> (r: Option<Token>)
    ensures
        match keyword_of(w@) {
            Some(k) => r is Some && r->Some_0@ == k,
            None => r is None,
        },
{
    if eq_text(w, "name") || eq_text(w, "n") {
        Some(Token::Name)
    } else if eq_text(w, "description") || eq_text(w, "d") {
        Some(Token::Desc)
    } else if eq_text(w, "rarity") || eq_text(w, "r") {
        Some(Token::Rarity)
    } else if eq_text(w, "temple") || eq_text(w, "tp") {
        Some(Token::Temple)
    } else if eq_text(w, "tribe") || eq_text(w, "tb") {
        Some(Token::Tribe)
    } else if eq_text(w, "attack") || eq_text(w, "a") {
        Some(Token::Attack)
    } else if eq_text(w, "health") || eq_text(w, "h") {
        Some(Token::Health)
    } else if eq_text(w, "sigil") || eq_text(w, "s") {
        Some(Token::Sigil)
    } else if eq_text(w, "spatk") || eq_text(w, "sp") {
        Some(Token::SpAtk)
    } else if eq_text(w, "cost") || eq_text(w, "c") {
        Some(Token::Costs)
    } else if eq_text(w, "costtype") || eq_text(w, "ct") {
        Some(Token::CostType)
    } else if eq_text(w, "trait") || eq_text(w, "tr") {
        Some(Token::Trait)
    } else if eq_text(w, "or") {
        Some(Token::Or)
    } else {
        None
    }
}

fn literal_exec(w: &Vec<char>) -> (r: Token)
    ensures
        r@ == literal_of(w@),
{
    let s = string_of(w);
    match parse_isize(s.as_str()) {
        Some(v) => Token::Num(v),
        None => Token::Str(s),
    }
}

fn word_token_exec(w: &Vec<char>, after_colon: bool) -> (r: Token)
    ensures
        r@ == word_token(w@, after_colon),
{
    if after_colon {
        literal_exec(w)
    } else {
        match keyword_exec(w) {
            Some(k) => k,
            None => literal_exec(w),
        }
    }
}

fn sym_exec(c: char) -> (r: Option<Token>)
    ensures
        match sym_of(c) {
            Some(t) => r is Some && r->Some_0@ == t,
            None => r is None,
        },
{
    if c == '(' {
        Some(Token::OpenParen)
    } else if c == ')' {
        Some(Token::CloseParen)
    } else if c == '!' {
        Some(Token::Not)
    } else if c == ':' {
        Some(Token::Colon)
    } else if c == '=' {
        Some(Token::Equal)
    } else if c == '>' {
        Some(Token::Greater)
    } else if c == '<' {
        Some(Token::Less)
    } else {
        None
    }
}

proof fn lemma_prepend(p: Seq<TokenV>, t: Seq<TokenV>, r: Result<Seq<TokenV>, char>)
    ensures
        prepend(p, prepend(t, r)) == prepend(p + t, r),
{
    if let Ok(rest) = r {
        assert(p + (t + rest) =~= (p + t) + rest);
    }
}

fn push_token(out: &mut Vec<Token>, t: Token)
    ensures
        tokens_view(final(out)@) == tokens_view(old(out)@).push(t@),
        tokens_view(final(out)@) == tokens_view(old(out)@) + seq![t@],
{
    out.push(t);
    assert(tokens_view(final(out)@) =~= tokens_view(old(out)@).push(t@));
}

/// Tokenizes a query. Fails on the first symbol that is no token, with
/// `Unrecognized token: ` and that symbol.
pub fn tokenize_query(query: &str) -> (r: Result<Vec<Token>, String>)
    ensures
        match lex_from(query@, 0, false) {
            Ok(ts) => r is Ok && tokens_view(r->Ok_0@) == ts,
            Err(c) => r is Err && r->Err_0@ == lex_error(c),
        },
{
    let s = char_vec(query);
    let ghost sv = s@;
    let mut out: Vec<Token> = Vec::new();
    let mut i: usize = 0;
    let mut after_colon = false;
    assert(prepend(tokens_view(out@), lex_from(sv, 0, false)) == lex_from(sv, 0, false)) by {
        if let Ok(rest) = lex_from(sv, 0, false) {
            assert(tokens_view(out@) + rest =~= rest);
        }
    }
    while i < s.len()
        invariant
            sv == s@,
            sv == query@,
            i <= s@.len(),
            lex_from(sv, 0, false) == prepend(tokens_view(out@), lex_from(sv, i as int, after_colon)),
        decreases s@.len() - i,
    {
        let c = s[i];
        if is_space_exec(c) {
            i += 1;
        } else if c == '"' {
            let e = find_quote_end(&s, i + 1);
            proof {
                lemma_quote_end(sv, i + 1);
            }
            if e < s.len() && e > i + 1 {
                let w = sub_vec(&s, i + 1, e);
                let t = Token::Str(string_of(&w));
                proof {
                    lemma_prepend(tokens_view(out@), seq![t@], lex_from(sv, e + 1, false));
                }
                push_token(&mut out, t);
                i = e + 1;
                after_colon = false;
            } else {
                i += 1;
            }
        } else if is_word_exec(c) {
            let e = find_word_end(&s, i);
            proof {
                lemma_word_end(sv, i as int);
            }
            let w = sub_vec(&s, i, e);
            let t = word_token_exec(&w, after_colon);
            proof {
                lemma_prepend(tokens_view(out@), seq![t@], lex_from(sv, e as int, false));
            }
            push_token(&mut out, t);
            i = e;
            after_colon = false;
        } else if (c == '>' || c == '<') && i + 1 < s.len() && s[i + 1] == '=' {
            let t = if c == '>' { Token::GreaterEq } else { Token::LessEq };
            proof {
                lemma_prepend(tokens_view(out@), seq![t@], lex_from(sv, i + 2, false));
            }
            push_token(&mut out, t);
            i = i + 2;
            after_colon = false;
        } else {
            match sym_exec(c) {
                Some(t) => {
                    let colon = match t {
                        Token::Colon => true,
                        _ => false,
                    };
                    assert(colon == (t@ == TokenV::Colon));
                    proof {
                        lemma_prepend(tokens_view(out@), seq![t@], lex_from(sv, i + 1, colon));
                    }
                    push_token(&mut out, t);
                    i += 1;
                    after_colon = colon;
                },
                None => {
                    let mut msg = char_vec("Unrecognized token: ");
                    msg.push(c);
                    return Err(string_of(&msg));
                },
            }
        }
    }
    push_token(&mut out, Token::Eof);
    Ok(out)
}

} // verus!
