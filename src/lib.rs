//! Card search core: a query language (lexer, parser, filter tree and
//! evaluator) and a fuzzy name ranking engine over a generic card model.

mod text;
pub mod lexer;
pub mod parser;
pub mod card;
pub mod ext;
pub mod filter;
pub mod fetch;
pub mod fuzzy;
pub mod search;

pub use card::{
    Attack, Card, Costs, Mox, MoxCount, Rarity, CardSet, SetCode, SpAtk, Temple, Traits, TraitsFlag,
};
pub use ext::{AugCosts, AugExt, DescCosts};
pub use fuzzy::{fuzzy_best, fuzzy_rank, rank_folded, score_folded, similarity, FuzzyRes, Score};
pub use text::contains_folded;
pub use lexer::{tokenize_query, Token};
pub use filter::{filter_cards, filter_sorted, Cmp, CostQuery, Filter, QueryOrder};
pub use parser::{parse_query, parse_str, ParseError, ParseErrorKind, QueryError};
pub use fetch::imf::{fetch_imf_set, ImfCard, ImfSet, SetError};
pub use fetch::cti::{apply_part_folded, fetch_cti_set, parse_cti_cost, CostTally, CtiCard, CtiError, CtiExt, CtiSigil};
pub use search::sigil_search;
