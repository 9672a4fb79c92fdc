use magpie::{
    filter_cards, filter_sorted, parse_query, QueryOrder, parse_str, tokenize_query, Attack, Card, Cmp, CostQuery, Costs,
    Filter, Mox, ParseErrorKind, QueryError, Rarity, SetCode, Temple, Token,
};

fn card(name: &str, rarity: Rarity, temple: u8, health: isize) -> Card<(), ()> {
    Card {
        portrait: String::new(),
        set: SetCode { c0: 's', c1: 't', c2: 'd' },
        name: name.to_string(),
        description: String::from("A small creature"),
        rarity,
        temple: Temple::from_bits(temple),
        tribes: None,
        attack: Attack::Num(1),
        health,
        sigils: vec![String::from("Worthy Sacrifice")],
        costs: None,
        traits: None,
        related: vec![],
        extra: (),
    }
}

fn s(x: &str) -> String {
    x.to_string()
}

#[test]
fn tokenize_cost_shorthand() {
    let t = tokenize_query("cost:3b6e2o").unwrap();
    assert_eq!(t, vec![Token::Costs, Token::Colon, Token::Str(s("3b6e2o")), Token::Eof]);
}

#[test]
fn parse_cost_shorthand() {
    let f = parse_str("cost:3b6e2o").unwrap();
    assert_eq!(f, Filter::Costs(CostQuery { blood: 3, bone: 2, energy: 6 }));
}

#[test]
fn parse_rarity_or() {
    let f = parse_str("rarity:rare or rarity:unique").unwrap();
    assert_eq!(
        f,
        Filter::Or(Box::new(Filter::Rarity(Rarity::Rare)), Box::new(Filter::Rarity(Rarity::Unique)))
    );
    assert!(f.matches(&card("Stoat", Rarity::Rare, Temple::BEAST, 2)));
    assert!(!f.matches(&card("Stoat", Rarity::Common, Temple::BEAST, 2)));
}

#[test]
fn parse_group_and_health() {
    let f = parse_str("(temple:beast or temple:undead) health>3").unwrap();
    let expected = Filter::And(
        Box::new(Filter::Or(
            Box::new(Filter::Temple(Temple::from_bits(Temple::BEAST))),
            Box::new(Filter::Temple(Temple::from_bits(Temple::UNDEAD))),
        )),
        Box::new(Filter::Health(Cmp::Gt, 3)),
    );
    assert_eq!(f, expected);
    assert!(f.matches(&card("Grizzly", Rarity::Common, Temple::BEAST, 6)));
    assert!(!f.matches(&card("Stoat", Rarity::Common, Temple::BEAST, 3)));
    assert!(!f.matches(&card("Bot", Rarity::Common, Temple::TECH, 6)));
}

#[test]
fn tokenize_keywords_numbers_and_symbols() {
    let t = tokenize_query("!(a>=-2 h<=3) n:thor").unwrap();
    assert_eq!(
        t,
        vec![
            Token::Not,
            Token::OpenParen,
            Token::Attack,
            Token::GreaterEq,
            Token::Num(-2),
            Token::Health,
            Token::LessEq,
            Token::Num(3),
            Token::CloseParen,
            Token::Name,
            Token::Colon,
            Token::Str(s("thor")),
            Token::Eof,
        ]
    );
}

#[test]
fn tokenize_word_after_colon_is_literal() {
    let t = tokenize_query("name:name").unwrap();
    assert_eq!(t, vec![Token::Name, Token::Colon, Token::Str(s("name")), Token::Eof]);
    let t = tokenize_query("h:7").unwrap();
    assert_eq!(t, vec![Token::Health, Token::Colon, Token::Num(7), Token::Eof]);
}

#[test]
fn tokenize_quoted_text() {
    let t = tokenize_query("!sigil:\"worthy sacrifice\"").unwrap();
    assert_eq!(
        t,
        vec![Token::Not, Token::Sigil, Token::Colon, Token::Str(s("worthy sacrifice")), Token::Eof]
    );
}

#[test]
fn tokenize_empty_is_eof() {
    assert_eq!(tokenize_query("   ").unwrap(), vec![Token::Eof]);
}

#[test]
fn tokenize_unknown_symbol() {
    assert_eq!(tokenize_query("name:x & h:1"), Err(s("Unrecognized token: &")));
}

#[test]
fn parse_errors() {
    let e = |q: &str| match parse_str(q) {
        Err(QueryError::Parse(e)) => (e.pos, e.kind),
        other => panic!("unexpected {:?}", other),
    };
    assert_eq!(e("name>3"), (1, ParseErrorKind::BadSeparator));
    assert_eq!(e("name:"), (2, ParseErrorKind::MissingArgument));
    assert_eq!(e("health:abc"), (2, ParseErrorKind::MissingArgument));
    assert_eq!(e("cost:3x"), (2, ParseErrorKind::BadCost));
    assert_eq!(e("rarity:mythic"), (2, ParseErrorKind::UnknownValue));
    assert_eq!(e("h:1 or h:2 or h:3"), (7, ParseErrorKind::UnexpectedToken));
    assert_eq!(e("(h:1"), (4, ParseErrorKind::UnexpectedToken));
    assert_eq!(e(""), (0, ParseErrorKind::UnexpectedToken));
    assert!(matches!(parse_str("h:1 $"), Err(QueryError::Lex(_))));
}

#[test]
fn parse_is_deterministic() {
    let q = "(temple:beast or temple:undead) health>3 !sigil:\"worthy\"";
    assert_eq!(parse_str(q), parse_str(q));
    let t = tokenize_query(q).unwrap();
    assert_eq!(parse_query(&t), parse_query(&t));
}

#[test]
fn evaluator_text_fields_ignore_case() {
    let c = card("River Snapper", Rarity::Common, Temple::BEAST, 6);
    assert!(parse_str("name:SNAPPER").unwrap().matches(&c));
    assert!(parse_str("d:creature").unwrap().matches(&c));
    assert!(parse_str("sigil:worthy").unwrap().matches(&c));
    assert!(!parse_str("name:stoat").unwrap().matches(&c));
    assert!(!parse_str("tribe:canine").unwrap().matches(&c));
}

#[test]
fn evaluator_combinators() {
    let c = card("Stoat", Rarity::Common, Temple::BEAST, 3);
    let yes = || Box::new(Filter::Health(Cmp::Eq, 3));
    let no = || Box::new(Filter::Health(Cmp::Lt, 3));
    assert!(!Filter::Not(yes()).matches(&c));
    assert!(Filter::Not(no()).matches(&c));
    assert!(Filter::And(yes(), yes()).matches(&c));
    assert!(!Filter::And(yes(), no()).matches(&c));
    assert!(Filter::Or(no(), yes()).matches(&c));
    assert!(!Filter::Or(no(), no()).matches(&c));
}

#[test]
fn evaluator_costs() {
    let mut c = card("Wolf", Rarity::Common, Temple::BEAST, 2);
    c.costs = Some(Costs { blood: 2, bone: 0, energy: 0, mox: Mox { bits: 0 }, mox_count: None, extra: () });
    assert!(parse_str("cost:2b").unwrap().matches(&c));
    assert!(!parse_str("cost:1b").unwrap().matches(&c));
    assert!(parse_str("ct:9b").unwrap().matches(&c));
    assert!(!parse_str("ct:1b1o").unwrap().matches(&c));
}

#[test]
fn filter_keeps_order_and_is_idempotent() {
    let cards = vec![
        card("A", Rarity::Rare, Temple::BEAST, 1),
        card("B", Rarity::Common, Temple::BEAST, 5),
        card("C", Rarity::Rare, Temple::TECH, 4),
        card("D", Rarity::Rare, Temple::UNDEAD, 9),
    ];
    let f = parse_str("rarity:rare").unwrap();
    let idx = filter_cards(&cards, &f);
    assert_eq!(idx, vec![0, 2, 3]);
    let once: Vec<Card<(), ()>> = idx.iter().map(|&i| cards[i].clone()).collect();
    assert_eq!(filter_cards(&once, &f), vec![0, 1, 2]);
}

#[test]
fn filter_sorted_by_health_is_stable() {
    let cards = vec![
        card("A", Rarity::Rare, Temple::BEAST, 5),
        card("B", Rarity::Rare, Temple::BEAST, 2),
        card("C", Rarity::Common, Temple::BEAST, 1),
        card("D", Rarity::Rare, Temple::UNDEAD, 5),
        card("E", Rarity::Rare, Temple::TECH, 2),
    ];
    let f = parse_str("rarity:rare").unwrap();
    assert_eq!(filter_sorted(&cards, &f, Some(QueryOrder::Health)), vec![1, 4, 0, 3]);
    assert_eq!(filter_sorted(&cards, &f, None), vec![0, 1, 3, 4]);
}

#[test]
fn tokenize_non_ascii_symbol_is_an_error() {
    assert_eq!(tokenize_query("€"), Err(s("Unrecognized token: €")));
    assert_eq!(tokenize_query("(€"), Err(s("Unrecognized token: €")));
}

#[test]
fn tokenize_non_ascii_letters_make_words() {
    let t = tokenize_query("name:café").unwrap();
    assert_eq!(t, vec![Token::Name, Token::Colon, Token::Str(s("café")), Token::Eof]);
}

#[test]
fn tokenize_integer_limits() {
    let t = tokenize_query("h:-9223372036854775808").unwrap();
    assert_eq!(t[2], Token::Num(isize::MIN));
    let t = tokenize_query("h:9223372036854775807").unwrap();
    assert_eq!(t[2], Token::Num(isize::MAX));
    let t = tokenize_query("h:9223372036854775808").unwrap();
    assert_eq!(t[2], Token::Str(s("9223372036854775808")));
    let t = tokenize_query("h:-").unwrap();
    assert_eq!(t[2], Token::Str(s("-")));
}

#[test]
fn filter_sorted_twice_is_unchanged() {
    let cards = vec![
        card("A", Rarity::Rare, Temple::BEAST, 5),
        card("B", Rarity::Rare, Temple::BEAST, 2),
        card("C", Rarity::Common, Temple::BEAST, 1),
        card("D", Rarity::Rare, Temple::UNDEAD, 5),
        card("E", Rarity::Rare, Temple::TECH, 2),
    ];
    let f = parse_str("rarity:rare").unwrap();
    let idx = filter_sorted(&cards, &f, Some(QueryOrder::Health));
    let once: Vec<Card<(), ()>> = idx.iter().map(|&i| cards[i].clone()).collect();
    assert_eq!(filter_sorted(&once, &f, Some(QueryOrder::Health)), vec![0, 1, 2, 3]);
}
