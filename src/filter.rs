//! The filter tree and its evaluation against cards.

use vstd::prelude::*;
use crate::card::{Attack, Card, Rarity, SpAtk, Temple};
use crate::text::{contains_ci, has_ci};

verus! {

/// How a number field is compared with the query's number.
#[derive(Clone, Copy, Debug, PartialEq, Eq, Structural)]
pub enum Cmp {
    Eq,
    Gt,
    Ge,
    Lt,
    Le,
}

/// `x cmp n` holds.
pub open spec fn cmp_holds(c: Cmp, x: int, n: int) -> bool {
    match c {
        Cmp::Eq => x == n,
        Cmp::Gt => x > n,
        Cmp::Ge => x >= n,
        Cmp::Lt => x < n,
        Cmp::Le => x <= n,
    }
}

fn cmp_exec(c: Cmp, x: isize, n: isize) -> (r: bool)
    ensures
        r == cmp_holds(c, x as int, n as int),
{
    match c {
        Cmp::Eq => x == n,
        Cmp::Gt => x > n,
        Cmp::Ge => x >= n,
        Cmp::Lt => x < n,
        Cmp::Le => x <= n,
    }
}

/// The amounts of a cost shorthand such as `3b6e2o`.
#[derive(Clone, Copy, Debug, PartialEq, Eq, Structural)]
pub struct CostQuery {
    pub blood: isize,
    pub bone: isize,
    pub energy: isize,
}

/// A filter tree: field predicates combined by AND, OR and NOT.
#[derive(Debug, PartialEq)]
pub enum Filter {
    /// The name contains the text, regardless of case.
    Name(String),
    /// The description contains the text, regardless of case.
    Desc(String),
    /// The rarity is this one.
    Rarity(Rarity),
    /// The card belongs to every one of these temples.
    Temple(Temple),
    /// Some tribe contains the text, regardless of case.
    Tribe(String),
    /// The numeric attack compares so with the number.
    Attack(Cmp, isize),
    /// The health compares so with the number.
    Health(Cmp, isize),
    /// Some sigil contains the text, regardless of case.
    Sigil(String),
    /// The attack is this special attack.
    SpAtk(SpAtk),
    /// The blood, bone and energy amounts are exactly these.
    Costs(CostQuery),
    /// The same resources among blood, bone and energy are present.
    CostType(CostQuery),
    /// Some trait text contains the text, regardless of case.
    Trait(String),
    And(Box<Filter>, Box<Filter>),
    Or(Box<Filter>, Box<Filter>),
    Not(Box<Filter>),
}

/// The mathematical form of a filter tree.
pub ghost enum FilterV {
    Name(Seq<char>),
    Desc(Seq<char>),
    Rarity(Rarity),
    Temple(Temple),
    Tribe(Seq<char>),
    Attack(Cmp, int),
    Health(Cmp, int),
    Sigil(Seq<char>),
    SpAtk(SpAtk),
    Costs(CostQuery),
    CostType(CostQuery),
    Trait(Seq<char>),
    And(Box<FilterV>, Box<FilterV>),
    Or(Box<FilterV>, Box<FilterV>),
    Not(Box<FilterV>),
}

impl View for Filter {
    type V = FilterV;

    open spec fn view(&self) -> FilterV
        decreases self,
    {
        match self {
            Filter::Name(s) => FilterV::Name(s@),
            Filter::Desc(s) => FilterV::Desc(s@),
            Filter::Rarity(r) => FilterV::Rarity(*r),
            Filter::Temple(t) => FilterV::Temple(*t),
            Filter::Tribe(s) => FilterV::Tribe(s@),
            Filter::Attack(c, n) => FilterV::Attack(*c, *n as int),
            Filter::Health(c, n) => FilterV::Health(*c, *n as int),
            Filter::Sigil(s) => FilterV::Sigil(s@),
            Filter::SpAtk(a) => FilterV::SpAtk(*a),
            Filter::Costs(q) => FilterV::Costs(*q),
            Filter::CostType(q) => FilterV::CostType(*q),
            Filter::Trait(s) => FilterV::Trait(s@),
            Filter::And(a, b) => FilterV::And(Box::new((**a).view()), Box::new((**b).view())),
            Filter::Or(a, b) => FilterV::Or(Box::new((**a).view()), Box::new((**b).view())),
            Filter::Not(a) => FilterV::Not(Box::new((**a).view())),
        }
    }
}

/// Some text of `v` contains `needle`, regardless of case.
pub open spec fn any_has_ci(v: Seq<String>, needle: Seq<char>) -> bool {
    exists|i: int| 0 <= i < v.len() && has_ci(#[trigger] v[i]@, needle)
}

/// The blood, bone and energy amounts of a card; a card without a cost has
/// none of them.
pub open spec fn amounts<C, E>(card: Card<C, E>) -> (int, int, int) {
    match card.costs {
        Some(c) => (c.blood as int, c.bone as int, c.energy as int),
        None => (0, 0, 0),
    }
}

/// Whether the card satisfies the filter.
pub open spec fn eval<C, E>(f: FilterV, card: Card<C, E>) -> bool
    decreases f,
{
    match f {
        FilterV::Name(s) => has_ci(card.name@, s),
        FilterV::Desc(s) => has_ci(card.description@, s),
        FilterV::Rarity(r) => card.rarity == r,
        FilterV::Temple(t) => card.temple.has(t),
        FilterV::Tribe(s) => match card.tribes {
            Some(v) => any_has_ci(v@, s),
            None => false,
        },
        FilterV::Attack(c, n) => match card.attack {
            Attack::Num(a) => cmp_holds(c, a as int, n),
            Attack::SpAtk(_) => false,
        },
        FilterV::Health(c, n) => cmp_holds(c, card.health as int, n),
        FilterV::Sigil(s) => any_has_ci(card.sigils@, s),
        FilterV::SpAtk(a) => card.attack == Attack::SpAtk(a),
        FilterV::Costs(q) => amounts(card) == (q.blood as int, q.bone as int, q.energy as int),
        FilterV::CostType(q) => {
            let (b, o, e) = amounts(card);
            &&& (b != 0) == (q.blood != 0)
            &&& (o != 0) == (q.bone != 0)
            &&& (e != 0) == (q.energy != 0)
        },
        FilterV::Trait(s) => match card.traits {
            Some(t) => match t.strings {
                Some(v) => any_has_ci(v@, s),
                None => false,
            },
            None => false,
        },
        FilterV::And(a, b) => eval(*a, card) && eval(*b, card),
        FilterV::Or(a, b) => eval(*a, card) || eval(*b, card),
        FilterV::Not(a) => !eval(*a, card),
    }
}

fn any_contains_ci(v: &Vec<String>, needle: &String) -> (r: bool)
    ensures
        r == any_has_ci(v@, needle@),
{
    let mut i: usize = 0;
    while i < v.len()
        invariant
            i <= v@.len(),
            forall|k: int| 0 <= k < i ==> !has_ci(#[trigger] v@[k]@, needle@),
        decreases v@.len() - i,
    {
        if contains_ci(v[i].as_str(), needle.as_str()) {
            return true;
        }
        i += 1;
    }
    false
}

fn card_amounts<C, E>(card: &Card<C, E>) -> (r: (isize, isize, isize))
    ensures
        (r.0 as int, r.1 as int, r.2 as int) == amounts(*card),
{
    match &card.costs {
        Some(c) => (c.blood, c.bone, c.energy),
        None => (0, 0, 0),
    }
}

impl Filter {
    /// Whether `card` satisfies this filter. AND and OR stop at the first
    /// child that decides.
    pub fn matches<C, E>(&self, card: &Card<C, E>) -> (r: bool)
        ensures
            r == eval(self@, *card),
        decreases self,
    {
        match self {
            Filter::Name(s) => contains_ci(card.name.as_str(), s.as_str()),
            Filter::Desc(s) => contains_ci(card.description.as_str(), s.as_str()),
            Filter::Rarity(r) => card.rarity == *r,
            Filter::Temple(t) => card.temple.contains(*t),
            Filter::Tribe(s) => match &card.tribes {
                Some(v) => any_contains_ci(v, s),
                None => false,
            },
            Filter::Attack(c, n) => match card.attack {
                Attack::Num(a) => cmp_exec(*c, a, *n),
                Attack::SpAtk(_) => false,
            },
            Filter::Health(c, n) => cmp_exec(*c, card.health, *n),
            Filter::Sigil(s) => any_contains_ci(&card.sigils, s),
            Filter::SpAtk(a) => match card.attack {
                Attack::SpAtk(b) => b == *a,
                Attack::Num(_) => false,
            },
            Filter::Costs(q) => {
                let (b, o, e) = card_amounts(card);
                b == q.blood && o == q.bone && e == q.energy
            },
            Filter::CostType(q) => {
                let (b, o, e) = card_amounts(card);
                (b != 0) == (q.blood != 0) && (o != 0) == (q.bone != 0) && (e != 0) == (q.energy
                    != 0)
            },
            Filter::Trait(s) => match &card.traits {
                Some(t) => match &t.strings {
                    Some(v) => any_contains_ci(v, s),
                    None => false,
                },
                None => false,
            },
            Filter::And(a, b) => a.matches(card) && b.matches(card),
            Filter::Or(a, b) => a.matches(card) || b.matches(card),
            Filter::Not(a) => !a.matches(card),
        }
    }
}

/// NOT inverts, AND is conjunction and OR is disjunction, on every card.
pub proof fn lemma_combinators<C, E>(f: FilterV, g: FilterV, card: Card<C, E>)
    ensures
        eval(FilterV::Not(Box::new(f)), card) == !eval(f, card),
        eval(FilterV::And(Box::new(f), Box::new(g)), card) == (eval(f, card) && eval(g, card)),
        eval(FilterV::Or(Box::new(f), Box::new(g)), card) == (eval(f, card) || eval(g, card)),
{
}

/// The cards that satisfy `f`, in the order given.
pub open spec fn filtered<C, E>(cards: Seq<Card<C, E>>, f: FilterV) -> Seq<Card<C, E>> {
    cards.filter(|c: Card<C, E>| eval(f, c))
}

/// The cards at the given positions, in that order.
pub open spec fn pick<C, E>(cards: Seq<Card<C, E>>, idx: Seq<usize>) -> Seq<Card<C, E>> {
    idx.map_values(|i: usize| cards[i as int])
}

/// The positions of the cards that satisfy `f`, in increasing order; the
/// cards at those positions are `filtered(cards, f)`.
pub fn filter_cards<C, E>(cards: &Vec<Card<C, E>>, f: &Filter) -> (r: Vec<usize>)
    ensures
        pick(cards@, r@) == filtered(cards@, f@),
        forall|k: int| 0 <= k < r@.len() ==> (#[trigger] r@[k]) < cards@.len(),
        forall|k: int, l: int| 0 <= k < l < r@.len() ==> (#[trigger] r@[k]) < (#[trigger] r@[l]),
{
    let mut out: Vec<usize> = Vec::new();
    let mut i: usize = 0;
    let ghost p = |c: Card<C, E>| eval(f@, c);
    assert(cards@.subrange(0, 0).filter(p) =~= Seq::<Card<C, E>>::empty()) by {
        reveal(Seq::filter);
    }
    while i < cards.len()
        invariant
            i <= cards@.len(),
            p == (|c: Card<C, E>| eval(f@, c)),
            pick(cards@, out@) == cards@.subrange(0, i as int).filter(p),
            forall|k: int| 0 <= k < out@.len() ==> (#[trigger] out@[k]) < i,
            forall|k: int, l: int| 0 <= k < l < out@.len() ==> (#[trigger] out@[k]) < (#[trigger] out@[l]),
        decreases cards@.len() - i,
    {
        let ghost pre = cards@.subrange(0, i as int);
        let ghost next = cards@.subrange(0, i + 1);
        assert(next.drop_last() =~= pre);
        assert(next.last() == cards@[i as int]);
        let hit = f.matches(&cards[i]);
        proof {
            reveal(Seq::filter);
        }
        if hit {
            let ghost before = out@;
            out.push(i);
            assert(pick(cards@, out@) =~= pick(cards@, before).push(cards@[i as int]));
        }
        i += 1;
    }
    assert(cards@.subrange(0, cards@.len() as int) =~= cards@);
    out
}

proof fn lemma_filter_all<A>(s: Seq<A>, p: spec_fn(A) -> bool)
    requires
        forall|i: int| 0 <= i < s.len() ==> p(#[trigger] s[i]),
    ensures
        s.filter(p) == s,
    decreases s.len(),
{
    reveal(Seq::filter);
    if s.len() > 0 {
        lemma_filter_all(s.drop_last(), p);
        assert(s.drop_last().push(s.last()) =~= s);
    }
}

/// Filtering cards that a filter already selected gives them back unchanged.
pub proof fn lemma_filter_idempotent<C, E>(cards: Seq<Card<C, E>>, f: FilterV)
    ensures
        filtered(filtered(cards, f), f) == filtered(cards, f),
{
    let p = |c: Card<C, E>| eval(f, c);
    let once = cards.filter(p);
    assert forall|i: int| 0 <= i < once.len() implies p(#[trigger] once[i]) by {
        cards.lemma_filter_pred(p, i);
    }
    lemma_filter_all(once, p);
}


/// A key to order selected cards by.
#[derive(Clone, Copy, Debug, PartialEq, Eq, Structural)]
pub enum QueryOrder {
    Health,
    /// The numeric attack; a special attack counts as zero.
    Attack,
    Blood,
    Bone,
    Energy,
}

pub open spec fn order_key<C, E>(card: Card<C, E>, o: QueryOrder) -> int {
    match o {
        QueryOrder::Health => card.health as int,
        QueryOrder::Attack => match card.attack {
            Attack::Num(a) => a as int,
            Attack::SpAtk(_) => 0,
        },
        QueryOrder::Blood => amounts(card).0,
        QueryOrder::Bone => amounts(card).1,
        QueryOrder::Energy => amounts(card).2,
    }
}

fn order_key_exec<C, E>(card: &Card<C, E>, o: QueryOrder) -> (r: isize)
    ensures
        r as int == order_key(*card, o),
{
    match o {
        QueryOrder::Health => card.health,
        QueryOrder::Attack => match card.attack {
            Attack::Num(a) => a,
            Attack::SpAtk(_) => 0,
        },
        QueryOrder::Blood => card_amounts(card).0,
        QueryOrder::Bone => card_amounts(card).1,
        QueryOrder::Energy => card_amounts(card).2,
    }
}

/// Card `a` comes before card `b`: a smaller key, or the same key and an
/// earlier position.
pub open spec fn before<C, E>(cards: Seq<Card<C, E>>, o: QueryOrder, a: usize, b: usize) -> bool {
    let ka = order_key(cards[a as int], o);
    let kb = order_key(cards[b as int], o);
    ka < kb || (ka == kb && a < b)
}

/// `r` lists, each once, exactly the positions of the cards that satisfy
/// `f`, ordered by `before`.
pub open spec fn sorted_selection<C, E>(cards: Seq<Card<C, E>>, f: FilterV, o: QueryOrder, r: Seq<usize>) -> bool {
    &&& forall|k: int| 0 <= k < r.len() ==> (#[trigger] r[k]) < cards.len() && eval(f, cards[r[k] as int])
    &&& forall|i: int| 0 <= i < cards.len() && eval(f, cards[i]) ==> #[trigger] r.contains(i as usize)
    &&& forall|k: int, l: int| 0 <= k < l < r.len() ==> before(cards, o, #[trigger] r[k], #[trigger] r[l])
}

/// The positions of the cards that satisfy `f`: in the order given
/// when no order is asked for, else by the key, equal keys keeping the
/// order given.
pub fn filter_sorted<C, E>(cards: &Vec<Card<C, E>>, f: &Filter, order: Option<QueryOrder>) -> (r: Vec<usize>)
    ensures
        order is None ==> pick(cards@, r@) == filtered(cards@, f@),
        order matches Some(o) ==> sorted_selection(cards@, f@, o, r@),
{
    let o = match order {
        None => {
            return filter_cards(cards, f);
        },
        Some(o) => o,
    };
    let mut out: Vec<usize> = Vec::new();
    let mut i: usize = 0;
    while i < cards.len()
        invariant
            i <= cards@.len(),
            forall|k: int| 0 <= k < out@.len() ==> (#[trigger] out@[k]) < i && eval(f@, cards@[out@[k] as int]),
            forall|j: int| 0 <= j < i && eval(f@, cards@[j]) ==> #[trigger] out@.contains(j as usize),
            forall|k: int, l: int| 0 <= k < l < out@.len() ==> before(cards@, o, #[trigger] out@[k], #[trigger] out@[l]),
        decreases cards@.len() - i,
    {
        if f.matches(&cards[i]) {
            let key = order_key_exec(&cards[i], o);
            let mut pos: usize = out.len();
            while pos > 0 && order_key_exec(&cards[out[pos - 1]], o) > key
                invariant
                    pos <= out@.len(),
                    i < cards@.len(),
                    key as int == order_key(cards@[i as int], o),
                    forall|k: int| 0 <= k < out@.len() ==> (#[trigger] out@[k]) < i,
                    forall|k: int| pos <= k < out@.len() ==> order_key(cards@[(#[trigger] out@[k]) as int], o) > key,
                decreases pos,
            {
                pos -= 1;
            }
            let ghost old_out = out@;
            out.insert(pos, i);
            proof {
                old_out.insert_ensures(pos as int, i);
                let s = out@;
                assert forall|k: int| 0 <= k < s.len() implies (#[trigger] s[k]) < i + 1 && eval(f@, cards@[s[k] as int]) by {
                    if k > pos {
                        assert(s[k] == old_out[k - 1]);
                    }
                }
                assert forall|j: int| 0 <= j < i + 1 && eval(f@, cards@[j]) implies #[trigger] s.contains(j as usize) by {
                    if j == i {
                        assert(s[pos as int] == j);
                    } else {
                        assert(old_out.contains(j as usize));
                        let k = choose|k: int| 0 <= k < old_out.len() && old_out[k] == j as usize;
                        if k < pos {
                            assert(s[k] == j as usize);
                        } else {
                            assert(s[k + 1] == j as usize);
                        }
                    }
                }
                assert forall|k: int, l: int| 0 <= k < l < s.len() implies before(cards@, o, #[trigger] s[k], #[trigger] s[l]) by {
                    if l < pos {
                    } else if l == pos {
                        if pos > 0 {
                            assert(order_key(cards@[old_out[pos - 1] as int], o) <= key);
                            if k < pos - 1 {
                                assert(before(cards@, o, old_out[k], old_out[pos - 1]));
                            }
                        }
                    } else if k < pos {
                        assert(s[l] == old_out[l - 1]);
                    } else if k == pos {
                        assert(s[l] == old_out[l - 1]);
                    } else {
                        assert(s[l] == old_out[l - 1]);
                        assert(s[k] == old_out[k - 1]);
                    }
                }
            }
        }
        i += 1;
    }
    out
}


proof fn lemma_at_least_index(r: Seq<usize>, k: int)
    requires
        0 <= k < r.len(),
        forall|a: int, b: int| 0 <= a < b < r.len() ==> (#[trigger] r[a]) < (#[trigger] r[b]),
    ensures
        r[k] >= k,
    decreases k,
{
    if k > 0 {
        lemma_at_least_index(r, k - 1);
        assert(r[k - 1] < r[k]);
    }
}

proof fn lemma_prefix_identity(r: Seq<usize>, m: int, k: int)
    requires
        0 <= k <= m <= usize::MAX,
        k <= r.len(),
        forall|i: int| 0 <= i < r.len() ==> #[trigger] r[i] >= i,
        forall|j: int| 0 <= j < m ==> #[trigger] r.contains(j as usize),
    ensures
        forall|i: int| 0 <= i < k ==> #[trigger] r[i] == i,
    decreases k,
{
    if k > 0 {
        lemma_prefix_identity(r, m, k - 1);
        let v = k - 1;
        assert(r.contains(v as usize));
        let p = choose|p: int| 0 <= p < r.len() && r[p] == v as usize;
        if p < v {
            assert(r[p] == p);
        }
        if p > v {
            assert(r[p] >= p);
        }
    }
}

/// A strictly increasing sequence of positions below `m` that holds each
/// of them is `0, 1, ..., m - 1`.
proof fn lemma_increasing_cover(r: Seq<usize>, m: int)
    requires
        0 <= m <= usize::MAX,
        forall|a: int, b: int| 0 <= a < b < r.len() ==> (#[trigger] r[a]) < (#[trigger] r[b]),
        forall|k: int| 0 <= k < r.len() ==> (#[trigger] r[k]) < m,
        forall|j: int| 0 <= j < m ==> #[trigger] r.contains(j as usize),
    ensures
        r.len() == m,
        forall|k: int| 0 <= k < r.len() ==> #[trigger] r[k] == k,
{
    assert forall|k: int| 0 <= k < r.len() implies r[k] >= k by {
        lemma_at_least_index(r, k);
    }
    let n = if r.len() < m { r.len() as int } else { m };
    lemma_prefix_identity(r, m, n);
    if r.len() > m {
        assert(r[m] >= m);
        assert(r[m] < m);
    }
    if r.len() < m {
        assert(r.contains((m - 1) as usize));
        let p = choose|p: int| 0 <= p < r.len() && r[p] == (m - 1) as usize;
        assert(p < n);
        assert(r[p] == p);
        assert(false);
    }
}

/// Ordering cards that an ordered selection already gave, by the same
/// filter and key, gives them back unchanged.
pub proof fn lemma_filter_sorted_idempotent<C, E>(
    cards: Seq<Card<C, E>>,
    f: FilterV,
    o: QueryOrder,
    r: Seq<usize>,
    r2: Seq<usize>,
)
    requires
        r.len() <= usize::MAX,
        sorted_selection(cards, f, o, r),
        sorted_selection(pick(cards, r), f, o, r2),
    ensures
        pick(pick(cards, r), r2) == pick(cards, r),
{
    let ys = pick(cards, r);
    let m = ys.len() as int;
    assert forall|a: int, b: int| 0 <= a < b < r2.len() implies (#[trigger] r2[a]) < (#[trigger] r2[b]) by {
        let (x, y) = (r2[a] as int, r2[b] as int);
        assert(before(ys, o, r2[a], r2[b]));
        if y < x {
            assert(before(cards, o, r[y], r[x]));
        } else if y == x {
        }
    }
    assert forall|j: int| 0 <= j < m implies #[trigger] r2.contains(j as usize) by {
        assert(ys[j] == cards[r[j] as int]);
        assert(eval(f, ys[j]));
    }
    lemma_increasing_cover(r2, m);
    assert(pick(ys, r2) =~= ys);
}

} // verus!
