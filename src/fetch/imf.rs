//! Ingestion of an IMF set.

use vstd::prelude::*;
use crate::card::{Attack, Card, CardSet, Costs, Mox, Rarity, SetCode, SpAtk, Temple, Traits, TraitsFlag};
use crate::text::{append_chars, char_vec, eq_text, string_of};

verus! {

/// One card as an IMF set file gives it.
#[derive(Clone, Debug, Default)]
pub struct ImfCard {
    pub name: String,
    pub description: String,
    pub attack: isize,
    pub health: isize,
    pub sigils: Vec<String>,
    pub atkspecial: String,
    pub blood_cost: isize,
    pub bone_cost: isize,
    pub energy_cost: isize,
    pub mox_cost: Vec<String>,
    pub pixport_url: String,
    pub conduit: bool,
    pub banned: bool,
    pub rare: bool,
    pub nosac: bool,
    pub nohammer: bool,
    pub evolution: String,
    pub left_half: String,
    pub right_half: String,
}

/// An IMF set file: its rule set name, its cards and its sigil descriptions.
#[derive(Clone, Debug, Default)]
pub struct ImfSet {
    pub ruleset: String,
    pub cards: Vec<ImfCard>,
    pub sigils: Vec<(String, String)>,
}

/// Why an IMF set was refused.
#[derive(Clone, Debug, PartialEq)]
pub enum SetError {
    /// A special attack outside the vocabulary.
    UnknownSpAtk(String),
    /// A mox colour outside the vocabulary.
    UnknownMox(String),
}

/// The name under which a card's unknown sigils are filed.
pub open spec fn undefined_sigil() -> Seq<char> {
    "UNDEFINEDED SIGILS"@
}

pub open spec fn undefined_sigil_text() -> Seq<char> {
    "THIS SIGIL IS NOT DEFINED BY THE SET"@
}

pub open spec fn imf_spatk(w: Seq<char>) -> Option<SpAtk> {
    if w == "mox"@ {
        Some(SpAtk::Mox)
    } else if w == "green_mox"@ {
        Some(SpAtk::GreenMox)
    } else if w == "mirror"@ {
        Some(SpAtk::Mirror)
    } else if w == "ant"@ {
        Some(SpAtk::Ant)
    } else if w == "Bell"@ {
        Some(SpAtk::Bell)
    } else if w == "Hand"@ {
        Some(SpAtk::Card)
    } else {
        None
    }
}

pub open spec fn imf_mox(w: Seq<char>) -> Option<u8> {
    if w == "Orange"@ {
        Some(Mox::O)
    } else if w == "Green"@ {
        Some(Mox::G)
    } else if w == "Blue"@ {
        Some(Mox::B)
    } else {
        None
    }
}

/// The mox flags of the first `n` colours.
pub open spec fn mox_bits(colours: Seq<String>, n: int) -> u8
    decreases n,
{
    if n <= 0 {
        0
    } else {
        mox_bits(colours, n - 1) | imf_mox(colours[n - 1]@).unwrap_or(0)
    }
}

/// The card's special attack is known, and so is each of its mox colours.
pub open spec fn imf_card_valid(c: ImfCard) -> bool {
    &&& (c.atkspecial@.len() == 0 || imf_spatk(c.atkspecial@) is Some)
    &&& forall|k: int| 0 <= k < c.mox_cost@.len() ==> imf_mox((#[trigger] c.mox_cost@[k])@) is Some
}

/// The description keys hold `k`.
pub open spec fn has_key(descs: Seq<(String, String)>, k: Seq<char>) -> bool {
    exists|i: int| 0 <= i < descs.len() && (#[trigger] descs[i]).0@ == k
}

pub open spec fn imf_temple(c: ImfCard) -> u8 {
    (if c.blood_cost != 0 { Temple::BEAST } else { 0u8 }) | (if c.bone_cost != 0 {
        Temple::UNDEAD
    } else {
        0u8
    }) | (if c.energy_cost != 0 { Temple::TECH } else { 0u8 }) | (if c.mox_cost@.len() != 0 {
        Temple::MAGICK
    } else {
        0u8
    })
}

pub open spec fn imf_trait_bits(c: ImfCard) -> u8 {
    (if c.conduit { TraitsFlag::CONDUCTIVE } else { 0u8 }) | (if c.banned {
        TraitsFlag::BAN
    } else {
        0u8
    }) | (if c.nosac { TraitsFlag::TERRAIN } else { 0u8 }) | (if c.nohammer {
        TraitsFlag::HARD
    } else {
        0u8
    })
}

/// The non-empty ones among evolution, left half and right half, in order.
pub open spec fn imf_related(c: ImfCard) -> Seq<Seq<char>> {
    let e = if c.evolution@.len() > 0 { seq![c.evolution@] } else { seq![] };
    let l = if c.left_half@.len() > 0 { seq![c.left_half@] } else { seq![] };
    let r = if c.right_half@.len() > 0 { seq![c.right_half@] } else { seq![] };
    e + l + r
}

/// The portrait a card without one gets: its name, spaces escaped, under
/// the game's portrait directory.
pub open spec fn default_portrait(name: Seq<char>) -> Seq<char> {
    "https://raw.githubusercontent.com/107zxz/inscr-onln/main/gfx/pixport/"@ + escape_spaces(name)
        + ".png"@
}

/// `name` with every space written `%20`.
pub open spec fn escape_spaces(name: Seq<char>) -> Seq<char>
    decreases name.len(),
{
    if name.len() == 0 {
        seq![]
    } else {
        escape_spaces(name.drop_last()) + if name.last() == ' ' {
            "%20"@
        } else {
            seq![name.last()]
        }
    }
}

/// `card` is what an IMF card `c` becomes, with `descs` the set's sigil
/// descriptions.
pub open spec fn imf_card_is(c: ImfCard, card: Card<(), ()>, descs: Seq<(String, String)>, code: SetCode) -> bool {
    &&& card.set == code
    &&& card.name@ == c.name@
    &&& card.description@ == c.description@
    &&& card.portrait@ == if c.pixport_url@.len() == 0 {
        default_portrait(c.name@)
    } else {
        c.pixport_url@
    }
    &&& card.rarity == if c.rare { Rarity::Rare } else { Rarity::Common }
    &&& card.temple.bits == imf_temple(c)
    &&& card.tribes is None
    &&& card.attack == if c.atkspecial@.len() == 0 {
        Attack::Num(c.attack)
    } else {
        Attack::SpAtk(imf_spatk(c.atkspecial@)->Some_0)
    }
    &&& card.health == c.health
    &&& card.sigils@.len() == c.sigils@.len()
    &&& forall|k: int|
        0 <= k < c.sigils@.len() ==> (#[trigger] card.sigils@[k])@ == if has_key(descs, c.sigils@[k]@) {
            c.sigils@[k]@
        } else {
            undefined_sigil()
        }
    &&& card.costs is Some == (c.blood_cost > 0 || c.bone_cost > 0 || c.energy_cost > 0
        || c.mox_cost@.len() > 0)
    &&& card.costs matches Some(k) ==> k.blood == c.blood_cost && k.bone == c.bone_cost && k.energy
        == c.energy_cost && k.mox.bits == mox_bits(c.mox_cost@, c.mox_cost@.len() as int)
        && k.mox_count is None
    &&& card.traits is Some == (c.conduit || c.banned || c.nosac || c.nohammer)
    &&& card.traits matches Some(t) ==> t.strings is None && t.flags.bits == imf_trait_bits(c)
    &&& card.related@.map_values(|s: String| s@) == imf_related(c)
}


/// The keys of `descs` are pairwise distinct.
pub open spec fn keys_unique(descs: Seq<(String, String)>) -> bool {
    forall|i: int, j: int|
        0 <= i < j < descs.len() ==> (#[trigger] descs[i]).0@ != (#[trigger] descs[j]).0@
}

/// Whether `descs` has the key `k`.
pub fn find_key(descs: &Vec<(String, String)>, k: &String) -> (r: bool)
    ensures
        r == has_key(descs@, k@),
{
    let mut i: usize = 0;
    while i < descs.len()
        invariant
            i <= descs@.len(),
            forall|j: int| 0 <= j < i ==> (#[trigger] descs@[j]).0@ != k@,
        decreases descs@.len() - i,
    {
        if descs[i].0 == *k {
            return true;
        }
        i += 1;
    }
    false
}

/// Files the description `v` under `k`, in place of any earlier one.
pub fn insert_description(descs: &mut Vec<(String, String)>, k: String, v: String)
    requires
        keys_unique(old(descs)@),
    ensures
        keys_unique(final(descs)@),
        has_key(final(descs)@, k@),
        forall|i: int| 0 <= i < final(descs)@.len() && (#[trigger] final(descs)@[i]).0@ == k@
            ==> final(descs)@[i].1@ == v@,
        forall|i: int| 0 <= i < final(descs)@.len() && (#[trigger] final(descs)@[i]).0@ != k@
            ==> exists|j: int| 0 <= j < old(descs)@.len() && old(descs)@[j] == final(descs)@[i],
        forall|q: Seq<char>| has_key(old(descs)@, q) ==> #[trigger] has_key(final(descs)@, q),
        forall|q: Seq<char>| #[trigger] has_key(final(descs)@, q) ==> has_key(old(descs)@, q) || q == k@,
{
    let mut i: usize = 0;
    while i < descs.len()
        invariant
            descs@ == old(descs)@,
            keys_unique(old(descs)@),
            i <= descs@.len(),
            forall|j: int| 0 <= j < i ==> (#[trigger] descs@[j]).0@ != k@,
        decreases descs@.len() - i,
    {
        if descs[i].0 == k {
            let ghost before = descs@;
            descs.set(i, (k, v));
            assert(descs@[i as int].0@ == before[i as int].0@);
            assert forall|q: Seq<char>| has_key(before, q) implies #[trigger] has_key(descs@, q) by {
                let j = choose|j: int| 0 <= j < before.len() && (#[trigger] before[j]).0@ == q;
                assert(descs@[j].0@ == q);
            }
            assert forall|q: Seq<char>| #[trigger] has_key(descs@, q) implies has_key(before, q) || q == k@ by {
                let j = choose|j: int| 0 <= j < descs@.len() && (#[trigger] descs@[j]).0@ == q;
                assert(before[j].0@ == q);
            }
            assert forall|a: int, b: int| 0 <= a < b < descs@.len() implies (#[trigger] descs@[a]).0@
                != (#[trigger] descs@[b]).0@ by {
                assert(descs@[a].0@ == before[a].0@);
                assert(descs@[b].0@ == before[b].0@);
                assert(keys_unique(before));
                assert(before[a].0@ != before[b].0@);
            }
            assert forall|a: int| 0 <= a < descs@.len() && (#[trigger] descs@[a]).0@ != k@
                implies exists|j: int| 0 <= j < before.len() && before[j] == descs@[a] by {
                assert(before[a] == descs@[a]);
            }
            return;
        }
        i += 1;
    }
    let ghost before = descs@;
    descs.push((k, v));
    assert(descs@[before.len() as int].0@ == k@);
    assert forall|q: Seq<char>| has_key(before, q) implies #[trigger] has_key(descs@, q) by {
        let j = choose|j: int| 0 <= j < before.len() && (#[trigger] before[j]).0@ == q;
        assert(descs@[j] == before[j]);
    }
    assert forall|q: Seq<char>| #[trigger] has_key(descs@, q) implies has_key(before, q) || q == k@ by {
        let j = choose|j: int| 0 <= j < descs@.len() && (#[trigger] descs@[j]).0@ == q;
        if j < before.len() {
            assert(before[j] == descs@[j]);
        }
    }
    assert forall|a: int| 0 <= a < descs@.len() && (#[trigger] descs@[a]).0@ != k@ implies exists|j: int|
        0 <= j < before.len() && before[j] == descs@[a] by {
        assert(before[a] == descs@[a]);
    }
}

fn escape_spaces_exec(name: &String) -> (r: Vec<char>)
    ensures
        r@ == escape_spaces(name@),
{
    let v = char_vec(name.as_str());
    let pct = char_vec("%20");
    let mut out: Vec<char> = Vec::new();
    let mut i: usize = 0;
    while i < v.len()
        invariant
            v@ == name@,
            pct@ == "%20"@,
            i <= v@.len(),
            out@ == escape_spaces(v@.subrange(0, i as int)),
        decreases v@.len() - i,
    {
        let ghost pre = v@.subrange(0, i as int);
        assert(v@.subrange(0, i + 1).drop_last() =~= pre);
        if v[i] == ' ' {
            let mut k: usize = 0;
            while k < pct.len()
                invariant
                    k <= pct@.len(),
                    out@ == escape_spaces(pre) + pct@.subrange(0, k as int),
                decreases pct@.len() - k,
            {
                out.push(pct[k]);
                k += 1;
                assert(out@ =~= escape_spaces(pre) + pct@.subrange(0, k as int));
            }
            assert(pct@.subrange(0, pct@.len() as int) =~= pct@);
        } else {
            out.push(v[i]);
            assert(out@ =~= escape_spaces(pre) + seq![v@[i as int]]);
        }
        i += 1;
    }
    assert(v@.subrange(0, v@.len() as int) =~= v@);
    out
}

fn default_portrait_exec(name: &String) -> (r: String)
    ensures
        r@ == default_portrait(name@),
{
    let mut out: Vec<char> = Vec::new();
    append_chars(&mut out, "https://raw.githubusercontent.com/107zxz/inscr-onln/main/gfx/pixport/");
    let esc = escape_spaces_exec(name);
    let ghost before = out@;
    let mut k: usize = 0;
    while k < esc.len()
        invariant
            k <= esc@.len(),
            out@ == before + esc@.subrange(0, k as int),
        decreases esc@.len() - k,
    {
        out.push(esc[k]);
        k += 1;
        assert(out@ =~= before + esc@.subrange(0, k as int));
    }
    assert(esc@.subrange(0, esc@.len() as int) =~= esc@);
    append_chars(&mut out, ".png");
    string_of(&out)
}

fn imf_spatk_exec(w: &String) -> (r: Option<SpAtk>)
    ensures
        r == imf_spatk(w@),
{
    let w = char_vec(w.as_str());
    if eq_text(&w, "mox") {
        Some(SpAtk::Mox)
    } else if eq_text(&w, "green_mox") {
        Some(SpAtk::GreenMox)
    } else if eq_text(&w, "mirror") {
        Some(SpAtk::Mirror)
    } else if eq_text(&w, "ant") {
        Some(SpAtk::Ant)
    } else if eq_text(&w, "Bell") {
        Some(SpAtk::Bell)
    } else if eq_text(&w, "Hand") {
        Some(SpAtk::Card)
    } else {
        None
    }
}

fn imf_mox_exec(w: &String) -> (r: Option<u8>)
    ensures
        r == imf_mox(w@),
{
    let w = char_vec(w.as_str());
    if eq_text(&w, "Orange") {
        Some(Mox::O)
    } else if eq_text(&w, "Green") {
        Some(Mox::G)
    } else if eq_text(&w, "Blue") {
        Some(Mox::B)
    } else {
        None
    }
}


/// `e` reports what is wrong with the card `c`: its special attack if that
/// is unknown, else its first unknown mox colour.
pub open spec fn imf_error_is(c: ImfCard, e: SetError) -> bool {
    if c.atkspecial@.len() != 0 && imf_spatk(c.atkspecial@) is None {
        e matches SetError::UnknownSpAtk(s) && s@ == c.atkspecial@
    } else {
        e matches SetError::UnknownMox(s) && exists|k: int|
            0 <= k < c.mox_cost@.len() && (#[trigger] c.mox_cost@[k])@ == s@ && imf_mox(s@) is None
                && forall|j: int| 0 <= j < k ==> imf_mox((#[trigger] c.mox_cost@[j])@) is Some
    }
}

fn imf_card(c: &ImfCard, descs: &Vec<(String, String)>, code: SetCode) -> (r: Result<Card<(), ()>, SetError>)
    requires
        has_key(descs@, undefined_sigil()),
    ensures
        r is Ok <==> imf_card_valid(*c),
        r matches Ok(card) ==> imf_card_is(*c, card, descs@, code) && forall|k: int|
            0 <= k < card.sigils@.len() ==> has_key(descs@, (#[trigger] card.sigils@[k])@),
        r matches Err(e) ==> imf_error_is(*c, e),
{
    let attack = if c.atkspecial.as_str().is_empty() {
        Attack::Num(c.attack)
    } else {
        match imf_spatk_exec(&c.atkspecial) {
            Some(a) => Attack::SpAtk(a),
            None => {
                return Err(SetError::UnknownSpAtk(c.atkspecial.clone()));
            },
        }
    };
    assert(c.atkspecial@.len() == 0 || imf_spatk(c.atkspecial@) is Some);
    let mut bits: u8 = 0;
    let mut k: usize = 0;
    while k < c.mox_cost.len()
        invariant
            c.atkspecial@.len() == 0 || imf_spatk(c.atkspecial@) is Some,
            k <= c.mox_cost@.len(),
            bits == mox_bits(c.mox_cost@, k as int),
            forall|j: int| 0 <= j < k ==> imf_mox((#[trigger] c.mox_cost@[j])@) is Some,
        decreases c.mox_cost@.len() - k,
    {
        match imf_mox_exec(&c.mox_cost[k]) {
            Some(b) => {
                bits = bits | b;
            },
            None => {
                let bad = c.mox_cost[k].clone();
                assert(c.mox_cost@[k as int]@ == bad@ && imf_mox(bad@) is None);
                return Err(SetError::UnknownMox(bad));
            },
        }
        k += 1;
    }
    let costs = if c.blood_cost > 0 || c.bone_cost > 0 || c.energy_cost > 0 || c.mox_cost.len() > 0 {
        Some(
            Costs {
                blood: c.blood_cost,
                bone: c.bone_cost,
                energy: c.energy_cost,
                mox: Mox { bits },
                mox_count: None,
                extra: (),
            },
        )
    } else {
        None
    };
    let temple_bits: u8 = (if c.blood_cost != 0 { Temple::BEAST } else { 0u8 }) | (if c.bone_cost
        != 0 {
        Temple::UNDEAD
    } else {
        0u8
    }) | (if c.energy_cost != 0 { Temple::TECH } else { 0u8 }) | (if c.mox_cost.len() != 0 {
        Temple::MAGICK
    } else {
        0u8
    });
    let traits = if c.conduit || c.banned || c.nosac || c.nohammer {
        let flag_bits: u8 = (if c.conduit { TraitsFlag::CONDUCTIVE } else { 0u8 }) | (if c.banned {
            TraitsFlag::BAN
        } else {
            0u8
        }) | (if c.nosac { TraitsFlag::TERRAIN } else { 0u8 }) | (if c.nohammer {
            TraitsFlag::HARD
        } else {
            0u8
        });
        Some(Traits { strings: None, flags: TraitsFlag { bits: flag_bits } })
    } else {
        None
    };
    let mut sigils: Vec<String> = Vec::new();
    let mut i: usize = 0;
    while i < c.sigils.len()
        invariant
            i <= c.sigils@.len(),
            sigils@.len() == i,
            has_key(descs@, undefined_sigil()),
            forall|j: int|
                0 <= j < i ==> (#[trigger] sigils@[j])@ == if has_key(descs@, c.sigils@[j]@) {
                    c.sigils@[j]@
                } else {
                    undefined_sigil()
                },
            forall|j: int| 0 <= j < i ==> has_key(descs@, (#[trigger] sigils@[j])@),
        decreases c.sigils@.len() - i,
    {
        if find_key(descs, &c.sigils[i]) {
            sigils.push(c.sigils[i].clone());
        } else {
            sigils.push("UNDEFINEDED SIGILS".to_owned());
        }
        i += 1;
    }
    let mut related: Vec<String> = Vec::new();
    if !c.evolution.as_str().is_empty() {
        related.push(c.evolution.clone());
    }
    if !c.left_half.as_str().is_empty() {
        related.push(c.left_half.clone());
    }
    if !c.right_half.as_str().is_empty() {
        related.push(c.right_half.clone());
    }
    assert(related@.map_values(|s: String| s@) =~= imf_related(*c));
    let portrait = if c.pixport_url.as_str().is_empty() {
        default_portrait_exec(&c.name)
    } else {
        c.pixport_url.clone()
    };
    Ok(
        Card {
            portrait,
            set: code,
            name: c.name.clone(),
            description: c.description.clone(),
            rarity: if c.rare { Rarity::Rare } else { Rarity::Common },
            temple: Temple { bits: temple_bits },
            tribes: None,
            attack,
            health: c.health,
            sigils,
            costs,
            traits,
            related,
            extra: (),
        },
    )
}

/// The views of name and text pairs.
pub open spec fn pair_views(p: Seq<(String, String)>) -> Seq<(Seq<char>, Seq<char>)> {
    p.map_values(|x: (String, String)| (x.0@, x.1@))
}

/// Among the first `n` of `pairs`, the last one named `key` holds `val`.
pub open spec fn last_with(pairs: Seq<(Seq<char>, Seq<char>)>, n: int, key: Seq<char>, val: Seq<char>) -> bool {
    exists|j: int|
        0 <= j < n && pairs[j] == (key, val) && forall|j2: int| j < j2 < n ==> (#[trigger] pairs[j2]).0 != key
}

/// Each entry of `descs` is the undefined-sigil entry with its text, or a
/// name of `pairs` with the text of the last pair of that name.
pub open spec fn descs_from(descs: Seq<(String, String)>, pairs: Seq<(Seq<char>, Seq<char>)>) -> bool {
    forall|i: int|
        0 <= i < descs.len() ==> if (#[trigger] descs[i]).0@ == undefined_sigil() {
            descs[i].1@ == undefined_sigil_text()
        } else {
            last_with(pairs, pairs.len() as int, descs[i].0@, descs[i].1@)
        }
}

/// The sigil descriptions of a set: every name of `pairs` with the text of
/// its last pair, then the undefined-sigil entry.
pub fn describe_all(pairs: &Vec<(String, String)>) -> (r: Vec<(String, String)>)
    ensures
        keys_unique(r@),
        descs_from(r@, pair_views(pairs@)),
        has_key(r@, undefined_sigil()),
        forall|j: int| 0 <= j < pairs@.len() ==> has_key(r@, (#[trigger] pairs@[j]).0@),
{
    let ghost pv = pair_views(pairs@);
    let mut descs: Vec<(String, String)> = Vec::new();
    let mut i: usize = 0;
    while i < pairs.len()
        invariant
            i <= pairs@.len(),
            pv == pair_views(pairs@),
            keys_unique(descs@),
            forall|j: int| 0 <= j < i ==> has_key(descs@, (#[trigger] pairs@[j]).0@),
            forall|e: int| 0 <= e < descs@.len() ==> last_with(pv, i as int, (#[trigger] descs@[e]).0@, descs@[e].1@),
        decreases pairs@.len() - i,
    {
        let (k, v) = (pairs[i].0.clone(), pairs[i].1.clone());
        let ghost before = descs@;
        insert_description(&mut descs, k, v);
        proof {
            assert(pv[i as int] == (k@, v@));
            assert forall|e: int| 0 <= e < descs@.len() implies last_with(pv, i + 1, (#[trigger] descs@[e]).0@, descs@[e].1@) by {
                if descs@[e].0@ == k@ {
                    assert(pv[i as int] == (descs@[e].0@, descs@[e].1@));
                } else {
                    let j0 = choose|j0: int| 0 <= j0 < before.len() && before[j0] == descs@[e];
                    assert(last_with(pv, i as int, before[j0].0@, before[j0].1@));
                    let j = choose|j: int|
                        0 <= j < i && pv[j] == (before[j0].0@, before[j0].1@) && forall|j2: int| j < j2 < i ==> (#[trigger] pv[j2]).0 != before[j0].0@;
                    assert(forall|j2: int| j < j2 < i + 1 ==> (#[trigger] pv[j2]).0 != descs@[e].0@);
                }
            }
        }
        i += 1;
    }
    let ghost before = descs@;
    insert_description(
        &mut descs,
        "UNDEFINEDED SIGILS".to_owned(),
        "THIS SIGIL IS NOT DEFINED BY THE SET".to_owned(),
    );
    proof {
        assert forall|e: int| 0 <= e < descs@.len() implies (if (#[trigger] descs@[e]).0@ == undefined_sigil() {
            descs@[e].1@ == undefined_sigil_text()
        } else {
            last_with(pv, pv.len() as int, descs@[e].0@, descs@[e].1@)
        }) by {
            if descs@[e].0@ != undefined_sigil() {
                let j0 = choose|j0: int| 0 <= j0 < before.len() && before[j0] == descs@[e];
                assert(last_with(pv, i as int, before[j0].0@, before[j0].1@));
            }
        }
    }
    descs
}

/// Builds the `CardSet` of an IMF set file. Every unknown sigil of a card is
/// filed under `UNDEFINEDED SIGILS`, which the descriptions always hold.
/// Fails on the first card with an unknown special attack or mox colour.
pub fn fetch_imf_set(raw: &ImfSet, code: SetCode) -> (r: Result<CardSet<(), ()>, SetError>)
    ensures
        r is Ok <==> forall|i: int| 0 <= i < raw.cards@.len() ==> imf_card_valid(#[trigger] raw.cards@[i]),
        r matches Err(e) ==> exists|i: int|
            0 <= i < raw.cards@.len() && !imf_card_valid(#[trigger] raw.cards@[i]) && imf_error_is(raw.cards@[i], e)
                && forall|j: int| 0 <= j < i ==> imf_card_valid(#[trigger] raw.cards@[j]),
        r matches Ok(set) ==> {
            &&& set.wf()
            &&& set.code == code
            &&& set.name@ == raw.ruleset@
            &&& set.cards@.len() == raw.cards@.len()
            &&& forall|i: int| 0 <= i < raw.cards@.len() ==> imf_card_is(
                #[trigger] raw.cards@[i], set.cards@[i], set.sigils_description@, code)
            &&& has_key(set.sigils_description@, undefined_sigil())
            &&& descs_from(set.sigils_description@, pair_views(raw.sigils@))
            &&& forall|i: int| 0 <= i < raw.sigils@.len() ==> has_key(set.sigils_description@, (#[trigger] raw.sigils@[i]).0@)
        },
{
    let descs = describe_all(&raw.sigils);
    let mut cards: Vec<Card<(), ()>> = Vec::new();
    let mut n: usize = 0;
    while n < raw.cards.len()
        invariant
            n <= raw.cards@.len(),
            cards@.len() == n,
            keys_unique(descs@),
            has_key(descs@, undefined_sigil()),
            forall|j: int| 0 <= j < n ==> imf_card_valid(#[trigger] raw.cards@[j]),
            forall|j: int| 0 <= j < n ==> imf_card_is(#[trigger] raw.cards@[j], cards@[j], descs@, code),
            forall|j: int, s: int|
                0 <= j < n && 0 <= s < cards@[j].sigils@.len() ==> has_key(
                    descs@,
                    (#[trigger] cards@[j].sigils@[s])@,
                ),
        decreases raw.cards@.len() - n,
    {
        match imf_card(&raw.cards[n], &descs, code) {
            Ok(card) => {
                cards.push(card);
            },
            Err(e) => {
                return Err(e);
            },
        }
        n += 1;
    }
    let set = CardSet { code, name: raw.ruleset.clone(), cards, sigils_description: descs };
    proof {
        assert forall|c: int, s: int|
            0 <= c < set.cards@.len() && 0 <= s < set.cards@[c].sigils@.len() implies exists|k: int|
                0 <= k < set.sigils_description@.len() && (#[trigger] set.sigils_description@[k]).0@
                    == (#[trigger] set.cards@[c].sigils@[s])@ by {
            assert(has_key(descs@, cards@[c].sigils@[s]@));
            let k = choose|k: int| 0 <= k < descs@.len() && (#[trigger] descs@[k]).0@ == cards@[c].sigils@[s]@;
            assert(set.sigils_description@[k].0@ == set.cards@[c].sigils@[s]@);
        }
        assert(keys_unique(set.sigils_description@));
        assert(forall|i: int, j: int|
            0 <= i < j < set.sigils_description@.len() ==> (#[trigger] set.sigils_description@[i]).0@
                != (#[trigger] set.sigils_description@[j]).0@);
        assert forall|c: int| 0 <= c < set.cards@.len() implies match (#[trigger] set.cards@[c]).costs {
            Some(k) => match k.mox_count {
                Some(m) => !m.is_zero(),
                None => true,
            },
            None => true,
        } by {
            assert(imf_card_is(raw.cards@[c], set.cards@[c], descs@, code));
        }
        assert(set.wf());
        assert(has_key(set.sigils_description@, undefined_sigil()));
        assert(forall|i: int| 0 <= i < raw.sigils@.len() ==> has_key(set.sigils_description@, (#[trigger] raw.sigils@[i]).0@));
        assert(forall|q: Seq<char>| #[trigger] has_key(set.sigils_description@, q) ==> q == undefined_sigil()
                || has_key(raw.sigils@, q));
    }
    Ok(set)
}

} // verus!
