//! Ingestion of the Custom TCG Inscryption sheet.

use vstd::prelude::*;
use crate::card::{Attack, Card, CardSet, Costs, Mox, MoxCount, Rarity, SetCode, Temple};
use crate::fetch::imf::{describe_all, descs_from, has_key, keys_unique, pair_views, undefined_sigil};
use crate::lexer::{int_of, parse_isize};
use crate::text::{append_chars, char_vec, eq_text, lower_of, lowercase, seqs_view, split_from, split_text, string_of, words, words_from};

verus! {

/// Custom TCG Inscryption's card extension.
#[derive(Clone, Copy, Debug, Default, PartialEq, Eq, Structural)]
pub struct CtiExt {
    /// Shattered mox cost count.
    pub shattered_count: Option<MoxCount>,
    /// Max energy cell cost.
    pub max: isize,
    /// Skull cost.
    pub skull: isize,
}

/// One row of the card sheet.
#[derive(Clone, Debug, Default)]
pub struct CtiCard {
    pub name: String,
    pub temple: String,
    pub rarity: String,
    pub cost: String,
    pub attack: String,
    pub health: String,
    pub description: String,
    pub token: String,
    pub sigil1: String,
    pub sigil2: String,
    pub sigil3: String,
    pub sigil4: String,
    pub portrait: String,
}

/// One row of the sigil sheet.
#[derive(Clone, Debug, Default)]
pub struct CtiSigil {
    pub name: String,
    pub text: String,
}

/// Why the sheet was refused.
#[derive(Clone, Debug, PartialEq)]
pub enum CtiError {
    /// Invalid rarity.
    UnknownRarity(String),
    /// Invalid temple.
    UnknownTemple(String),
    /// A cost that is not `+`-separated parts of a count and a resource.
    InvalidCostFormat(String),
    /// A resource outside the vocabulary.
    UnknowCost(String),
    /// A mox colour outside the vocabulary.
    UnknowMox(String),
}

impl CtiError {
    /// A sentence that says what is wrong.
    pub fn message(&self) -> (r: String)
        ensures
            r@ == cti_error_message(self@),
    {
        let mut out: Vec<char> = Vec::new();
        let s = match self {
            CtiError::UnknownRarity(s) => {
                append_chars(&mut out, "unknown rarity: ");
                s
            },
            CtiError::UnknownTemple(s) => {
                append_chars(&mut out, "unknown temple: ");
                s
            },
            CtiError::InvalidCostFormat(s) => {
                append_chars(&mut out, "invalid cost: ");
                s
            },
            CtiError::UnknowCost(s) => {
                append_chars(&mut out, "unknow cost: ");
                s
            },
            CtiError::UnknowMox(s) => {
                append_chars(&mut out, "unknow mox: ");
                s
            },
        };
        append_chars(&mut out, s.as_str());
        string_of(&out)
    }
}

/// The message of an error: what kind it is, then the offending text.
pub open spec fn cti_error_message(e: CtiErrorV) -> Seq<char> {
    match e {
        CtiErrorV::UnknownRarity(s) => "unknown rarity: "@ + s,
        CtiErrorV::UnknownTemple(s) => "unknown temple: "@ + s,
        CtiErrorV::InvalidCostFormat(s) => "invalid cost: "@ + s,
        CtiErrorV::UnknowCost(s) => "unknow cost: "@ + s,
        CtiErrorV::UnknowMox(s) => "unknow mox: "@ + s,
    }
}

/// The mathematical form of a `CtiError`.
pub ghost enum CtiErrorV {
    UnknownRarity(Seq<char>),
    UnknownTemple(Seq<char>),
    InvalidCostFormat(Seq<char>),
    UnknowCost(Seq<char>),
    UnknowMox(Seq<char>),
}

impl View for CtiError {
    type V = CtiErrorV;

    open spec fn view(&self) -> CtiErrorV {
        match self {
            CtiError::UnknownRarity(s) => CtiErrorV::UnknownRarity(s@),
            CtiError::UnknownTemple(s) => CtiErrorV::UnknownTemple(s@),
            CtiError::InvalidCostFormat(s) => CtiErrorV::InvalidCostFormat(s@),
            CtiError::UnknowCost(s) => CtiErrorV::UnknowCost(s@),
            CtiError::UnknowMox(s) => CtiErrorV::UnknowMox(s@),
        }
    }
}

/// The amounts a cost text adds up to.
#[derive(Clone, Copy, Debug, PartialEq, Eq, Structural)]
pub struct CostTally {
    pub blood: isize,
    pub bone: isize,
    pub energy: isize,
    pub max: isize,
    pub skull: isize,
    pub mox: u8,
    pub mox_count: MoxCount,
    pub shattered: MoxCount,
}

pub open spec fn zero_count() -> MoxCount {
    MoxCount { r: 0, g: 0, b: 0, y: 0, k: 0, p: 0, o: 0, t: 0 }
}

pub open spec fn zero_tally() -> CostTally {
    CostTally {
        blood: 0,
        bone: 0,
        energy: 0,
        max: 0,
        skull: 0,
        mox: 0,
        mox_count: zero_count(),
        shattered: zero_count(),
    }
}

/// A plural resource word in its singular form; other words unchanged.
pub open spec fn singular(w: Seq<char>) -> Seq<char> {
    if w == "bones"@ {
        "bone"@
    } else if w == "rubies"@ {
        "ruby"@
    } else if w == "emeralds"@ {
        "emerald"@
    } else if w == "sapphires"@ {
        "sapphire"@
    } else if w == "prisms"@ {
        "prism"@
    } else if w == "skulls"@ {
        "skull"@
    } else if w == "amethysts"@ {
        "amethyst"@
    } else if w == "topazes"@ {
        "topaz"@
    } else if w == "garnets"@ {
        "garnet"@
    } else {
        w
    }
}

/// `m` with `n` more moxes of the colour `w`, if that is a colour and the
/// count stays within `0..=usize::MAX`.
pub open spec fn add_mox(m: MoxCount, w: Seq<char>, n: isize) -> Option<MoxCount> {
    if w == "ruby"@ {
        match m.r.checked_add_signed(n) { Some(v) => Some(MoxCount { r: v, ..m }), None => None }
    } else if w == "emerald"@ {
        match m.g.checked_add_signed(n) { Some(v) => Some(MoxCount { g: v, ..m }), None => None }
    } else if w == "sapphire"@ {
        match m.b.checked_add_signed(n) { Some(v) => Some(MoxCount { b: v, ..m }), None => None }
    } else if w == "prism"@ {
        match m.y.checked_add_signed(n) { Some(v) => Some(MoxCount { y: v, ..m }), None => None }
    } else if w == "topaz"@ {
        match m.t.checked_add_signed(n) { Some(v) => Some(MoxCount { t: v, ..m }), None => None }
    } else if w == "amethyst"@ {
        match m.p.checked_add_signed(n) { Some(v) => Some(MoxCount { p: v, ..m }), None => None }
    } else {
        match m.o.checked_add_signed(n) { Some(v) => Some(MoxCount { o: v, ..m }), None => None }
    }
}

/// The mox flag of a colour word.
pub open spec fn mox_flag(w: Seq<char>) -> Option<u8> {
    if w == "ruby"@ {
        Some(Mox::R)
    } else if w == "emerald"@ {
        Some(Mox::G)
    } else if w == "sapphire"@ {
        Some(Mox::B)
    } else if w == "prism"@ {
        Some(Mox::Y)
    } else if w == "topaz"@ {
        Some(Mox::T)
    } else if w == "amethyst"@ {
        Some(Mox::P)
    } else if w == "garnet"@ {
        Some(Mox::O)
    } else {
        None
    }
}

pub open spec fn sum_or(x: isize, n: isize, cost: Seq<char>) -> Result<isize, CtiErrorV> {
    match x.checked_add(n) {
        Some(v) => Ok(v),
        None => Err(CtiErrorV::InvalidCostFormat(cost)),
    }
}

/// One `+`-separated part of the cost text `cost`, added to `acc`: its
/// lower-cased form goes to `apply_folded`.
pub open spec fn apply_part(acc: CostTally, part: Seq<char>, cost: Seq<char>) -> Result<CostTally, CtiErrorV> {
    apply_folded(acc, lower_of(part), cost)
}

/// One lower-case part of the cost text `cost`, added to `acc`. Its words
/// are a count, a resource (plurals accepted) and, after `shattered`, a
/// colour; further words are ignored.
#[verifier::opaque]
pub open spec fn apply_folded(acc: CostTally, part: Seq<char>, cost: Seq<char>) -> Result<CostTally, CtiErrorV> {
    let ws = words_from(part, 0);
    let bad = CtiErrorV::InvalidCostFormat(cost);
    if ws.len() < 2 {
        Err(bad)
    } else {
        match int_of(ws[0]) {
            None => Err(bad),
            Some(v) => {
                let n = v as isize;
                let kind = singular(ws[1]);
                if kind == "blood"@ {
                    match sum_or(acc.blood, n, cost) { Ok(x) => Ok(CostTally { blood: x, ..acc }), Err(e) => Err(e) }
                } else if kind == "bone"@ {
                    match sum_or(acc.bone, n, cost) { Ok(x) => Ok(CostTally { bone: x, ..acc }), Err(e) => Err(e) }
                } else if kind == "energy"@ {
                    match sum_or(acc.energy, n, cost) { Ok(x) => Ok(CostTally { energy: x, ..acc }), Err(e) => Err(e) }
                } else if kind == "max"@ {
                    match sum_or(acc.max, n, cost) { Ok(x) => Ok(CostTally { max: x, ..acc }), Err(e) => Err(e) }
                } else if kind == "skull"@ {
                    match sum_or(acc.skull, n, cost) { Ok(x) => Ok(CostTally { skull: x, ..acc }), Err(e) => Err(e) }
                } else if kind == "shattered"@ {
                    if ws.len() < 3 {
                        Err(bad)
                    } else {
                        let colour = singular(ws[2]);
                        match mox_flag(colour) {
                            None => Err(CtiErrorV::UnknowMox(colour)),
                            Some(f) => match add_mox(acc.shattered, colour, n) {
                                Some(m) => Ok(CostTally { mox: acc.mox | f, shattered: m, ..acc }),
                                None => Err(bad),
                            },
                        }
                    }
                } else if kind == "asterisk"@ {
                    Ok(acc)
                } else {
                    match mox_flag(kind) {
                        None => Err(CtiErrorV::UnknowCost(kind)),
                        Some(f) => match add_mox(acc.mox_count, kind, n) {
                            Some(m) => Ok(CostTally { mox: acc.mox | f, mox_count: m, ..acc }),
                            None => Err(bad),
                        },
                    }
                }
            },
        }
    }
}

/// The first `k` parts applied in turn to the empty tally.
pub open spec fn apply_parts(parts: Seq<Seq<char>>, cost: Seq<char>, k: int) -> Result<CostTally, CtiErrorV>
    decreases k,
{
    if k <= 0 {
        Ok(zero_tally())
    } else {
        match apply_parts(parts, cost, k - 1) {
            Ok(acc) => apply_part(acc, parts[k - 1], cost),
            Err(e) => Err(e),
        }
    }
}

/// The tally of a cost text; `None` for `free` or an empty text.
pub open spec fn cost_tally(cost: Seq<char>) -> Result<Option<CostTally>, CtiErrorV> {
    if cost == "free"@ || cost.len() == 0 {
        Ok(None)
    } else {
        let parts = split_from(cost, "+"@, 0, 0);
        match apply_parts(parts, cost, parts.len() as int) {
            Ok(t) => Ok(Some(t)),
            Err(e) => Err(e),
        }
    }
}


fn copy_chars(w: &Vec<char>) -> (r: Vec<char>)
    ensures
        r@ == w@,
{
    let mut r: Vec<char> = Vec::new();
    let mut i: usize = 0;
    while i < w.len()
        invariant
            i <= w@.len(),
            r@ == w@.subrange(0, i as int),
        decreases w@.len() - i,
    {
        r.push(w[i]);
        i += 1;
        assert(r@ =~= w@.subrange(0, i as int));
    }
    assert(w@.subrange(0, w@.len() as int) =~= w@);
    r
}

fn singular_exec(w: &Vec<char>) -> (r: Vec<char>)
    ensures
        r@ == singular(w@),
{
    if eq_text(w, "bones") {
        char_vec("bone")
    } else if eq_text(w, "rubies") {
        char_vec("ruby")
    } else if eq_text(w, "emeralds") {
        char_vec("emerald")
    } else if eq_text(w, "sapphires") {
        char_vec("sapphire")
    } else if eq_text(w, "prisms") {
        char_vec("prism")
    } else if eq_text(w, "skulls") {
        char_vec("skull")
    } else if eq_text(w, "amethysts") {
        char_vec("amethyst")
    } else if eq_text(w, "topazes") {
        char_vec("topaz")
    } else if eq_text(w, "garnets") {
        char_vec("garnet")
    } else {
        copy_chars(w)
    }
}

fn mox_flag_exec(w: &Vec<char>) -> (r: Option<u8>)
    ensures
        r == mox_flag(w@),
{
    if eq_text(w, "ruby") {
        Some(Mox::R)
    } else if eq_text(w, "emerald") {
        Some(Mox::G)
    } else if eq_text(w, "sapphire") {
        Some(Mox::B)
    } else if eq_text(w, "prism") {
        Some(Mox::Y)
    } else if eq_text(w, "topaz") {
        Some(Mox::T)
    } else if eq_text(w, "amethyst") {
        Some(Mox::P)
    } else if eq_text(w, "garnet") {
        Some(Mox::O)
    } else {
        None
    }
}

fn add_mox_exec(m: MoxCount, w: &Vec<char>, n: isize) -> (r: Option<MoxCount>)
    ensures
        r == add_mox(m, w@, n),
{
    if eq_text(w, "ruby") {
        match m.r.checked_add_signed(n) { Some(v) => Some(MoxCount { r: v, ..m }), None => None }
    } else if eq_text(w, "emerald") {
        match m.g.checked_add_signed(n) { Some(v) => Some(MoxCount { g: v, ..m }), None => None }
    } else if eq_text(w, "sapphire") {
        match m.b.checked_add_signed(n) { Some(v) => Some(MoxCount { b: v, ..m }), None => None }
    } else if eq_text(w, "prism") {
        match m.y.checked_add_signed(n) { Some(v) => Some(MoxCount { y: v, ..m }), None => None }
    } else if eq_text(w, "topaz") {
        match m.t.checked_add_signed(n) { Some(v) => Some(MoxCount { t: v, ..m }), None => None }
    } else if eq_text(w, "amethyst") {
        match m.p.checked_add_signed(n) { Some(v) => Some(MoxCount { p: v, ..m }), None => None }
    } else {
        match m.o.checked_add_signed(n) { Some(v) => Some(MoxCount { o: v, ..m }), None => None }
    }
}

/// The exec result `r` is the spec result `s`.
pub open spec fn same_result<T>(r: Result<T, CtiError>, s: Result<T, CtiErrorV>) -> bool {
    match s {
        Ok(t) => r == Ok::<T, CtiError>(t),
        Err(e) => r is Err && r->Err_0@ == e,
    }
}

fn invalid(cost: &String) -> (e: CtiError)
    ensures
        e@ == CtiErrorV::InvalidCostFormat(cost@),
{
    CtiError::InvalidCostFormat(cost.clone())
}

fn apply_part_exec(acc: CostTally, part: &Vec<char>, cost: &String) -> (r: Result<CostTally, CtiError>)
    ensures
        same_result(r, apply_part(acc, part@, cost@)),
{
    let low = lowercase(string_of(part).as_str());
    apply_part_folded(acc, low.as_str(), cost)
}

/// Adds one lower-case part of the cost text `cost` to `acc`.
pub fn apply_part_folded(acc: CostTally, part: &str, cost: &String) -> (r: Result<CostTally, CtiError>)
    ensures
        same_result(r, apply_folded(acc, part@, cost@)),
{
    reveal(apply_folded);
    let ws = words(&char_vec(part));
    assert(seqs_view(ws@).len() == ws@.len());
    if ws.len() < 2 {
        return Err(invalid(cost));
    }
    assert(seqs_view(ws@)[0] == ws@[0]@);
    assert(seqs_view(ws@)[1] == ws@[1]@);
    let n = match parse_isize(string_of(&ws[0]).as_str()) {
        Some(n) => n,
        None => {
            return Err(invalid(cost));
        },
    };
    let kind = singular_exec(&ws[1]);
    if eq_text(&kind, "blood") {
        match acc.blood.checked_add(n) { Some(x) => Ok(CostTally { blood: x, ..acc }), None => Err(invalid(cost)) }
    } else if eq_text(&kind, "bone") {
        match acc.bone.checked_add(n) { Some(x) => Ok(CostTally { bone: x, ..acc }), None => Err(invalid(cost)) }
    } else if eq_text(&kind, "energy") {
        match acc.energy.checked_add(n) { Some(x) => Ok(CostTally { energy: x, ..acc }), None => Err(invalid(cost)) }
    } else if eq_text(&kind, "max") {
        match acc.max.checked_add(n) { Some(x) => Ok(CostTally { max: x, ..acc }), None => Err(invalid(cost)) }
    } else if eq_text(&kind, "skull") {
        match acc.skull.checked_add(n) { Some(x) => Ok(CostTally { skull: x, ..acc }), None => Err(invalid(cost)) }
    } else if eq_text(&kind, "shattered") {
        if ws.len() < 3 {
            Err(invalid(cost))
        } else {
            assert(seqs_view(ws@)[2] == ws@[2]@);
            let colour = singular_exec(&ws[2]);
            match mox_flag_exec(&colour) {
                None => Err(CtiError::UnknowMox(string_of(&colour))),
                Some(f) => match add_mox_exec(acc.shattered, &colour, n) {
                    Some(m) => Ok(CostTally { mox: acc.mox | f, shattered: m, ..acc }),
                    None => Err(invalid(cost)),
                },
            }
        }
    } else if eq_text(&kind, "asterisk") {
        Ok(acc)
    } else {
        match mox_flag_exec(&kind) {
            None => Err(CtiError::UnknowCost(string_of(&kind))),
            Some(f) => match add_mox_exec(acc.mox_count, &kind, n) {
                Some(m) => Ok(CostTally { mox: acc.mox | f, mox_count: m, ..acc }),
                None => Err(invalid(cost)),
            },
        }
    }
}

proof fn lemma_apply_parts_err(parts: Seq<Seq<char>>, cost: Seq<char>, k: int, k2: int)
    requires
        0 <= k <= k2,
        apply_parts(parts, cost, k) is Err,
    ensures
        apply_parts(parts, cost, k2) == apply_parts(parts, cost, k),
    decreases k2 - k,
{
    if k2 > k {
        lemma_apply_parts_err(parts, cost, k, k2 - 1);
    }
}

fn apply_all(parts: &Vec<Vec<char>>, cost: &String) -> (r: Result<CostTally, CtiError>)
    ensures
        same_result(r, apply_parts(seqs_view(parts@), cost@, parts@.len() as int)),
{
    let ghost pv = seqs_view(parts@);
    assert(pv.len() == parts@.len());
    let mut acc = CostTally {
        blood: 0,
        bone: 0,
        energy: 0,
        max: 0,
        skull: 0,
        mox: 0,
        mox_count: MoxCount { r: 0, g: 0, b: 0, y: 0, k: 0, p: 0, o: 0, t: 0 },
        shattered: MoxCount { r: 0, g: 0, b: 0, y: 0, k: 0, p: 0, o: 0, t: 0 },
    };
    let mut i: usize = 0;
    while i < parts.len()
        invariant
            pv == seqs_view(parts@),
            pv.len() == parts@.len(),
            i <= parts@.len(),
            apply_parts(pv, cost@, i as int) == Ok::<CostTally, CtiErrorV>(acc),
        decreases parts@.len() - i,
    {
        assert(pv[i as int] == parts@[i as int]@);
        match apply_part_exec(acc, &parts[i], cost) {
            Ok(a) => {
                acc = a;
            },
            Err(e) => {
                proof {
                    lemma_apply_parts_err(pv, cost@, i + 1, pv.len() as int);
                }
                return Err(e);
            },
        }
        i += 1;
    }
    Ok(acc)
}

/// Adds up a cost text such as `2 blood + 1 shattered ruby`.
pub fn parse_cti_cost(cost: &String) -> (r: Result<Option<CostTally>, CtiError>)
    ensures
        same_result(r, cost_tally(cost@)),
{
    let text = char_vec(cost.as_str());
    if eq_text(&text, "free") || text.len() == 0 {
        return Ok(None);
    }
    let plus = char_vec("+");
    proof {
        reveal_strlit("+");
    }
    let parts = split_text(&text, &plus);
    match apply_all(&parts, cost) {
        Ok(t) => Ok(Some(t)),
        Err(e) => Err(e),
    }
}


pub open spec fn cti_rarity(w: Seq<char>) -> Option<Rarity> {
    if w == "Common"@ || w.len() == 0 {
        Some(Rarity::Common)
    } else if w == "Uncommon"@ {
        Some(Rarity::Uncommon)
    } else if w == "Rare"@ {
        Some(Rarity::Rare)
    } else if w == "Talking"@ {
        Some(Rarity::Unique)
    } else if w == "Side Deck"@ {
        Some(Rarity::Side)
    } else if w == "Deathcard"@ {
        Some(Rarity::Deathcard)
    } else if w == "Common (Joke Card)"@ {
        Some(Rarity::Jokecard)
    } else {
        None
    }
}

pub open spec fn cti_temple(w: Seq<char>) -> Option<u8> {
    if w == "Beast"@ {
        Some(Temple::BEAST)
    } else if w == "Undead"@ {
        Some(Temple::UNDEAD)
    } else if w == "Tech"@ {
        Some(Temple::TECH)
    } else if w == "Magick"@ {
        Some(Temple::MAGICK)
    } else if w == "Fool"@ {
        Some(Temple::FOOL)
    } else if w == "Terrain/Extras"@ {
        Some(Temple::EXTRAS)
    } else {
        None
    }
}

/// The number a text spells, or zero.
pub open spec fn int_or_zero(w: Seq<char>) -> int {
    match int_of(w) {
        Some(v) => v,
        None => 0,
    }
}

/// The sigil columns of a row that are not empty, in order.
pub open spec fn cti_sigil_names(c: CtiCard) -> Seq<Seq<char>> {
    one_col(c.sigil1@) + one_col(c.sigil2@) + one_col(c.sigil3@) + one_col(c.sigil4@)
}

/// A column's text as a list: empty for an empty column.
pub open spec fn one_col(w: Seq<char>) -> Seq<Seq<char>> {
    if w.len() > 0 {
        seq![w]
    } else {
        seq![]
    }
}

/// Each sigil name, or the undefined-sigil name where `descs` lacks it.
pub open spec fn resolved(names: Seq<Seq<char>>, descs: Seq<(String, String)>) -> Seq<Seq<char>> {
    names.map_values(|n: Seq<char>| if has_key(descs, n) { n } else { undefined_sigil() })
}

pub open spec fn strings_view(v: Seq<String>) -> Seq<Seq<char>> {
    v.map_values(|s: String| s@)
}

/// The related cards of a row: its token column split at `, `.
pub open spec fn cti_related(c: CtiCard) -> Seq<Seq<char>> {
    if c.token@.len() == 0 {
        seq![]
    } else {
        split_from(c.token@, ", "@, 0, 0)
    }
}

/// `s` without its line breaks.
pub open spec fn strip_newlines(s: Seq<char>) -> Seq<char> {
    s.filter(|c: char| c != '\n')
}

/// The name of each sigil row, with its text without line breaks.
pub open spec fn cti_pairs(sigils: Seq<CtiSigil>) -> Seq<(Seq<char>, Seq<char>)> {
    sigils.map_values(|s: CtiSigil| (s.name@, strip_newlines(s.text@)))
}

/// The first problem of a row, if any: its cost, then its rarity, then its
/// temple.
pub open spec fn cti_card_error(c: CtiCard) -> Option<CtiErrorV> {
    match cost_tally(c.cost@) {
        Err(e) => Some(e),
        Ok(_) => if cti_rarity(c.rarity@) is None {
            Some(CtiErrorV::UnknownRarity(c.rarity@))
        } else if cti_temple(c.temple@) is None {
            Some(CtiErrorV::UnknownTemple(c.temple@))
        } else {
            None
        },
    }
}

pub open spec fn count_of(m: MoxCount) -> Option<MoxCount> {
    if m.is_zero() {
        None
    } else {
        Some(m)
    }
}

/// `card` is what the valid row `c` becomes, with `descs` the sigil
/// descriptions.
pub open spec fn cti_card_is(c: CtiCard, card: Card<(), CtiExt>, descs: Seq<(String, String)>, code: SetCode) -> bool {
    &&& card.set == code
    &&& card.portrait@ == c.portrait@
    &&& card.name@ == c.name@
    &&& card.description@ == c.description@
    &&& card.rarity == cti_rarity(c.rarity@)->Some_0
    &&& card.temple.bits == cti_temple(c.temple@)->Some_0
    &&& card.tribes is None
    &&& card.attack == Attack::Num(int_or_zero(c.attack@) as isize)
    &&& card.health == int_or_zero(c.health@) as isize
    &&& strings_view(card.sigils@) == resolved(cti_sigil_names(c), descs)
    &&& match cost_tally(c.cost@)->Ok_0 {
        None => card.costs is None && card.extra == CtiExt { shattered_count: None, max: 0, skull: 0 },
        Some(t) => {
            &&& card.costs matches Some(k) && k.blood == t.blood && k.bone == t.bone && k.energy
                == t.energy && k.mox.bits == t.mox && k.mox_count == count_of(t.mox_count)
            &&& card.extra == CtiExt { shattered_count: count_of(t.shattered), max: t.max, skull: t.skull }
        },
    }
    &&& card.traits is None
    &&& card.related@.map_values(|s: String| s@) == cti_related(c)
}

fn cti_rarity_exec(w: &String) -> (r: Option<Rarity>)
    ensures
        r == cti_rarity(w@),
{
    let w = char_vec(w.as_str());
    if eq_text(&w, "Common") || w.len() == 0 {
        Some(Rarity::Common)
    } else if eq_text(&w, "Uncommon") {
        Some(Rarity::Uncommon)
    } else if eq_text(&w, "Rare") {
        Some(Rarity::Rare)
    } else if eq_text(&w, "Talking") {
        Some(Rarity::Unique)
    } else if eq_text(&w, "Side Deck") {
        Some(Rarity::Side)
    } else if eq_text(&w, "Deathcard") {
        Some(Rarity::Deathcard)
    } else if eq_text(&w, "Common (Joke Card)") {
        Some(Rarity::Jokecard)
    } else {
        None
    }
}

fn cti_temple_exec(w: &String) -> (r: Option<u8>)
    ensures
        r == cti_temple(w@),
{
    let w = char_vec(w.as_str());
    if eq_text(&w, "Beast") {
        Some(Temple::BEAST)
    } else if eq_text(&w, "Undead") {
        Some(Temple::UNDEAD)
    } else if eq_text(&w, "Tech") {
        Some(Temple::TECH)
    } else if eq_text(&w, "Magick") {
        Some(Temple::MAGICK)
    } else if eq_text(&w, "Fool") {
        Some(Temple::FOOL)
    } else if eq_text(&w, "Terrain/Extras") {
        Some(Temple::EXTRAS)
    } else {
        None
    }
}

fn int_or_zero_exec(w: &String) -> (r: isize)
    ensures
        r as int == int_or_zero(w@),
{
    match parse_isize(w.as_str()) {
        Some(v) => v,
        None => 0,
    }
}

fn strip_newlines_exec(s: &String) -> (r: String)
    ensures
        r@ == strip_newlines(s@),
{
    let v = char_vec(s.as_str());
    let mut out: Vec<char> = Vec::new();
    let mut i: usize = 0;
    let ghost p = |c: char| c != '\n';
    proof {
        reveal(Seq::filter);
        assert(v@.subrange(0, 0).filter(p) =~= Seq::<char>::empty());
    }
    while i < v.len()
        invariant
            v@ == s@,
            i <= v@.len(),
            p == (|c: char| c != '\n'),
            out@ == v@.subrange(0, i as int).filter(p),
        decreases v@.len() - i,
    {
        proof {
            reveal(Seq::filter);
            assert(v@.subrange(0, i + 1).drop_last() =~= v@.subrange(0, i as int));
        }
        if v[i] != '\n' {
            out.push(v[i]);
        }
        i += 1;
    }
    assert(v@.subrange(0, v@.len() as int) =~= v@);
    string_of(&out)
}

fn count_of_exec(m: MoxCount) -> (r: Option<MoxCount>)
    ensures
        r == count_of(m),
{
    if m.r == 0 && m.g == 0 && m.b == 0 && m.y == 0 && m.k == 0 && m.p == 0 && m.o == 0 && m.t == 0 {
        None
    } else {
        Some(m)
    }
}

fn push_sigil(sigils: &mut Vec<String>, col: &String, descs: &Vec<(String, String)>)
    ensures
        strings_view(final(sigils)@) == strings_view(old(sigils)@) + resolved(one_col(col@), descs@),
{
    let ghost before = sigils@;
    if col.as_str().is_empty() {
        assert(strings_view(sigils@) =~= strings_view(before) + resolved(one_col(col@), descs@));
        return;
    }
    if crate::fetch::imf::find_key(descs, col) {
        sigils.push(col.clone());
    } else {
        sigils.push("UNDEFINEDED SIGILS".to_owned());
    }
    assert(strings_view(sigils@) =~= strings_view(before) + resolved(one_col(col@), descs@));
}

proof fn lemma_resolved_concat(a: Seq<Seq<char>>, b: Seq<Seq<char>>, descs: Seq<(String, String)>)
    ensures
        resolved(a + b, descs) == resolved(a, descs) + resolved(b, descs),
{
    assert(resolved(a + b, descs) =~= resolved(a, descs) + resolved(b, descs));
}


fn to_strings(parts: &Vec<Vec<char>>) -> (r: Vec<String>)
    ensures
        strings_view(r@) == seqs_view(parts@),
{
    let mut out: Vec<String> = Vec::new();
    let mut i: usize = 0;
    while i < parts.len()
        invariant
            i <= parts@.len(),
            strings_view(out@) == seqs_view(parts@.subrange(0, i as int)),
        decreases parts@.len() - i,
    {
        let ghost before = out@;
        let st = string_of(&parts[i]);
        out.push(st);
        assert(strings_view(out@) =~= strings_view(before).push(parts@[i as int]@));
        assert(seqs_view(parts@.subrange(0, i + 1)) =~= seqs_view(parts@.subrange(0, i as int)).push(
            parts@[i as int]@,
        ));
        i += 1;
    }
    assert(parts@.subrange(0, parts@.len() as int) =~= parts@);
    out
}

fn cti_card(c: &CtiCard, descs: &Vec<(String, String)>, code: SetCode) -> (r: Result<Card<(), CtiExt>, CtiError>)
    requires
        has_key(descs@, undefined_sigil()),
    ensures
        r is Ok <==> cti_card_error(*c) is None,
        r matches Ok(card) ==> cti_card_is(*c, card, descs@, code) && forall|k: int|
            0 <= k < card.sigils@.len() ==> has_key(descs@, (#[trigger] card.sigils@[k])@),
        r matches Err(e) ==> cti_card_error(*c) == Some(e@),
{
    let tally = match parse_cti_cost(&c.cost) {
        Ok(t) => t,
        Err(e) => {
            return Err(e);
        },
    };
    let rarity = match cti_rarity_exec(&c.rarity) {
        Some(r) => r,
        None => {
            return Err(CtiError::UnknownRarity(c.rarity.clone()));
        },
    };
    let temple = match cti_temple_exec(&c.temple) {
        Some(t) => t,
        None => {
            return Err(CtiError::UnknownTemple(c.temple.clone()));
        },
    };
    let (costs, extra) = match tally {
        None => (None, CtiExt { shattered_count: None, max: 0, skull: 0 }),
        Some(t) => (
            Some(
                Costs {
                    blood: t.blood,
                    bone: t.bone,
                    energy: t.energy,
                    mox: Mox { bits: t.mox },
                    mox_count: count_of_exec(t.mox_count),
                    extra: (),
                },
            ),
            CtiExt { shattered_count: count_of_exec(t.shattered), max: t.max, skull: t.skull },
        ),
    };
    let mut sigils: Vec<String> = Vec::new();
    assert(strings_view(sigils@) =~= Seq::<Seq<char>>::empty());
    push_sigil(&mut sigils, &c.sigil1, descs);
    push_sigil(&mut sigils, &c.sigil2, descs);
    push_sigil(&mut sigils, &c.sigil3, descs);
    push_sigil(&mut sigils, &c.sigil4, descs);
    proof {
        let (o1, o2, o3, o4) = (one_col(c.sigil1@), one_col(c.sigil2@), one_col(c.sigil3@), one_col(c.sigil4@));
        lemma_resolved_concat(o1 + o2 + o3, o4, descs@);
        lemma_resolved_concat(o1 + o2, o3, descs@);
        lemma_resolved_concat(o1, o2, descs@);
        assert(Seq::<Seq<char>>::empty() + resolved(o1, descs@) =~= resolved(o1, descs@));
        let names = cti_sigil_names(*c);
        assert(strings_view(sigils@) == resolved(names, descs@));
        assert forall|k: int| 0 <= k < sigils@.len() implies has_key(descs@, (#[trigger] sigils@[k])@) by {
            assert(strings_view(sigils@)[k] == sigils@[k]@);
            assert(resolved(names, descs@)[k] == if has_key(descs@, names[k]) {
                names[k]
            } else {
                undefined_sigil()
            });
        }
    }
    let related = if c.token.as_str().is_empty() {
        let v: Vec<String> = Vec::new();
        assert(strings_view(v@) =~= Seq::<Seq<char>>::empty());
        v
    } else {
        let sep = char_vec(", ");
        proof {
            reveal_strlit(", ");
        }
        to_strings(&split_text(&char_vec(c.token.as_str()), &sep))
    };
    Ok(
        Card {
            portrait: c.portrait.clone(),
            set: code,
            name: c.name.clone(),
            description: c.description.clone(),
            rarity,
            temple: Temple { bits: temple },
            tribes: None,
            attack: Attack::Num(int_or_zero_exec(&c.attack)),
            health: int_or_zero_exec(&c.health),
            sigils,
            costs,
            traits: None,
            related,
            extra,
        },
    )
}

/// Builds the Custom TCG Inscryption `CardSet` from the rows of its card and
/// sigil sheets. Every unknown sigil of a card is filed under
/// `UNDEFINEDED SIGILS`, which the descriptions always hold. Fails on the
/// first row with a malformed cost, an unknown rarity or an unknown temple.
pub fn fetch_cti_set(cards: &Vec<CtiCard>, sigils: &Vec<CtiSigil>, code: SetCode) -> (r: Result<CardSet<(), CtiExt>, CtiError>)
    ensures
        r is Ok <==> forall|i: int| 0 <= i < cards@.len() ==> cti_card_error(#[trigger] cards@[i]) is None,
        r matches Err(e) ==> exists|i: int|
            0 <= i < cards@.len() && cti_card_error(#[trigger] cards@[i]) == Some(e@)
                && forall|j: int| 0 <= j < i ==> cti_card_error(#[trigger] cards@[j]) is None,
        r matches Ok(set) ==> {
            &&& set.wf()
            &&& set.code == code
            &&& set.name@ == "Custom TCG Inscryption"@
            &&& set.cards@.len() == cards@.len()
            &&& forall|i: int| 0 <= i < cards@.len() ==> cti_card_is(
                #[trigger] cards@[i], set.cards@[i], set.sigils_description@, code)
            &&& has_key(set.sigils_description@, undefined_sigil())
            &&& descs_from(set.sigils_description@, cti_pairs(sigils@))
            &&& forall|i: int| 0 <= i < sigils@.len() ==> has_key(set.sigils_description@, (#[trigger] sigils@[i]).name@)
        },
{
    let mut pairs: Vec<(String, String)> = Vec::new();
    let mut i: usize = 0;
    while i < sigils.len()
        invariant
            i <= sigils@.len(),
            pair_views(pairs@) == cti_pairs(sigils@.subrange(0, i as int)),
            pairs@.len() == i,
            forall|j: int| 0 <= j < i ==> (#[trigger] pairs@[j]).0 == sigils@[j].name,
        decreases sigils@.len() - i,
    {
        let text = strip_newlines_exec(&sigils[i].text);
        let name = sigils[i].name.clone();
        let ghost before = pairs@;
        let ghost item = (name@, text@);
        pairs.push((name, text));
        assert(pair_views(pairs@) =~= pair_views(before).push(item));
        assert(cti_pairs(sigils@.subrange(0, i + 1)) =~= cti_pairs(sigils@.subrange(0, i as int)).push(item));
        i += 1;
    }
    assert(sigils@.subrange(0, i as int) =~= sigils@);
    let descs = describe_all(&pairs);
    assert forall|j: int| 0 <= j < sigils@.len() implies has_key(descs@, (#[trigger] sigils@[j]).name@) by {
        assert(has_key(descs@, pairs@[j].0@));
    }
    let mut out: Vec<Card<(), CtiExt>> = Vec::new();
    let mut n: usize = 0;
    while n < cards.len()
        invariant
            n <= cards@.len(),
            out@.len() == n,
            keys_unique(descs@),
            has_key(descs@, undefined_sigil()),
            forall|j: int| 0 <= j < n ==> cti_card_error(#[trigger] cards@[j]) is None,
            forall|j: int| 0 <= j < n ==> cti_card_is(#[trigger] cards@[j], out@[j], descs@, code),
            forall|j: int, s: int|
                0 <= j < n && 0 <= s < out@[j].sigils@.len() ==> has_key(descs@, (#[trigger] out@[j].sigils@[s])@),
        decreases cards@.len() - n,
    {
        match cti_card(&cards[n], &descs, code) {
            Ok(card) => {
                out.push(card);
            },
            Err(e) => {
                return Err(e);
            },
        }
        n += 1;
    }
    let set = CardSet {
        code,
        name: "Custom TCG Inscryption".to_owned(),
        cards: out,
        sigils_description: descs,
    };
    proof {
        assert forall|c: int, s: int|
            0 <= c < set.cards@.len() && 0 <= s < set.cards@[c].sigils@.len() implies exists|k: int|
                0 <= k < set.sigils_description@.len() && (#[trigger] set.sigils_description@[k]).0@
                    == (#[trigger] set.cards@[c].sigils@[s])@ by {
            assert(has_key(descs@, out@[c].sigils@[s]@));
            let k = choose|k: int| 0 <= k < descs@.len() && (#[trigger] descs@[k]).0@ == out@[c].sigils@[s]@;
            assert(set.sigils_description@[k].0@ == set.cards@[c].sigils@[s]@);
        }
        assert(forall|i: int, j: int|
            0 <= i < j < set.sigils_description@.len() ==> (#[trigger] set.sigils_description@[i]).0@
                != (#[trigger] set.sigils_description@[j]).0@);
        assert forall|c: int| 0 <= c < set.cards@.len() implies match (#[trigger] set.cards@[c]).costs {
            Some(k) => match k.mox_count {
                Some(m) => !m.is_zero(),
                None => true,
            },
            None => true,
        } by {
            assert(cti_card_is(cards@[c], set.cards@[c], descs@, code));
        }
    }
    Ok(set)
}

} // verus!
