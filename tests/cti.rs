use magpie::{
    apply_part_folded, fetch_cti_set, parse_cti_cost, Attack, CtiCard, CtiError, CtiSigil, Mox, MoxCount, Rarity,
    SetCode, Temple,
};

fn code() -> SetCode {
    SetCode { c0: 'c', c1: 't', c2: 'i' }
}

fn row(cost: &str) -> CtiCard {
    CtiCard {
        name: String::from("Ring Worm"),
        temple: String::from("Beast"),
        rarity: String::from("Common"),
        cost: cost.to_string(),
        attack: String::from("0"),
        health: String::from("1"),
        sigil1: String::from("Bone King"),
        sigil2: String::from("Mystery"),
        ..Default::default()
    }
}

fn sigils() -> Vec<CtiSigil> {
    vec![CtiSigil { name: String::from("Bone King"), text: String::from("Four\nbones") }]
}

#[test]
fn cti_cost_text() {
    let t = parse_cti_cost(&String::from("2 Blood + 3 bones + 1 shattered rubies + 2 emeralds + 4 max"))
        .unwrap()
        .unwrap();
    assert_eq!(t.blood, 2);
    assert_eq!(t.bone, 3);
    assert_eq!(t.max, 4);
    assert_eq!(t.mox, Mox::R | Mox::G);
    assert_eq!(t.shattered.r, 1);
    assert_eq!(t.mox_count.g, 2);
    assert_eq!(parse_cti_cost(&String::from("free")).unwrap(), None);
    assert_eq!(parse_cti_cost(&String::new()).unwrap(), None);
}

#[test]
fn cti_cost_errors() {
    let c = |s: &str| parse_cti_cost(&s.to_string()).err().unwrap();
    assert_eq!(c("blood"), CtiError::InvalidCostFormat(String::from("blood")));
    assert_eq!(c("two blood"), CtiError::InvalidCostFormat(String::from("two blood")));
    assert_eq!(c("1 shattered"), CtiError::InvalidCostFormat(String::from("1 shattered")));
    assert_eq!(c("1 gold"), CtiError::UnknowCost(String::from("gold")));
    assert_eq!(c("1 shattered pearl"), CtiError::UnknowMox(String::from("pearl")));
}

#[test]
fn cti_card_conversion() {
    let mut r = row("1 energy + 1 sapphire");
    r.token = String::from("Worm Egg, Worm Tail");
    let set = fetch_cti_set(&vec![r], &sigils(), code()).unwrap();
    assert_eq!(set.name, "Custom TCG Inscryption");
    let card = &set.cards[0];
    assert_eq!(card.rarity, Rarity::Common);
    assert_eq!(card.temple.bits, Temple::BEAST);
    assert_eq!(card.attack, Attack::Num(0));
    assert_eq!(card.health, 1);
    assert_eq!(card.sigils, vec![String::from("Bone King"), String::from("UNDEFINEDED SIGILS")]);
    assert_eq!(card.related, vec![String::from("Worm Egg"), String::from("Worm Tail")]);
    let costs = card.costs.as_ref().unwrap();
    assert_eq!(costs.energy, 1);
    assert_eq!(costs.mox.bits, Mox::B);
    assert_eq!(costs.mox_count, Some(MoxCount { b: 1, ..Default::default() }));
    assert_eq!(card.extra.shattered_count, None);
    assert!(set.sigils_description.iter().any(|(k, v)| k == "Bone King" && v == "Fourbones"));
}

#[test]
fn cti_free_card() {
    let set = fetch_cti_set(&vec![row("free")], &sigils(), code()).unwrap();
    assert!(set.cards[0].costs.is_none());
    assert_eq!(set.cards[0].extra.max, 0);
}

#[test]
fn cti_unknown_rarity_and_temple() {
    let mut r = row("1 blood");
    r.rarity = String::from("Mythic");
    let e = fetch_cti_set(&vec![r], &sigils(), code()).err().unwrap();
    assert_eq!(e, CtiError::UnknownRarity(String::from("Mythic")));
    assert_eq!(e.message(), "unknown rarity: Mythic");
    let mut r = row("1 blood");
    r.temple = String::from("Ocean");
    assert_eq!(
        fetch_cti_set(&vec![r], &sigils(), code()).err(),
        Some(CtiError::UnknownTemple(String::from("Ocean")))
    );
}

#[test]
fn cti_folded_part() {
    let zero = parse_cti_cost(&String::from("0 blood")).unwrap().unwrap();
    let cost = String::from("ignored");
    let t = apply_part_folded(zero, " 2 rubies ", &cost).unwrap();
    assert_eq!(t.mox_count.r, 2);
    assert_eq!(t.mox, Mox::R);
    assert_eq!(
        apply_part_folded(zero, "2 Blood", &cost).err(),
        Some(CtiError::UnknowCost(String::from("Blood")))
    );
}

#[test]
fn cti_descriptions_take_last_row() {
    let rows = vec![
        CtiSigil { name: String::from("Bone King"), text: String::from("old") },
        CtiSigil { name: String::from("Bone King"), text: String::from("new\ntext") },
    ];
    let set = fetch_cti_set(&vec![row("free")], &rows, code()).unwrap();
    assert_eq!(set.sigils_description.len(), 2);
    assert!(set.sigils_description.iter().any(|(k, v)| k == "Bone King" && v == "newtext"));
}
