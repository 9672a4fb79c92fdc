use magpie::{fetch_imf_set, Attack, ImfCard, ImfSet, Rarity, SetCode, SetError, SpAtk, Temple};

fn code() -> SetCode {
    SetCode { c0: 'c', c1: 'o', c2: 'm' }
}

fn raw_set(cards: Vec<ImfCard>) -> ImfSet {
    ImfSet {
        ruleset: String::from("IMF Competitive"),
        cards,
        sigils: vec![(String::from("Bone King"), String::from("Gives four bones"))],
    }
}

#[test]
fn imf_card_fields() {
    let c = ImfCard {
        name: String::from("Mole Man"),
        attack: 0,
        health: 6,
        sigils: vec![String::from("Bone King"), String::from("Nope")],
        blood_cost: 1,
        mox_cost: vec![String::from("Green"), String::from("Blue")],
        rare: true,
        nohammer: true,
        evolution: String::from("Mole Seaman"),
        right_half: String::from("Half"),
        ..Default::default()
    };
    let set = fetch_imf_set(&raw_set(vec![c]), code()).unwrap();
    assert_eq!(set.name, "IMF Competitive");
    assert_eq!(set.cards.len(), 1);
    let card = &set.cards[0];
    assert_eq!(card.portrait, "https://raw.githubusercontent.com/107zxz/inscr-onln/main/gfx/pixport/Mole%20Man.png");
    assert_eq!(card.rarity, Rarity::Rare);
    assert_eq!(card.temple.bits, Temple::BEAST | Temple::MAGICK);
    assert_eq!(card.attack, Attack::Num(0));
    assert_eq!(card.sigils, vec![String::from("Bone King"), String::from("UNDEFINEDED SIGILS")]);
    let costs = card.costs.as_ref().unwrap();
    assert_eq!(costs.blood, 1);
    assert_eq!(costs.mox.bits, magpie::Mox::G | magpie::Mox::B);
    let traits = card.traits.as_ref().unwrap();
    assert_eq!(traits.flags.bits, magpie::TraitsFlag::HARD);
    assert_eq!(card.related, vec![String::from("Mole Seaman"), String::from("Half")]);
    assert!(set
        .sigils_description
        .iter()
        .any(|(k, v)| k == "UNDEFINEDED SIGILS" && v == "THIS SIGIL IS NOT DEFINED BY THE SET"));
}

#[test]
fn imf_free_card_and_special_attack() {
    let c = ImfCard {
        name: String::from("Ant"),
        atkspecial: String::from("ant"),
        pixport_url: String::from("http://x/ant.png"),
        ..Default::default()
    };
    let set = fetch_imf_set(&raw_set(vec![c]), code()).unwrap();
    let card = &set.cards[0];
    assert_eq!(card.attack, Attack::SpAtk(SpAtk::Ant));
    assert_eq!(card.portrait, "http://x/ant.png");
    assert!(card.costs.is_none());
    assert!(card.traits.is_none());
    assert_eq!(card.temple.bits, 0);
    assert_eq!(card.rarity, Rarity::Common);
}

#[test]
fn imf_unknown_special_attack() {
    let c = ImfCard { atkspecial: String::from("laser"), ..Default::default() };
    assert_eq!(
        fetch_imf_set(&raw_set(vec![c]), code()).err(),
        Some(SetError::UnknownSpAtk(String::from("laser")))
    );
}

#[test]
fn imf_unknown_mox() {
    let c = ImfCard { mox_cost: vec![String::from("Green"), String::from("Pink")], ..Default::default() };
    assert_eq!(
        fetch_imf_set(&raw_set(vec![c]), code()).err(),
        Some(SetError::UnknownMox(String::from("Pink")))
    );
}
