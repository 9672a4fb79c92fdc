use magpie::{
    contains_folded, fuzzy_best, fuzzy_rank, rank_folded, score_folded, sigil_search, similarity, CardSet, Score,
    SetCode,
};

fn keys(v: &[&str]) -> Vec<String> {
    v.iter().map(|s| s.to_string()).collect()
}

fn ratio(s: Score) -> f64 {
    s.num as f64 / s.den as f64
}

#[test]
fn rank_stoat_first() {
    let k = keys(&["Stoat", "Goat", "Boulder"]);
    let (best, rest) = fuzzy_rank("stoat", &k).unwrap();
    assert_eq!(best.index, 0);
    assert_eq!(ratio(best.rank), 1.0);
    assert_eq!(rest.len(), 2);
    assert_eq!(rest[0].index, 1);
    assert_eq!(rest[1].index, 2);
    assert!(rest.iter().all(|r| r.index != best.index));
}

#[test]
fn similarity_values() {
    // kitten -> sitting is three edits over seven characters
    assert_eq!(similarity("kitten", "sitting"), Score { num: 4, den: 7 });
    assert_eq!(similarity("Goat", "stoat"), Score { num: 3, den: 5 });
    assert_eq!(similarity("abc", "xyz"), Score { num: 0, den: 3 });
}

#[test]
fn similarity_symmetric() {
    for (a, b) in [("stoat", "goat"), ("Boulder", "bold"), ("", "x"), ("ab", "ba")] {
        assert_eq!(similarity(a, b), similarity(b, a));
    }
}

#[test]
fn similarity_self_is_one() {
    for a in ["s", "Stoat", "worthy sacrifice"] {
        let r = similarity(a, a);
        assert_eq!(r.num, r.den);
    }
}

#[test]
fn similarity_ignores_case() {
    let r = similarity("STOAT", "stoat");
    assert_eq!(r.num, r.den);
}

#[test]
fn similarity_empty_is_zero() {
    assert_eq!(similarity("", "stoat"), Score { num: 0, den: 1 });
    assert_eq!(similarity("", ""), Score { num: 0, den: 1 });
}

#[test]
fn rank_is_non_increasing_and_stable() {
    let k = keys(&["bat", "cat", "stoat", "rat", "boat"]);
    let (best, rest) = fuzzy_rank("cat", &k).unwrap();
    assert_eq!(best.index, 1);
    let all: Vec<_> = std::iter::once(best).chain(rest).collect();
    for w in all.windows(2) {
        assert!(ratio(w[0].rank) >= ratio(w[1].rank));
        if ratio(w[0].rank) == ratio(w[1].rank) {
            assert!(w[0].index < w[1].index);
        }
    }
    // "bat" and "rat" tie; the earlier one comes first
    assert_eq!(all[1].index, 0);
    assert_eq!(all[2].index, 3);
}

#[test]
fn rank_empty_candidates() {
    assert!(fuzzy_rank("stoat", &Vec::new()).is_none());
    assert!(fuzzy_best("stoat", &Vec::new(), Score { num: 1, den: 2 }).is_none());
}

#[test]
fn best_above_threshold() {
    let k = keys(&["Stoat", "Goat", "Boulder"]);
    let half = Score { num: 1, den: 2 };
    let b = fuzzy_best("stoat", &k, half).unwrap();
    assert_eq!(b.index, 0);
    assert!(fuzzy_best("zzzzzzz", &k, half).is_none());
    let b = fuzzy_best("goats", &k, half).unwrap();
    assert_eq!(b.index, 1);
}

#[test]
fn sigil_lookup() {
    let set: CardSet<(), ()> = CardSet {
        code: SetCode { c0: 's', c1: 't', c2: 'd' },
        name: String::from("Standard"),
        cards: vec![],
        sigils_description: vec![
            (String::from("Worthy Sacrifice"), String::from("Counts as three blood")),
            (String::from("Bone King"), String::from("Gives four bones")),
        ],
    };
    let b = sigil_search(&set, "bone kin").unwrap();
    assert_eq!(b.index, 1);
    assert!(sigil_search(&set, "zzz").is_none());
}

#[test]
fn folded_helpers_compare_exactly() {
    assert_eq!(score_folded("Stoat", "stoat"), Score { num: 4, den: 5 });
    assert!(contains_folded("river snapper", "snap"));
    assert!(!contains_folded("river snapper", "Snap"));
}

#[test]
fn rank_folded_compares_exactly() {
    let k = keys(&["stoat", "goat", "boulder"]);
    let (best, rest) = rank_folded("stoat", &k).unwrap();
    assert_eq!(best.index, 0);
    assert_eq!(best.rank, Score { num: 5, den: 5 });
    assert_eq!(rest.iter().map(|r| r.index).collect::<Vec<_>>(), vec![1, 2]);
    let k = keys(&["Stoat", "stoat"]);
    let (best, _) = rank_folded("stoat", &k).unwrap();
    assert_eq!(best.index, 1);
    assert!(rank_folded("stoat", &Vec::new()).is_none());
}
