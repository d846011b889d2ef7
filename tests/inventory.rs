use cheat_codes::cheat_codes::CheatCodesResource;
use cheat_codes::inventory::Inventory;

fn s(text: &str) -> String {
    text.to_string()
}

fn phrase(words: &[&str]) -> Vec<String> {
    words.iter().map(|w| w.to_string()).collect()
}

fn inventory(words: &[(&str, u32)], keycaps: &[(char, u32)]) -> Inventory {
    let mut inv = Inventory::new();
    for (w, n) in words {
        inv.set_word(&s(w), *n);
    }
    for (c, n) in keycaps {
        inv.set_keycap(*c, *n);
    }
    inv
}

fn snapshot(inv: &Inventory) -> (Vec<(String, u32)>, Vec<(char, u32)>) {
    (inv.words.clone(), inv.keycaps.clone())
}

#[test]
fn empty_inventory_holds_nothing() {
    let inv = Inventory::new();
    assert_eq!(inv.word_count(&s("dawn")), 0);
    assert_eq!(inv.keycap_count('a'), 0);
}

#[test]
fn set_counts_are_read_back() {
    let mut inv = inventory(&[("dawn", 2)], &[('t', 3)]);
    assert_eq!(inv.word_count(&s("dawn")), 2);
    assert_eq!(inv.keycap_count('t'), 3);
    inv.set_word(&s("dawn"), 5);
    inv.set_keycap('t', 0);
    assert_eq!(inv.word_count(&s("dawn")), 5);
    assert_eq!(inv.keycap_count('t'), 0);
    assert_eq!(inv.words.len(), 1);
    assert_eq!(inv.keycaps.len(), 1);
}

#[test]
fn failed_payment_changes_no_count() {
    // "dawn" and "kick" are held whole; "till" needs two 'l' keycaps and one is held.
    let mut inv = inventory(&[("dawn", 1), ("kick", 1)], &[('t', 1), ('i', 1), ('l', 1)]);
    let before = snapshot(&inv);
    assert!(!inv.try_consume(&phrase(&["dawn", "till", "kick"])));
    assert_eq!(snapshot(&inv), before);
    assert_eq!(inv.word_count(&s("dawn")), 1);
    assert_eq!(inv.word_count(&s("kick")), 1);
    assert_eq!(inv.keycap_count('l'), 1);
}

#[test]
fn unsupported_word_fails_whole_phrase() {
    let mut inv = inventory(&[("dawn", 1)], &[('t', 1), ('i', 1), ('l', 1)]);
    let before = snapshot(&inv);
    assert!(!inv.try_consume(&phrase(&["dawn", "till", "core"])));
    assert_eq!(snapshot(&inv), before);
}

#[test]
fn phrase_paid_by_words_and_keycaps() {
    // 'i' is needed once by "till" and once by "kick".
    let mut inv = inventory(
        &[("dawn", 1)],
        &[('t', 1), ('i', 2), ('l', 2), ('k', 2), ('c', 1)],
    );
    assert!(inv.try_consume(&phrase(&["dawn", "till", "kick"])));
    assert_eq!(inv.word_count(&s("dawn")), 0);
    assert_eq!(inv.keycap_count('t'), 0);
    assert_eq!(inv.keycap_count('i'), 0);
    assert_eq!(inv.keycap_count('l'), 0);
    assert_eq!(inv.keycap_count('k'), 0);
    assert_eq!(inv.keycap_count('c'), 0);
}

#[test]
fn shared_keycap_must_cover_every_use() {
    // One 'i' cannot pay for both "till" and "kick": nothing is taken.
    let mut inv = inventory(
        &[("dawn", 1)],
        &[('t', 1), ('i', 1), ('l', 2), ('k', 2), ('c', 1)],
    );
    let before = snapshot(&inv);
    assert!(!inv.try_consume(&phrase(&["dawn", "till", "kick"])));
    assert_eq!(snapshot(&inv), before);
}

#[test]
fn repeated_word_uses_one_unit_per_occurrence() {
    let mut inv = inventory(&[("dawn", 1)], &[('d', 1), ('a', 1), ('w', 1), ('n', 1)]);
    assert!(inv.try_consume(&phrase(&["dawn", "dawn"])));
    assert_eq!(inv.word_count(&s("dawn")), 0);
    assert_eq!(inv.keycap_count('d'), 0);
    assert_eq!(inv.keycap_count('n'), 0);
}

#[test]
fn zero_word_count_falls_back_to_keycaps() {
    let mut inv = inventory(&[("up", 0)], &[('u', 1), ('p', 1)]);
    assert!(inv.try_consume(&phrase(&["up"])));
    assert_eq!(inv.keycap_count('u'), 0);
    assert_eq!(inv.keycap_count('p'), 0);
    assert_eq!(inv.word_count(&s("up")), 0);
}

#[test]
fn check_inventory_splits_the_phrase() {
    let mut inv = inventory(&[("dawn", 1), ("till", 1), ("kick", 1)], &[]);
    assert!(CheatCodesResource::check_inventory("dawn-till-kick", &mut inv));
    assert_eq!(inv.word_count(&s("dawn")), 0);
    assert_eq!(inv.word_count(&s("till")), 0);
    assert_eq!(inv.word_count(&s("kick")), 0);
    assert!(!CheatCodesResource::check_inventory("dawn-till-kick", &mut inv));
}
