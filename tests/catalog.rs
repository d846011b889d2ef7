use cheat_codes::cheat_codes::{
    CheatCode, CheatCodeActivation, CheatCodeActivationResult, CheatCodeKind, CheatCodesResource,
    WordListError,
};
use cheat_codes::inventory::Inventory;

const WORDS: &[u8] = b"[\"till\", \"rich\", \"weak\", \"mode\", \"upon\", \"core\", \"dawn\", \"tiny\", \"zero\", \"kick\", \"back\", \"show\"]";

const KINDS: [CheatCodeKind; 5] = [
    CheatCodeKind::Jump,
    CheatCodeKind::MoveLeft,
    CheatCodeKind::SpeedBoost,
    CheatCodeKind::Dash,
    CheatCodeKind::ExtraLife,
];

fn catalog() -> CheatCodesResource {
    CheatCodesResource::new(WORDS).unwrap()
}

fn text_of(catalog: &CheatCodesResource, kind: CheatCodeKind) -> String {
    catalog.codes[kind.index()].text.clone()
}

/// An inventory that holds each word of `text` `n` times.
fn holding(text: &str, n: u32) -> Inventory {
    let mut inv = Inventory::new();
    for w in text.split('-') {
        let w = w.to_string();
        let have = inv.word_count(&w);
        inv.set_word(&w, have + n);
    }
    inv
}

fn total_words(inv: &Inventory) -> u32 {
    inv.words.iter().map(|e| e.1).sum()
}

fn catalog_with(texts: [&str; 5]) -> CheatCodesResource {
    let modes = [
        CheatCodeActivation::Once,
        CheatCodeActivation::Once,
        CheatCodeActivation::Multiple,
        CheatCodeActivation::Once,
        CheatCodeActivation::Multiple,
    ];
    let codes = (0..5)
        .map(|i| {
            CheatCode::new(KINDS[i], texts[i], String::new(), String::new(), modes[i], false)
        })
        .collect();
    CheatCodesResource { codes }
}

#[test]
fn new_builds_one_inactive_code_per_kind() {
    let c = catalog();
    assert_eq!(c.codes.len(), 5);
    let list: Vec<&str> = vec![
        "till", "rich", "weak", "mode", "upon", "core", "dawn", "tiny", "zero", "kick", "back",
        "show",
    ];
    for (i, kind) in KINDS.iter().enumerate() {
        let code = &c.codes[i];
        assert_eq!(code.kind, *kind);
        assert!(!code.is_active);
        assert!(!c.is_code_active(kind));
        let parts: Vec<&str> = code.text.split('-').collect();
        assert_eq!(parts.len(), 3);
        for p in parts {
            assert!(list.contains(&p));
        }
    }
    assert_eq!(c.codes[0].image, "jump.png");
    assert_eq!(c.codes[0].help_text, "Press the spacebar to jump.");
    assert_eq!(c.codes[2].activation, CheatCodeActivation::Multiple);
    assert_eq!(c.codes[4].activation, CheatCodeActivation::Multiple);
    assert_eq!(c.codes[1].activation, CheatCodeActivation::Once);
    assert_eq!(c.codes[3].image, "dash.png");
}

#[test]
fn first_four_codes_share_no_word_within_one_pool_fill() {
    // Twelve words, four codes of three: no refill before the fifth code.
    let c = catalog();
    let mut seen: Vec<String> = Vec::new();
    for i in 0..4 {
        for w in c.codes[i].text.split('-') {
            assert!(!seen.contains(&w.to_string()));
            seen.push(w.to_string());
        }
    }
}

#[test]
fn malformed_word_list_is_refused() {
    assert!(matches!(
        CheatCodesResource::new(b"[\"dawn\", "),
        Err(WordListError::Malformed)
    ));
    assert!(matches!(CheatCodesResource::new(b"42"), Err(WordListError::Malformed)));
}

#[test]
fn empty_word_list_is_refused() {
    assert!(matches!(CheatCodesResource::new(b"[]"), Err(WordListError::Empty)));
}

#[test]
fn unknown_text_is_not_found_and_charges_nothing() {
    let mut c = catalog();
    let mut inv = holding("till-rich-weak-mode-upon-core-dawn-tiny-zero-kick-back-show", 1);
    let before = inv.words.clone();
    let r = c.activate_code("not-a-code", &mut inv);
    assert_eq!(r, CheatCodeActivationResult::NotFound);
    assert_eq!(inv.words, before);
    for k in KINDS.iter() {
        assert!(!c.is_code_active(k));
    }
}

#[test]
fn activation_ignores_case() {
    let mut c = catalog();
    let text = text_of(&c, CheatCodeKind::Dash);
    let mut inv = holding(&text, 1);
    let r = c.activate_code(&text.to_uppercase(), &mut inv);
    assert_eq!(r, CheatCodeActivationResult::Activated(CheatCodeKind::Dash));
    assert!(c.is_code_active(&CheatCodeKind::Dash));
    assert_eq!(total_words(&inv), 0);
}

#[test]
fn inadequate_inventory_changes_nothing() {
    let mut c = catalog();
    let text = text_of(&c, CheatCodeKind::Jump);
    let mut inv = Inventory::new();
    inv.set_keycap('z', 4);
    let r = c.activate_code(&text, &mut inv);
    assert_eq!(r, CheatCodeActivationResult::InadequateInventory(CheatCodeKind::Jump));
    assert!(!c.is_code_active(&CheatCodeKind::Jump));
    assert_eq!(inv.keycap_count('z'), 4);
    assert_eq!(inv.words.len(), 0);
}

#[test]
fn once_code_second_activation_is_already_active_and_still_charged() {
    let mut c = catalog();
    let text = text_of(&c, CheatCodeKind::Jump);
    let mut inv = holding(&text, 2);
    assert_eq!(total_words(&inv), 6);
    let r = c.activate_code(&text, &mut inv);
    assert_eq!(r, CheatCodeActivationResult::Activated(CheatCodeKind::Jump));
    assert_eq!(total_words(&inv), 3);
    let r = c.activate_code(&text, &mut inv);
    assert_eq!(r, CheatCodeActivationResult::AlreadyActivated(CheatCodeKind::Jump));
    assert_eq!(total_words(&inv), 0);
    assert!(c.is_code_active(&CheatCodeKind::Jump));
    let r = c.activate_code(&text, &mut inv);
    assert_eq!(r, CheatCodeActivationResult::InadequateInventory(CheatCodeKind::Jump));
}

#[test]
fn multiple_code_activates_and_charges_every_time() {
    let mut c = catalog();
    let text = text_of(&c, CheatCodeKind::SpeedBoost);
    let mut inv = holding(&text, 3);
    for left in [6, 3, 0] {
        let r = c.activate_code(&text, &mut inv);
        assert_eq!(r, CheatCodeActivationResult::Activated(CheatCodeKind::SpeedBoost));
        assert_eq!(total_words(&inv), left);
        assert!(c.is_code_active(&CheatCodeKind::SpeedBoost));
    }
}

#[test]
fn activation_by_keycaps() {
    let mut c = catalog_with([
        "dawn-till-kick",
        "rich-weak-mode",
        "upon-core-tiny",
        "zero-back-show",
        "kick-back-show",
    ]);
    let mut inv = Inventory::new();
    inv.set_word(&"dawn".to_string(), 1);
    for (ch, n) in [('t', 1), ('i', 2), ('l', 2), ('k', 2), ('c', 1)] {
        inv.set_keycap(ch, n);
    }
    let r = c.activate_lowercase(&"dawn-till-kick".to_string(), &mut inv);
    assert_eq!(r, CheatCodeActivationResult::Activated(CheatCodeKind::Jump));
    for ch in ['t', 'i', 'l', 'k', 'c'] {
        assert_eq!(inv.keycap_count(ch), 0);
    }
    assert_eq!(inv.word_count(&"dawn".to_string()), 0);
}

#[test]
fn activate_lowercase_matches_exactly() {
    let mut c = catalog_with([
        "dawn-till-kick",
        "rich-weak-mode",
        "upon-core-tiny",
        "zero-back-show",
        "kick-back-show",
    ]);
    let mut inv = holding("dawn-till-kick", 1);
    let r = c.activate_lowercase(&"DAWN-TILL-KICK".to_string(), &mut inv);
    assert_eq!(r, CheatCodeActivationResult::NotFound);
    assert_eq!(total_words(&inv), 3);
}

#[test]
fn repr_lines() {
    assert_eq!(
        CheatCodeActivationResult::Activated(CheatCodeKind::Jump).repr(),
        "[Jump] successfully activated"
    );
    assert_eq!(
        CheatCodeActivationResult::AlreadyActivated(CheatCodeKind::MoveLeft).repr(),
        "[MoveLeft] is already active"
    );
    assert_eq!(CheatCodeActivationResult::NotFound.repr(), "Invalid code given");
    assert_eq!(
        CheatCodeActivationResult::InadequateInventory(CheatCodeKind::ExtraLife).repr(),
        "Inadequate inventory for [ExtraLife]"
    );
    assert_eq!(
        CheatCodeActivationResult::Activated(CheatCodeKind::SpeedBoost).repr(),
        "[SpeedBoost] successfully activated"
    );
    assert_eq!(
        CheatCodeActivationResult::AlreadyActivated(CheatCodeKind::Dash).repr(),
        "[Dash] is already active"
    );
}

#[test]
fn kind_names_and_places() {
    for (i, k) in KINDS.iter().enumerate() {
        assert_eq!(k.index(), i);
        assert_eq!(k.name(), format!("{:?}", k));
    }
}

#[test]
fn cheat_code_new_keeps_fields() {
    let code = CheatCode::new(
        CheatCodeKind::Dash,
        "a-b-c",
        "dash.png".to_string(),
        "help".to_string(),
        CheatCodeActivation::Once,
        true,
    );
    assert_eq!(code.kind, CheatCodeKind::Dash);
    assert_eq!(code.text, "a-b-c");
    assert_eq!(code.image, "dash.png");
    assert_eq!(code.help_text, "help");
    assert_eq!(code.activation, CheatCodeActivation::Once);
    assert!(code.is_active);
}
