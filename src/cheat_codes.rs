use vstd::prelude::*;
use vstd::string::StringExecFns;

use crate::inventory::{consume, Inventory};
use crate::phrase::{lower_of, lowercase, split_phrase, split_words};
use crate::word_pool::{copy_words, generate_random_code, generated, words_view};

verus! {

/// The abilities that a cheat code can unlock, one code each.
#[derive(PartialEq, Eq, Structural, Clone, Copy, Debug, Hash)]
pub enum CheatCodeKind {
    Jump,
    MoveLeft,
    SpeedBoost,
    Dash,
    ExtraLife,
}

/// How many kinds of cheat code there are.
pub const KIND_COUNT: usize = 5;

/// The place of each kind in the catalog.
pub open spec fn kind_index(kind: CheatCodeKind) -> int {
    match kind {
        CheatCodeKind::Jump => 0,
        CheatCodeKind::MoveLeft => 1,
        CheatCodeKind::SpeedBoost => 2,
        CheatCodeKind::Dash => 3,
        CheatCodeKind::ExtraLife => 4,
    }
}

/// The name of each kind, as it is shown to the player.
pub open spec fn kind_name(kind: CheatCodeKind) -> Seq<char> {
    match kind {
        CheatCodeKind::Jump => "Jump"@,
        CheatCodeKind::MoveLeft => "MoveLeft"@,
        CheatCodeKind::SpeedBoost => "SpeedBoost"@,
        CheatCodeKind::Dash => "Dash"@,
        CheatCodeKind::ExtraLife => "ExtraLife"@,
    }
}

impl CheatCodeKind {
    /// The place of this kind in the catalog.
    pub fn index(&self) -> (r: usize)
        ensures
            r == kind_index(*self),
            r < KIND_COUNT,
    {
        match self {
            CheatCodeKind::Jump => 0,
            CheatCodeKind::MoveLeft => 1,
            CheatCodeKind::SpeedBoost => 2,
            CheatCodeKind::Dash => 3,
            CheatCodeKind::ExtraLife => 4,
        }
    }

    /// The name of this kind.
    pub fn name(&self) -> (r: &'static str)
        ensures
            r@ == kind_name(*self),
    {
        match self {
            CheatCodeKind::Jump => "Jump",
            CheatCodeKind::MoveLeft => "MoveLeft",
            CheatCodeKind::SpeedBoost => "SpeedBoost",
            CheatCodeKind::Dash => "Dash",
            CheatCodeKind::ExtraLife => "ExtraLife",
        }
    }
}

/// What the catalog shows for each kind: its image.
pub open spec fn kind_image(kind: CheatCodeKind) -> Seq<char> {
    match kind {
        CheatCodeKind::Jump => "jump.png"@,
        CheatCodeKind::MoveLeft => "move_left.png"@,
        CheatCodeKind::SpeedBoost => "speed.png"@,
        CheatCodeKind::Dash => "dash.png"@,
        CheatCodeKind::ExtraLife => "extra_life.png"@,
    }
}

/// What the catalog shows for each kind: its help text.
pub open spec fn kind_help(kind: CheatCodeKind) -> Seq<char> {
    match kind {
        CheatCodeKind::Jump => "Press the spacebar to jump."@,
        CheatCodeKind::MoveLeft => "Press 'A' to move left."@,
        CheatCodeKind::SpeedBoost => "Movement enhanced."@,
        CheatCodeKind::Dash => "Double tap 'D' to dash."@,
        CheatCodeKind::ExtraLife => "Extra life granted."@,
    }
}

/// The activation mode of each kind.
pub open spec fn kind_mode(kind: CheatCodeKind) -> CheatCodeActivation {
    match kind {
        CheatCodeKind::SpeedBoost | CheatCodeKind::ExtraLife => CheatCodeActivation::Multiple,
        _ => CheatCodeActivation::Once,
    }
}

/// The kind at each place of the catalog.
pub open spec fn kind_at(i: int) -> CheatCodeKind {
    if i == 0 {
        CheatCodeKind::Jump
    } else if i == 1 {
        CheatCodeKind::MoveLeft
    } else if i == 2 {
        CheatCodeKind::SpeedBoost
    } else if i == 3 {
        CheatCodeKind::Dash
    } else {
        CheatCodeKind::ExtraLife
    }
}

/// Whether a code can be activated any number of times or only once.
#[derive(PartialEq, Eq, Structural, Clone, Copy, Debug)]
pub enum CheatCodeActivation {
    Multiple,
    Once,
}

/// One cheat code: the phrase that activates it, what is shown for it, and
/// whether it is active.
pub struct CheatCode {
    pub kind: CheatCodeKind,
    pub text: String,
    pub image: String,
    pub help_text: String,
    pub activation: CheatCodeActivation,
    pub is_active: bool,
}

impl CheatCode {
    pub fn new(
        kind: CheatCodeKind,
        text: &str,
        image: String,
        help_text: String,
        activation: CheatCodeActivation,
        is_active: bool,
    ) -> (r: Self)
        ensures
            r.kind == kind,
            r.text@ == text@,
            r.image == image,
            r.help_text == help_text,
            r.activation == activation,
            r.is_active == is_active,
    {
        CheatCode { kind, text: String::from_str(text), image, help_text, activation, is_active }
    }
}

/// The outcome of an attempt to activate a code.
#[derive(PartialEq, Eq, Structural, Clone, Copy, Debug)]
pub enum CheatCodeActivationResult {
    NotFound,
    Activated(CheatCodeKind),
    AlreadyActivated(CheatCodeKind),
    InadequateInventory(CheatCodeKind),
}

/// The line shown to the player for an outcome.
pub open spec fn result_text(r: CheatCodeActivationResult) -> Seq<char> {
    match r {
        CheatCodeActivationResult::Activated(kind) => "["@ + kind_name(kind)
            + "] successfully activated"@,
        CheatCodeActivationResult::AlreadyActivated(kind) => "["@ + kind_name(kind)
            + "] is already active"@,
        CheatCodeActivationResult::NotFound => "Invalid code given"@,
        CheatCodeActivationResult::InadequateInventory(kind) => "Inadequate inventory for ["@
            + kind_name(kind) + "]"@,
    }
}

impl CheatCodeActivationResult {
    /// The line shown to the player for this outcome.
    pub fn repr(&self) -> (r: String)
        ensures
            r@ == result_text(*self),
    {
        match self {
            CheatCodeActivationResult::Activated(kind) => {
                let mut s = String::from_str("[");
                s.append(kind.name());
                s.append("] successfully activated");
                s
            },
            CheatCodeActivationResult::AlreadyActivated(kind) => {
                let mut s = String::from_str("[");
                s.append(kind.name());
                s.append("] is already active");
                s
            },
            CheatCodeActivationResult::NotFound => String::from_str("Invalid code given"),
            CheatCodeActivationResult::InadequateInventory(kind) => {
                let mut s = String::from_str("Inadequate inventory for [");
                s.append(kind.name());
                s.append("]");
                s
            },
        }
    }
}


/// Whether `i` is the first code of `codes` whose phrase is `text`.
pub open spec fn is_first_code(codes: Seq<CheatCode>, text: Seq<char>, i: int) -> bool {
    &&& 0 <= i < codes.len()
    &&& codes[i].text@ == text
    &&& forall|j: int| 0 <= j < i ==> codes[j].text@ != text
}

/// The first code of `codes` whose phrase is `text`, if any.
pub open spec fn find_code(codes: Seq<CheatCode>, text: Seq<char>) -> Option<int> {
    if exists|i: int| is_first_code(codes, text, i) {
        Some(choose|i: int| is_first_code(codes, text, i))
    } else {
        None
    }
}

/// The first code with a phrase is the one that `find_code` gives.
pub proof fn lemma_first_code(codes: Seq<CheatCode>, text: Seq<char>, i: int)
    requires
        is_first_code(codes, text, i),
    ensures
        find_code(codes, text) == Some(i),
{
    let c = choose|c: int| is_first_code(codes, text, c);
    assert(is_first_code(codes, text, c));
    if c < i {
        assert(codes[c].text@ != text);
    } else if i < c {
        assert(codes[i].text@ != text);
    }
}

/// Turning the matched code active keeps it the first match for its phrase.
pub proof fn lemma_activation_keeps_match(codes: Seq<CheatCode>, text: Seq<char>, i: int)
    requires
        find_code(codes, text) == Some(i),
    ensures
        find_code(codes.update(i, CheatCode { is_active: true, ..codes[i] }), text) == Some(i),
{
    let after = codes.update(i, CheatCode { is_active: true, ..codes[i] });
    assert(is_first_code(codes, text, i));
    assert(is_first_code(after, text, i));
    lemma_first_code(after, text, i);
}

/// A code of mode `Once` that is not yet active: a first activation that can
/// be paid for activates it; any later one that can be paid for answers that
/// it is already active, and still charges the inventory for the phrase.
pub proof fn lemma_once_code_charged_again(
    codes: Seq<CheatCode>,
    text: Seq<char>,
    first: (Seq<(Seq<char>, u32)>, Seq<(char, u32)>),
    second: (Seq<(Seq<char>, u32)>, Seq<(char, u32)>),
)
    requires
        find_code(codes, text) is Some,
        codes[find_code(codes, text)->Some_0].activation == CheatCodeActivation::Once,
        !codes[find_code(codes, text)->Some_0].is_active,
        can_pay(codes[find_code(codes, text)->Some_0], first),
        can_pay(codes[find_code(codes, text)->Some_0], second),
    ensures
        ({
            let kind = codes[find_code(codes, text)->Some_0].kind;
            let after = codes_after(codes, text, first);
            &&& outcome(codes, text, first) == CheatCodeActivationResult::Activated(kind)
            &&& inventory_after(codes, text, first) == consume(first, split_words(text))->Some_0
            &&& outcome(after, text, second) == CheatCodeActivationResult::AlreadyActivated(kind)
            &&& inventory_after(after, text, second) == consume(second, split_words(text))->Some_0
            &&& codes_after(after, text, second) == after
        }),
{
    let i = find_code(codes, text)->Some_0;
    assert(is_first_code(codes, text, i)) by {
        lemma_first_code_is_first(codes, text);
    }
    lemma_activation_keeps_match(codes, text, i);
    let after = codes_after(codes, text, first);
    assert(after[i] == CheatCode { is_active: true, ..codes[i] });
    assert(after.update(i, CheatCode { is_active: true, ..after[i] }) =~= after);
}

/// A code of mode `Multiple`: every activation that can be paid for activates
/// it and charges the inventory, and leaves the code matched and of mode
/// `Multiple`, so that the same holds of the next one.
pub proof fn lemma_multiple_code_always_activates(
    codes: Seq<CheatCode>,
    text: Seq<char>,
    inv: (Seq<(Seq<char>, u32)>, Seq<(char, u32)>),
)
    requires
        find_code(codes, text) is Some,
        codes[find_code(codes, text)->Some_0].activation == CheatCodeActivation::Multiple,
        can_pay(codes[find_code(codes, text)->Some_0], inv),
    ensures
        ({
            let i = find_code(codes, text)->Some_0;
            let after = codes_after(codes, text, inv);
            &&& outcome(codes, text, inv) == CheatCodeActivationResult::Activated(codes[i].kind)
            &&& inventory_after(codes, text, inv) == consume(inv, split_words(text))->Some_0
            &&& find_code(after, text) == Some(i)
            &&& after[i].activation == CheatCodeActivation::Multiple
            &&& after[i].is_active
        }),
{
    let i = find_code(codes, text)->Some_0;
    assert(is_first_code(codes, text, i)) by {
        lemma_first_code_is_first(codes, text);
    }
    lemma_activation_keeps_match(codes, text, i);
}

/// The code that `find_code` gives is the first with the phrase.
pub proof fn lemma_first_code_is_first(codes: Seq<CheatCode>, text: Seq<char>)
    requires
        find_code(codes, text) is Some,
    ensures
        is_first_code(codes, text, find_code(codes, text)->Some_0),
{
}

/// Whether an inventory view can pay for the phrase of `code`.
pub open spec fn can_pay(code: CheatCode, inv: (Seq<(Seq<char>, u32)>, Seq<(char, u32)>)) -> bool {
    consume(inv, split_words(code.text@)) is Some
}

/// The outcome of typing `text` (already lower case) against `codes` with
/// inventory `inv`.
pub open spec fn outcome(
    codes: Seq<CheatCode>,
    text: Seq<char>,
    inv: (Seq<(Seq<char>, u32)>, Seq<(char, u32)>),
) -> CheatCodeActivationResult {
    match find_code(codes, text) {
        None => CheatCodeActivationResult::NotFound,
        Some(i) => {
            let code = codes[i];
            if !can_pay(code, inv) {
                CheatCodeActivationResult::InadequateInventory(code.kind)
            } else if code.activation == CheatCodeActivation::Once && code.is_active {
                CheatCodeActivationResult::AlreadyActivated(code.kind)
            } else {
                CheatCodeActivationResult::Activated(code.kind)
            }
        },
    }
}

/// The codes after typing `text`: the matched code turns active once its
/// phrase is paid for.
pub open spec fn codes_after(
    codes: Seq<CheatCode>,
    text: Seq<char>,
    inv: (Seq<(Seq<char>, u32)>, Seq<(char, u32)>),
) -> Seq<CheatCode> {
    match find_code(codes, text) {
        Some(i) => if can_pay(codes[i], inv) {
            codes.update(i, CheatCode { is_active: true, ..codes[i] })
        } else {
            codes
        },
        None => codes,
    }
}

/// The inventory after typing `text`: charged for the matched code's phrase
/// where it can pay, untouched otherwise.
pub open spec fn inventory_after(
    codes: Seq<CheatCode>,
    text: Seq<char>,
    inv: (Seq<(Seq<char>, u32)>, Seq<(char, u32)>),
) -> (Seq<(Seq<char>, u32)>, Seq<(char, u32)>) {
    match find_code(codes, text) {
        Some(i) => match consume(inv, split_words(codes[i].text@)) {
            Some(paid) => paid,
            None => inv,
        },
        None => inv,
    }
}

/// The catalog holds one code for each kind, at the kind's place.
pub open spec fn catalog_wf(codes: Seq<CheatCode>) -> bool {
    &&& codes.len() == KIND_COUNT
    &&& forall|i: int| 0 <= i < codes.len() ==> kind_index(#[trigger] codes[i].kind) == i
}

/// Why a word list cannot be used to build a catalog.
#[derive(PartialEq, Eq, Structural, Clone, Copy, Debug)]
pub enum WordListError {
    /// The bytes are not a RON list of strings.
    Malformed,
    /// The list holds no word.
    Empty,
}

#[verifier::external_type_specification]
#[verifier::external_body]
pub struct ExSpannedError(ron::error::SpannedError);

/// What `ron::de::from_bytes` reads from a text as a list of strings, or
/// `None` where it fails.
pub uninterp spec fn ron_word_list(bytes: Seq<u8>) -> Option<Seq<Seq<char>>>;

/// Relies on `ron::de::from_bytes`, read as a list of strings: whether it
/// succeeds, and the list it gives, depend on the bytes alone.
#[verifier::external_body]
fn parse_word_list(bytes: &[u8]) -> (r: Result<Vec<String>, ron::error::SpannedError>)
    ensures
        (r is Ok) == (ron_word_list(bytes@) is Some),
        r matches Ok(words) ==> ron_word_list(bytes@) == Some(words_view(words@)),
{
    ron::de::from_bytes::<Vec<String>>(bytes)
}

/// Whether `codes` is a fresh catalog built from `master`: one inactive code
/// per kind, in the kinds' order, with the kind's image, help text and mode,
/// and phrases drawn one code after the other from one pool that starts as
/// the master list.
pub open spec fn built_from(codes: Seq<CheatCode>, master: Seq<Seq<char>>) -> bool {
    &&& codes.len() == KIND_COUNT
    &&& forall|i: int|
        0 <= i < KIND_COUNT ==> {
            let code = #[trigger] codes[i];
            &&& code.kind == kind_at(i)
            &&& code.image@ == kind_image(code.kind)
            &&& code.help_text@ == kind_help(code.kind)
            &&& code.activation == kind_mode(code.kind)
            &&& !code.is_active
        }
    &&& exists|pools: Seq<Seq<Seq<char>>>|
        {
            &&& pools.len() == KIND_COUNT + 1
            &&& pools[0] == master
            &&& forall|i: int|
                0 <= i < KIND_COUNT ==> generated(
                    #[trigger] pools[i],
                    master,
                    pools[i + 1],
                    codes[i].text@,
                )
        }
}

/// Adds to `codes` a code of `kind` whose phrase is drawn from `word_list`.
pub fn insert_cheat(
    word_list: &mut Vec<String>,
    master: &Vec<String>,
    codes: &mut Vec<CheatCode>,
    kind: CheatCodeKind,
    image_path: &str,
    help_text: &str,
    activation: CheatCodeActivation,
    is_active: bool,
)
    requires
        master@.len() > 0,
    ensures
        final(codes)@.len() == old(codes)@.len() + 1,
        final(codes)@.drop_last() == old(codes)@,
        final(codes)@.last().kind == kind,
        final(codes)@.last().image@ == image_path@,
        final(codes)@.last().help_text@ == help_text@,
        final(codes)@.last().activation == activation,
        final(codes)@.last().is_active == is_active,
        generated(
            words_view(old(word_list)@),
            words_view(master@),
            words_view(final(word_list)@),
            final(codes)@.last().text@,
        ),
{
    let text = generate_random_code(word_list, master);
    let code = CheatCode::new(
        kind,
        text.as_str(),
        String::from_str(image_path),
        String::from_str(help_text),
        activation,
        is_active,
    );
    codes.push(code);
    assert(codes@.drop_last() =~= old(codes)@);
}

/// The catalog of cheat codes.
pub struct CheatCodesResource {
    pub codes: Vec<CheatCode>,
}

impl CheatCodesResource {
    pub open spec fn wf(&self) -> bool {
        catalog_wf(self.codes@)
    }

    /// The code of `kind`.
    pub open spec fn code_of(&self, kind: CheatCodeKind) -> CheatCode {
        self.codes@[kind_index(kind)]
    }

    /// Builds the catalog from a word list in RON: a malformed text or an
    /// empty list is refused.
    pub fn new(word_list: &[u8]) -> (r: Result<Self, WordListError>)
        ensures
            match ron_word_list(word_list@) {
                None => r == Err::<Self, WordListError>(WordListError::Malformed),
                Some(words) => if words.len() == 0 {
                    r == Err::<Self, WordListError>(WordListError::Empty)
                } else {
                    r matches Ok(catalog) && catalog.wf() && built_from(catalog.codes@, words)
                },
            },
    {
        match parse_word_list(word_list) {
            Err(_) => Err(WordListError::Malformed),
            Ok(words) => {
                if words.len() == 0 {
                    Err(WordListError::Empty)
                } else {
                    Ok(Self::from_word_list(&words))
                }
            },
        }
    }

    /// Builds the catalog: one inactive code per kind, its phrase drawn from a
    /// pool that all the codes share and that starts as `master`.
    pub fn from_word_list(master: &Vec<String>) -> (r: Self)
        requires
            master@.len() > 0,
        ensures
            r.wf(),
            built_from(r.codes@, words_view(master@)),
    {
        let ghost m = words_view(master@);
        let mut pool = copy_words(master);
        let mut codes: Vec<CheatCode> = Vec::new();
        let ghost p0 = words_view(pool@);
        insert_cheat(
            &mut pool,
            master,
            &mut codes,
            CheatCodeKind::Jump,
            "jump.png",
            "Press the spacebar to jump.",
            CheatCodeActivation::Once,
            false,
        );
        let ghost p1 = words_view(pool@);
        let ghost c1 = codes@;
        insert_cheat(
            &mut pool,
            master,
            &mut codes,
            CheatCodeKind::MoveLeft,
            "move_left.png",
            "Press 'A' to move left.",
            CheatCodeActivation::Once,
            false,
        );
        let ghost p2 = words_view(pool@);
        let ghost c2 = codes@;
        insert_cheat(
            &mut pool,
            master,
            &mut codes,
            CheatCodeKind::SpeedBoost,
            "speed.png",
            "Movement enhanced.",
            CheatCodeActivation::Multiple,
            false,
        );
        let ghost p3 = words_view(pool@);
        let ghost c3 = codes@;
        insert_cheat(
            &mut pool,
            master,
            &mut codes,
            CheatCodeKind::Dash,
            "dash.png",
            "Double tap 'D' to dash.",
            CheatCodeActivation::Once,
            false,
        );
        let ghost p4 = words_view(pool@);
        let ghost c4 = codes@;
        insert_cheat(
            &mut pool,
            master,
            &mut codes,
            CheatCodeKind::ExtraLife,
            "extra_life.png",
            "Extra life granted.",
            CheatCodeActivation::Multiple,
            false,
        );
        let ghost p5 = words_view(pool@);
        let ghost c5 = codes@;
        proof {
            let pools = seq![p0, p1, p2, p3, p4, p5];
            assert(pools[0] == m);
            assert(c5.drop_last() == c4 && c4.drop_last() == c3 && c3.drop_last() == c2
                && c2.drop_last() == c1);
            assert(c5[4] == c5.last());
            assert(c5[3] == c4.last());
            assert(c5[2] == c3.last());
            assert(c5[1] == c2.last());
            assert(c5[0] == c1.last());
            assert(forall|i: int|
                0 <= i < KIND_COUNT ==> generated(
                    #[trigger] pools[i],
                    m,
                    pools[i + 1],
                    codes@[i].text@,
                ));
            assert(pools.len() == KIND_COUNT + 1);
        }
        CheatCodesResource { codes }
    }

    /// Whether the code of `kind` is active.
    pub fn is_code_active(&self, kind: &CheatCodeKind) -> (r: bool)
        requires
            self.wf(),
        ensures
            r == self.code_of(*kind).is_active,
    {
        self.codes[kind.index()].is_active
    }

    /// Attempts to activate the code whose phrase is `text`, case aside,
    /// paying for it out of `inventory`.
    pub fn activate_code(&mut self, text: &str, inventory: &mut Inventory) -> (r:
        CheatCodeActivationResult)
        requires
            old(self).wf(),
        ensures
            final(self).wf(),
            r == outcome(old(self).codes@, lower_of(text@), old(inventory)@),
            final(self).codes@ == codes_after(old(self).codes@, lower_of(text@), old(inventory)@),
            final(inventory)@ == inventory_after(
                old(self).codes@,
                lower_of(text@),
                old(inventory)@,
            ),
            (forall|i: int|
                0 <= i < old(self).codes@.len() ==> old(self).codes@[i].text@ != lower_of(text@))
                ==> r == CheatCodeActivationResult::NotFound && final(inventory)@ == old(
                inventory,
            )@,
    {
        let lowered = lowercase(text);
        self.activate_lowercase(&lowered, inventory)
    }

    /// Attempts to activate the code whose phrase is exactly `text`, paying for
    /// it out of `inventory`. A code of mode `Once` that is already active
    /// still charges the inventory.
    pub fn activate_lowercase(&mut self, text: &String, inventory: &mut Inventory) -> (r:
        CheatCodeActivationResult)
        requires
            old(self).wf(),
        ensures
            final(self).wf(),
            r == outcome(old(self).codes@, text@, old(inventory)@),
            final(self).codes@ == codes_after(old(self).codes@, text@, old(inventory)@),
            final(inventory)@ == inventory_after(old(self).codes@, text@, old(inventory)@),
    {
        let ghost codes = self.codes@;
        let mut i: usize = 0;
        while i < self.codes.len()
            invariant
                self.codes@ == codes,
                codes == old(self).codes@,
                catalog_wf(codes),
                *inventory == *old(inventory),
                i <= codes.len(),
                forall|j: int| 0 <= j < i ==> codes[j].text@ != text@,
            decreases codes.len() - i,
        {
            if self.codes[i].text == *text {
                proof {
                    lemma_first_code(codes, text@, i as int);
                }
                let kind = self.codes[i].kind;
                let activation = self.codes[i].activation;
                let was_active = self.codes[i].is_active;
                if !Self::check_inventory(self.codes[i].text.as_str(), inventory) {
                    return CheatCodeActivationResult::InadequateInventory(kind);
                }
                self.codes[i].is_active = true;
                assert(self.codes@ =~= codes.update(
                    i as int,
                    CheatCode { is_active: true, ..codes[i as int] },
                ));
                if activation == CheatCodeActivation::Once && was_active {
                    return CheatCodeActivationResult::AlreadyActivated(kind);
                }
                return CheatCodeActivationResult::Activated(kind);
            }
            i = i + 1;
        }
        assert(!exists|k: int| is_first_code(codes, text@, k));
        CheatCodeActivationResult::NotFound
    }

    /// Pays for the phrase `code_text` out of `inventory`, all or nothing.
    pub fn check_inventory(code_text: &str, inventory: &mut Inventory) -> (r: bool)
        ensures
            r == (consume(old(inventory)@, split_words(code_text@)) is Some),
            r ==> final(inventory)@ == consume(old(inventory)@, split_words(code_text@))->Some_0,
            !r ==> *final(inventory) == *old(inventory),
    {
        let words = split_phrase(code_text);
        inventory.try_consume(&words)
    }
}

} // verus!
