use vstd::prelude::*;

verus! {

/// Whether `i` is the first position of `entries` whose key is `key`.
pub open spec fn is_first_key<K>(entries: Seq<(K, u32)>, key: K, i: int) -> bool {
    &&& 0 <= i < entries.len()
    &&& entries[i].0 == key
    &&& forall|j: int| 0 <= j < i ==> entries[j].0 != key
}

/// The count that `entries` holds for `key`: that of its first entry with this
/// key, or zero where it has none.
pub open spec fn count_of<K>(entries: Seq<(K, u32)>, key: K) -> nat {
    if exists|i: int| is_first_key(entries, key, i) {
        entries[choose|i: int| is_first_key(entries, key, i)].1 as nat
    } else {
        0
    }
}

/// `entries` with the count of `key` one lower (left as it is where that count
/// is zero).
pub open spec fn take_one<K>(entries: Seq<(K, u32)>, key: K) -> Seq<(K, u32)> {
    if count_of(entries, key) > 0 {
        let i = choose|i: int| is_first_key(entries, key, i);
        entries.update(i, (key, (entries[i].1 - 1) as u32))
    } else {
        entries
    }
}

/// The keycaps left after paying one for each character of `word`, one after
/// the other; `None` where some character finds none left.
pub open spec fn take_keycaps(keycaps: Seq<(char, u32)>, word: Seq<char>) -> Option<
    Seq<(char, u32)>,
>
    decreases word.len(),
{
    if word.len() == 0 {
        Some(keycaps)
    } else if count_of(keycaps, word[0]) == 0 {
        None
    } else {
        take_keycaps(take_one(keycaps, word[0]), word.drop_first())
    }
}

/// The inventory left after paying for the words of `phrase` in order: a word
/// still held whole costs that word, any other costs one keycap for each of its
/// characters. `None` where some word can be paid neither way; then nothing is
/// paid at all.
pub open spec fn consume(
    inv: (Seq<(Seq<char>, u32)>, Seq<(char, u32)>),
    phrase: Seq<Seq<char>>,
) -> Option<(Seq<(Seq<char>, u32)>, Seq<(char, u32)>)>
    decreases phrase.len(),
{
    if phrase.len() == 0 {
        Some(inv)
    } else if count_of(inv.0, phrase[0]) > 0 {
        consume((take_one(inv.0, phrase[0]), inv.1), phrase.drop_first())
    } else {
        match take_keycaps(inv.1, phrase[0]) {
            Some(rest) => consume((inv.0, rest), phrase.drop_first()),
            None => None,
        }
    }
}

/// The word entries as character sequences.
pub open spec fn word_entries(entries: Seq<(String, u32)>) -> Seq<(Seq<char>, u32)> {
    entries.map_values(|e: (String, u32)| (e.0@, e.1))
}

/// The words of a phrase as character sequences.
pub open spec fn phrase_view(phrase: Seq<String>) -> Seq<Seq<char>> {
    phrase.map_values(|w: String| w@)
}

/// The player's resource store: collected whole words and single characters
/// (keycaps), each with a count. A key that no entry names has count zero.
pub struct Inventory {
    pub keycaps: Vec<(char, u32)>,
    pub words: Vec<(String, u32)>,
}

impl View for Inventory {
    /// The word entries, as character sequences, and the keycap entries.
    type V = (Seq<(Seq<char>, u32)>, Seq<(char, u32)>);

    open spec fn view(&self) -> Self::V {
        (word_entries(self.words@), self.keycaps@)
    }
}

/// How many of `word` an inventory view holds.
pub open spec fn word_count(inv: (Seq<(Seq<char>, u32)>, Seq<(char, u32)>), word: Seq<char>) -> nat {
    count_of(inv.0, word)
}

/// How many keycaps of `c` an inventory view holds.
pub open spec fn keycap_count(inv: (Seq<(Seq<char>, u32)>, Seq<(char, u32)>), c: char) -> nat {
    count_of(inv.1, c)
}

impl Inventory {
    /// Pays for the words of `phrase`, all or nothing: each word still held
    /// whole costs that word, each other word one keycap for each of its
    /// characters (a repeated character costs as many). Returns false, and
    /// leaves the inventory exactly as it was, where some word can be paid
    /// neither way.
    pub fn try_consume(&mut self, phrase: &Vec<String>) -> (r: bool)
        ensures
            r == (consume(old(self)@, phrase_view(phrase@)) is Some),
            r ==> final(self)@ == consume(old(self)@, phrase_view(phrase@))->Some_0,
            !r ==> *final(self) == *old(self),
    {
        let ghost p = phrase_view(phrase@);
        let mut words = copy_words(&self.words);
        let mut keycaps = copy_keycaps(&self.keycaps);
        assert(p.skip(0) =~= p);
        for i in 0..phrase.len()
            invariant
                p == phrase_view(phrase@),
                self == old(self),
                consume(self@, p) == consume((word_entries(words@), keycaps@), p.skip(i as int)),
        {
            let w = &phrase[i];
            let ghost ws = word_entries(words@);
            let ghost ks = keycaps@;
            assert(p.skip(i as int).drop_first() =~= p.skip(i + 1));
            assert(p.skip(i as int)[0] == w@);
            let mut paid_whole = false;
            match find_word(&words, w) {
                Some(k) => {
                    proof {
                        lemma_first_key(ws, w@, k as int);
                    }
                    let n = words[k].1;
                    if n > 0 {
                        let key = words[k].0.clone();
                        words.set(k, (key, n - 1));
                        assert(word_entries(words@) =~= take_one(ws, w@));
                        paid_whole = true;
                    }
                },
                None => {
                    proof {
                        lemma_absent_key(ws, w@);
                    }
                },
            }
            if !paid_whole {
                if !take_keycaps_exec(&mut keycaps, w) {
                    return false;
                }
            }
        }
        assert(p.skip(phrase.len() as int) =~= Seq::<Seq<char>>::empty());
        self.words = words;
        self.keycaps = keycaps;
        true
    }

    /// How many keycaps of `c` the inventory holds.
    pub fn keycap_count(&self, c: char) -> (r: u32)
        ensures
            r == keycap_count(self@, c),
    {
        match find_keycap(&self.keycaps, c) {
            Some(i) => {
                proof {
                    lemma_first_key(self.keycaps@, c, i as int);
                }
                self.keycaps[i].1
            },
            None => {
                proof {
                    lemma_absent_key(self.keycaps@, c);
                }
                0
            },
        }
    }

    /// How many of the whole word `w` the inventory holds.
    pub fn word_count(&self, w: &String) -> (r: u32)
        ensures
            r == word_count(self@, w@),
    {
        match find_word(&self.words, w) {
            Some(i) => {
                proof {
                    lemma_first_key(self@.0, w@, i as int);
                }
                self.words[i].1
            },
            None => {
                proof {
                    lemma_absent_key(self@.0, w@);
                }
                0
            },
        }
    }

    /// Sets the count of keycap `c` to `n`.
    pub fn set_keycap(&mut self, c: char, n: u32)
        ensures
            keycap_count(final(self)@, c) == n,
            forall|other: char|
                other != c ==> keycap_count(final(self)@, other) == keycap_count(old(self)@, other),
            final(self)@.0 == old(self)@.0,
    {
        match find_keycap(&self.keycaps, c) {
            Some(i) => {
                self.keycaps.set(i, (c, n));
                proof {
                    assert(is_first_key(self.keycaps@, c, i as int));
                    lemma_first_key(self.keycaps@, c, i as int);
                }
            },
            None => {
                let ghost before = self.keycaps@;
                self.keycaps.push((c, n));
                proof {
                    assert(is_first_key(self.keycaps@, c, before.len() as int));
                    lemma_first_key(self.keycaps@, c, before.len() as int);
                }
            },
        }
        proof {
            assert forall|other: char| other != c implies keycap_count(self@, other)
                == keycap_count(old(self)@, other) by {
                lemma_set_other(old(self).keycaps@, c, n, other);
            }
        }
    }

    /// Sets the count of the whole word `w` to `n`.
    pub fn set_word(&mut self, w: &String, n: u32)
        ensures
            word_count(final(self)@, w@) == n,
            forall|other: Seq<char>|
                other != w@ ==> word_count(final(self)@, other) == word_count(old(self)@, other),
            final(self)@.1 == old(self)@.1,
    {
        let key = w.clone();
        match find_word(&self.words, w) {
            Some(i) => {
                self.words.set(i, (key, n));
                proof {
                    assert(self@.0 =~= old(self)@.0.update(i as int, (w@, n)));
                    assert(is_first_key(self@.0, w@, i as int));
                    lemma_first_key(self@.0, w@, i as int);
                }
            },
            None => {
                let ghost len = self.words@.len();
                self.words.push((key, n));
                proof {
                    assert(self@.0 =~= old(self)@.0.push((w@, n)));
                    assert(is_first_key(self@.0, w@, len as int));
                    lemma_first_key(self@.0, w@, len as int);
                }
            },
        }
        proof {
            assert forall|other: Seq<char>| other != w@ implies word_count(self@, other)
                == word_count(old(self)@, other) by {
                lemma_set_other(old(self)@.0, w@, n, other);
            }
        }
    }

    /// An empty inventory.
    pub fn new() -> (r: Inventory)
        ensures
            forall|w: Seq<char>| word_count(r@, w) == 0,
            forall|c: char| keycap_count(r@, c) == 0,
    {
        Inventory { keycaps: Vec::new(), words: Vec::new() }
    }
}

/// Giving `key` a count leaves the count of every other key as it was.
pub proof fn lemma_set_other<K>(entries: Seq<(K, u32)>, key: K, n: u32, other: K)
    requires
        other != key,
    ensures
        forall|i: int|
            is_first_key(entries, key, i) ==> count_of(entries.update(i, (key, n)), other)
                == count_of(entries, other),
        count_of(entries.push((key, n)), other) == count_of(entries, other),
{
    assert forall|i: int| is_first_key(entries, key, i) implies count_of(
        entries.update(i, (key, n)),
        other,
    ) == count_of(entries, other) by {
        lemma_set_other_at(entries, entries.update(i, (key, n)), other);
    }
    lemma_set_other_at(entries, entries.push((key, n)), other);
}

proof fn lemma_set_other_at<K>(entries: Seq<(K, u32)>, changed: Seq<(K, u32)>, other: K)
    requires
        entries.len() <= changed.len(),
        forall|j: int|
            0 <= j < changed.len() && (changed[j].0 == other || (j < entries.len()
                && entries[j].0 == other)) ==> j < entries.len() && changed[j] == entries[j],
    ensures
        count_of(changed, other) == count_of(entries, other),
{
    if exists|j: int| is_first_key(entries, other, j) {
        let j = choose|j: int| is_first_key(entries, other, j);
        assert(is_first_key(changed, other, j));
        lemma_first_key(entries, other, j);
        lemma_first_key(changed, other, j);
    } else if exists|j: int| is_first_key(changed, other, j) {
        let j = choose|j: int| is_first_key(changed, other, j);
        assert(is_first_key(entries, other, j));
    }
}

/// How many times `c` occurs in `word`.
pub open spec fn occurrences(word: Seq<char>, c: char) -> nat
    decreases word.len(),
{
    if word.len() == 0 {
        0
    } else {
        (if word[0] == c { 1nat } else { 0nat }) + occurrences(word.drop_first(), c)
    }
}

/// Taking one unit of `key` lowers its count by one and no other.
pub proof fn lemma_take_one_counts<K>(entries: Seq<(K, u32)>, key: K)
    requires
        count_of(entries, key) > 0,
    ensures
        count_of(take_one(entries, key), key) == count_of(entries, key) - 1,
        forall|other: K|
            other != key ==> count_of(take_one(entries, key), other) == count_of(entries, other),
{
    let i = choose|i: int| is_first_key(entries, key, i);
    lemma_first_key(entries, key, i);
    let n = (entries[i].1 - 1) as u32;
    let after = entries.update(i, (key, n));
    assert(is_first_key(after, key, i));
    lemma_first_key(after, key, i);
    assert forall|other: K| other != key implies count_of(take_one(entries, key), other)
        == count_of(entries, other) by {
        lemma_set_other(entries, key, n, other);
    }
}

/// A word paid in keycaps costs one unit per occurrence of each character: the
/// payment succeeds exactly when every character is held at least as many
/// times as it occurs in the word, and takes exactly that many.
pub proof fn lemma_keycaps_cover_word(keycaps: Seq<(char, u32)>, word: Seq<char>)
    ensures
        (take_keycaps(keycaps, word) is Some) <==> forall|c: char|
            occurrences(word, c) <= #[trigger] count_of(keycaps, c),
        take_keycaps(keycaps, word) matches Some(rest) ==> forall|c: char|
            #[trigger] count_of(rest, c) == count_of(keycaps, c) - occurrences(word, c),
    decreases word.len(),
{
    if word.len() > 0 {
        let c0 = word[0];
        let tail = word.drop_first();
        if count_of(keycaps, c0) == 0 {
            assert(occurrences(word, c0) > count_of(keycaps, c0));
        } else {
            let next = take_one(keycaps, c0);
            lemma_take_one_counts(keycaps, c0);
            lemma_keycaps_cover_word(next, tail);
            assert forall|c: char| occurrences(tail, c) <= #[trigger] count_of(next, c)
                <==> occurrences(word, c) <= count_of(keycaps, c) by {
                if c != c0 {
                    assert(count_of(next, c) == count_of(keycaps, c));
                }
            }
            if take_keycaps(keycaps, word) is Some {
                assert(forall|c: char| occurrences(tail, c) <= #[trigger] count_of(next, c));
            } else {
                assert(!forall|c: char| occurrences(tail, c) <= #[trigger] count_of(next, c));
            }
            if take_keycaps(next, tail) is Some {
                let rest = take_keycaps(next, tail)->Some_0;
                assert forall|c: char| #[trigger] count_of(rest, c) == count_of(keycaps, c)
                    - occurrences(word, c) by {
                    if c != c0 {
                        assert(count_of(next, c) == count_of(keycaps, c));
                    }
                }
            }
        }
    }
}

/// The position of the first entry for `key`, if any.
fn find_keycap(entries: &Vec<(char, u32)>, key: char) -> (r: Option<usize>)
    ensures
        match r {
            Some(i) => is_first_key(entries@, key, i as int),
            None => forall|j: int| 0 <= j < entries@.len() ==> entries@[j].0 != key,
        },
{
    let mut i: usize = 0;
    while i < entries.len()
        invariant
            i <= entries@.len(),
            forall|j: int| 0 <= j < i ==> entries@[j].0 != key,
        decreases entries@.len() - i,
    {
        if entries[i].0 == key {
            return Some(i);
        }
        i = i + 1;
    }
    None
}


/// The first entry for a key is the one that `count_of` and `take_one` read.
pub proof fn lemma_first_key<K>(entries: Seq<(K, u32)>, key: K, i: int)
    requires
        is_first_key(entries, key, i),
    ensures
        count_of(entries, key) == entries[i].1,
        count_of(entries, key) > 0 ==> take_one(entries, key) == entries.update(
            i,
            (key, (entries[i].1 - 1) as u32),
        ),
{
    let c = choose|c: int| is_first_key(entries, key, c);
    assert(is_first_key(entries, key, c));
    if c < i {
        assert(entries[c].0 != key);
    } else if i < c {
        assert(entries[i].0 != key);
    }
}

/// A key that no entry names has count zero.
pub proof fn lemma_absent_key<K>(entries: Seq<(K, u32)>, key: K)
    requires
        forall|j: int| 0 <= j < entries.len() ==> entries[j].0 != key,
    ensures
        count_of(entries, key) == 0,
        take_one(entries, key) == entries,
{
    assert(!exists|i: int| is_first_key(entries, key, i));
}

/// The position of the first entry for `key`, if any.
fn find_word(entries: &Vec<(String, u32)>, key: &String) -> (r: Option<usize>)
    ensures
        match r {
            Some(i) => is_first_key(word_entries(entries@), key@, i as int),
            None => forall|j: int|
                0 <= j < entries@.len() ==> word_entries(entries@)[j].0 != key@,
        },
{
    let mut i: usize = 0;
    while i < entries.len()
        invariant
            i <= entries@.len(),
            forall|j: int| 0 <= j < i ==> word_entries(entries@)[j].0 != key@,
        decreases entries@.len() - i,
    {
        if entries[i].0 == *key {
            return Some(i);
        }
        i = i + 1;
    }
    None
}

/// A copy of the keycap entries.
fn copy_keycaps(entries: &Vec<(char, u32)>) -> (r: Vec<(char, u32)>)
    ensures
        r@ == entries@,
{
    let mut r: Vec<(char, u32)> = Vec::new();
    for i in 0..entries.len()
        invariant
            r@ == entries@.take(i as int),
    {
        r.push(entries[i]);
        assert(r@ =~= entries@.take(i + 1));
    }
    assert(r@ =~= entries@);
    r
}

/// A copy of the word entries.
fn copy_words(entries: &Vec<(String, u32)>) -> (r: Vec<(String, u32)>)
    ensures
        word_entries(r@) == word_entries(entries@),
{
    let mut r: Vec<(String, u32)> = Vec::new();
    for i in 0..entries.len()
        invariant
            r@.len() == i,
            forall|k: int|
                0 <= k < i ==> r@[k].0@ == entries@[k].0@ && r@[k].1 == entries@[k].1,
    {
        let w = entries[i].0.clone();
        r.push((w, entries[i].1));
    }
    assert(word_entries(r@) =~= word_entries(entries@));
    r
}

/// Pays one keycap for each character of `word` out of `keycaps`, in order.
/// Where some character finds none left, returns false; `keycaps` may then hold
/// part of the payment, and the caller drops it.
fn take_keycaps_exec(keycaps: &mut Vec<(char, u32)>, word: &String) -> (r: bool)
    ensures
        r == (take_keycaps(old(keycaps)@, word@) is Some),
        r ==> final(keycaps)@ == take_keycaps(old(keycaps)@, word@)->Some_0,
{
    let n = word.as_str().unicode_len();
    let ghost start = keycaps@;
    assert(word@.skip(0) =~= word@);
    for j in 0..n
        invariant
            n == word@.len(),
            start == old(keycaps)@,
            take_keycaps(start, word@) == take_keycaps(keycaps@, word@.skip(j as int)),
    {
        let c = word.as_str().get_char(j);
        let ghost before = keycaps@;
        assert(word@.skip(j as int).drop_first() =~= word@.skip(j + 1));
        assert(word@.skip(j as int)[0] == c);
        match find_keycap(keycaps, c) {
            None => {
                proof {
                    lemma_absent_key(before, c);
                }
                assert(take_keycaps(before, word@.skip(j as int)) is None);
                return false;
            },
            Some(i) => {
                proof {
                    lemma_first_key(before, c, i as int);
                }
                let n_c = keycaps[i].1;
                if n_c == 0 {
                    assert(take_keycaps(before, word@.skip(j as int)) is None);
                    return false;
                }
                keycaps.set(i, (c, n_c - 1));
                assert(keycaps@ =~= take_one(before, c));
            },
        }
    }
    assert(word@.skip(n as int) =~= Seq::<char>::empty());
    true
}

} // verus!
