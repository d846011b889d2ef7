use vstd::prelude::*;

verus! {

/// The character that separates the words of a phrase.
pub const SEPARATOR: char = '-';

/// What `str::to_lowercase` makes of a text.
pub uninterp spec fn lower_of(s: Seq<char>) -> Seq<char>;

/// Relies on `str::to_lowercase`: its result depends on the characters of the
/// text alone.
#[verifier::external_body]
pub(crate) fn lowercase(s: &str) -> (r: String)
    ensures
        r@ == lower_of(s@),
{
    s.to_lowercase()
}

/// Relies on `String::push`: appends one character.
#[verifier::external_body]
pub(crate) fn push_char(s: &mut String, c: char)
    ensures
        final(s)@ == old(s)@.push(c),
{
    s.push(c)
}

/// The pieces of `text`, as `str::split` on `sep` gives them: the text between
/// two separators, before the first, and after the last (an empty text is one
/// empty piece).
pub open spec fn split_on(text: Seq<char>, sep: char) -> Seq<Seq<char>>
    decreases text.len(),
{
    if text.len() == 0 {
        seq![Seq::<char>::empty()]
    } else {
        let before = split_on(text.drop_last(), sep);
        if text.last() == sep {
            before.push(Seq::<char>::empty())
        } else {
            before.update(before.len() - 1, before.last().push(text.last()))
        }
    }
}

/// The words of a phrase.
pub open spec fn split_words(text: Seq<char>) -> Seq<Seq<char>> {
    split_on(text, SEPARATOR)
}

/// `words` joined into one text, with a separator between two words.
pub open spec fn join_words(words: Seq<Seq<char>>) -> Seq<char>
    decreases words.len(),
{
    if words.len() == 0 {
        Seq::<char>::empty()
    } else if words.len() == 1 {
        words[0]
    } else {
        join_words(words.drop_last()) + seq![SEPARATOR] + words.last()
    }
}

/// Splitting yields at least one word.
pub proof fn lemma_split_nonempty(text: Seq<char>, sep: char)
    ensures
        split_on(text, sep).len() >= 1,
    decreases text.len(),
{
    if text.len() > 0 {
        lemma_split_nonempty(text.drop_last(), sep);
    }
}

/// Text without a separator extends the last piece.
proof fn lemma_split_append(text: Seq<char>, tail: Seq<char>, sep: char)
    requires
        !tail.contains(sep),
    ensures
        ({
            let pieces = split_on(text, sep);
            split_on(text + tail, sep) == pieces.update(
                pieces.len() - 1,
                pieces.last() + tail,
            )
        }),
    decreases tail.len(),
{
    let pieces = split_on(text, sep);
    lemma_split_nonempty(text, sep);
    if tail.len() == 0 {
        assert(text + tail =~= text);
        assert(pieces.last() + tail =~= pieces.last());
        assert(pieces.update(pieces.len() - 1, pieces.last() + tail) =~= pieces);
    } else {
        let front = tail.drop_last();
        assert(!front.contains(sep)) by {
            if front.contains(sep) {
                let j = choose|j: int| 0 <= j < front.len() && front[j] == sep;
                assert(tail[j] == sep);
            }
        }
        lemma_split_append(text, front, sep);
        assert((text + tail).drop_last() =~= text + front);
        assert((text + tail).last() == tail.last());
        assert(tail.last() != sep) by {
            assert(tail[tail.len() - 1] == tail.last());
        }
        let mid = pieces.update(pieces.len() - 1, pieces.last() + front);
        assert(mid.last() == pieces.last() + front);
        assert((pieces.last() + front).push(tail.last()) =~= pieces.last() + tail);
        assert(mid.update(mid.len() - 1, mid.last().push(tail.last())) =~= pieces.update(
            pieces.len() - 1,
            pieces.last() + tail,
        ));
    }
}

/// A phrase joined from words that hold no separator splits back into exactly
/// those words.
pub proof fn lemma_split_join(words: Seq<Seq<char>>)
    requires
        words.len() >= 1,
        forall|k: int| 0 <= k < words.len() ==> !(#[trigger] words[k]).contains(SEPARATOR),
    ensures
        split_words(join_words(words)) == words,
    decreases words.len(),
{
    if words.len() == 1 {
        lemma_split_append(Seq::<char>::empty(), words[0], SEPARATOR);
        assert(Seq::<char>::empty() + words[0] =~= words[0]);
        assert(split_on(Seq::<char>::empty(), SEPARATOR) == seq![Seq::<char>::empty()]);
        assert(seq![Seq::<char>::empty()].update(0, Seq::<char>::empty() + words[0]) =~= words);
    } else {
        let front = words.drop_last();
        assert forall|k: int| 0 <= k < front.len() implies !(#[trigger] front[k]).contains(
            SEPARATOR,
        ) by {
            assert(front[k] == words[k]);
        }
        lemma_split_join(front);
        let head = join_words(front) + seq![SEPARATOR];
        assert(head.drop_last() =~= join_words(front));
        assert(split_on(head, SEPARATOR) == split_on(join_words(front), SEPARATOR).push(
            Seq::<char>::empty(),
        ));
        assert(!words.last().contains(SEPARATOR)) by {
            assert(words[words.len() - 1] == words.last());
        }
        lemma_split_append(head, words.last(), SEPARATOR);
        assert(Seq::<char>::empty() + words.last() =~= words.last());
        assert(front.push(Seq::<char>::empty()).update(
            front.len() as int,
            Seq::<char>::empty() + words.last(),
        ) =~= words);
    }
}

/// The words of the phrase `text`.
pub fn split_phrase(text: &str) -> (r: Vec<String>)
    ensures
        r@.map_values(|w: String| w@) == split_words(text@),
{
    split_text(text, SEPARATOR)
}

/// The pieces of `text` between occurrences of `sep`.
pub fn split_text(text: &str, sep: char) -> (r: Vec<String>)
    ensures
        r@.map_values(|w: String| w@) == split_on(text@, sep),
{
    let n = text.unicode_len();
    let mut words: Vec<String> = Vec::new();
    let mut current = String::new();
    assert(text@.take(0) =~= Seq::<char>::empty());
    for j in 0..n
        invariant
            n == text@.len(),
            words@.map_values(|w: String| w@).push(current@) == split_on(text@.take(j as int), sep),
    {
        let c = text.get_char(j);
        let ghost prefix = text@.take(j + 1);
        assert(prefix.drop_last() =~= text@.take(j as int));
        assert(prefix.last() == c);
        proof {
            lemma_split_nonempty(text@.take(j as int), sep);
        }
        if c == sep {
            words.push(current);
            current = String::new();
            assert(words@.map_values(|w: String| w@).push(current@) =~= split_on(prefix, sep));
        } else {
            let ghost before = words@.map_values(|w: String| w@).push(current@);
            push_char(&mut current, c);
            assert(words@.map_values(|w: String| w@).push(current@) =~= before.update(
                before.len() - 1,
                before.last().push(c),
            ));
        }
    }
    assert(text@.take(n as int) =~= text@);
    words.push(current);
    assert(words@.map_values(|w: String| w@) =~= split_on(text@, sep));
    words
}

} // verus!
