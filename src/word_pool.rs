use rand::seq::IteratorRandom;
use vstd::prelude::*;

use crate::phrase::{join_words, push_char, SEPARATOR};
use vstd::string::StringExecFns;

verus! {

/// The words of a list as character sequences.
pub open spec fn words_view(words: Seq<String>) -> Seq<Seq<char>> {
    words.map_values(|w: String| w@)
}

/// One draw: the word at `index` leaves the pool, and a pool left empty is
/// refilled with the whole master list. Gives the pool after the draw and the
/// word drawn.
pub open spec fn draw(pool: Seq<Seq<char>>, master: Seq<Seq<char>>, index: int) -> (
    Seq<Seq<char>>,
    Seq<char>,
) {
    let rest = pool.remove(index);
    (if rest.len() == 0 { master } else { rest }, pool[index])
}

/// Whether each pick is a position in the pool as it stands when it is made.
pub open spec fn valid_picks(pool: Seq<Seq<char>>, master: Seq<Seq<char>>, picks: Seq<int>) -> bool
    decreases picks.len(),
{
    picks.len() == 0 || (0 <= picks[0] < pool.len() && valid_picks(
        draw(pool, master, picks[0]).0,
        master,
        picks.drop_first(),
    ))
}

/// The draws at `picks`, one after the other: the pool after the last one, and
/// the words drawn in order.
pub open spec fn draws(pool: Seq<Seq<char>>, master: Seq<Seq<char>>, picks: Seq<int>) -> (
    Seq<Seq<char>>,
    Seq<Seq<char>>,
)
    decreases picks.len(),
{
    if picks.len() == 0 {
        (pool, Seq::<Seq<char>>::empty())
    } else {
        let (next, word) = draw(pool, master, picks[0]);
        let (last, words) = draws(next, master, picks.drop_first());
        (last, seq![word] + words)
    }
}

/// How many words a phrase has.
pub const PHRASE_WORDS: usize = 3;

/// The pool that a phrase is drawn from: the given one, or the master list
/// where the given one is empty.
pub open spec fn starting_pool(pool: Seq<Seq<char>>, master: Seq<Seq<char>>) -> Seq<Seq<char>> {
    if pool.len() == 0 {
        master
    } else {
        pool
    }
}

/// Whether drawing a phrase from `pool` can leave the pool as `after` and give
/// `text`: three draws at some valid picks, joined with separators.
pub open spec fn generated(
    pool: Seq<Seq<char>>,
    master: Seq<Seq<char>>,
    after: Seq<Seq<char>>,
    text: Seq<char>,
) -> bool {
    exists|picks: Seq<int>|
        #![trigger draws(starting_pool(pool, master), master, picks)]
        picks.len() == PHRASE_WORDS && valid_picks(starting_pool(pool, master), master, picks)
            && draws(starting_pool(pool, master), master, picks).0 == after && text == join_words(
            draws(starting_pool(pool, master), master, picks).1,
        )
}

/// One more draw at the end of a valid run of draws.
pub proof fn lemma_draws_extend(
    pool: Seq<Seq<char>>,
    master: Seq<Seq<char>>,
    picks: Seq<int>,
    index: int,
)
    requires
        valid_picks(pool, master, picks),
        0 <= index < draws(pool, master, picks).0.len(),
    ensures
        valid_picks(pool, master, picks.push(index)),
        draws(pool, master, picks.push(index)) == ({
            let (last, words) = draws(pool, master, picks);
            let (next, word) = draw(last, master, index);
            (next, words.push(word))
        }),
    decreases picks.len(),
{
    if picks.len() > 0 {
        let next = draw(pool, master, picks[0]).0;
        assert(picks.push(index)[0] == picks[0]);
        assert(picks.push(index).drop_first() =~= picks.drop_first().push(index));
        lemma_draws_extend(next, master, picks.drop_first(), index);
        let (a, ws) = draws(next, master, picks.drop_first());
        let w = draw(pool, master, picks[0]).1;
        assert(seq![w] + ws.push(draw(a, master, index).1) =~= (seq![w] + ws).push(
            draw(a, master, index).1,
        ));
    } else {
        let after = draw(pool, master, index).0;
        assert(picks.push(index).drop_first() =~= Seq::<int>::empty());
        assert(picks.push(index)[0] == index);
        assert(valid_picks(after, master, Seq::<int>::empty()));
        assert(draws(after, master, Seq::<int>::empty()) == (after, Seq::<Seq<char>>::empty()));
        assert(seq![draw(pool, master, index).1] + Seq::<Seq<char>>::empty() =~= Seq::<
            Seq<char>,
        >::empty().push(draw(pool, master, index).1));
    }
}

/// A valid run of draws draws one word per pick.
pub proof fn lemma_draws_len(pool: Seq<Seq<char>>, master: Seq<Seq<char>>, picks: Seq<int>)
    ensures
        draws(pool, master, picks).1.len() == picks.len(),
    decreases picks.len(),
{
    if picks.len() > 0 {
        lemma_draws_len(draw(pool, master, picks[0]).0, master, picks.drop_first());
    }
}

/// Sampling is without replacement only within one filling of the pool: with
/// a master list of four words, two phrases drawn back to back from the full
/// list can give a second phrase that holds one word twice, the pool having
/// been refilled between two of its draws.
pub proof fn lemma_refill_can_repeat_a_word(master: Seq<Seq<char>>)
    requires
        master.len() == 4,
    ensures
        exists|first: Seq<int>, second: Seq<int>|
            #![trigger draws(draws(master, master, first).0, master, second)]
            {
                let pool = draws(master, master, first).0;
                let words = draws(pool, master, second).1;
                &&& first.len() == PHRASE_WORDS
                &&& second.len() == PHRASE_WORDS
                &&& valid_picks(master, master, first)
                &&& valid_picks(pool, master, second)
                &&& words.len() == PHRASE_WORDS
                &&& words[0] == words[1]
            },
{
    let first = seq![0int, 0int, 0int];
    let second = seq![0int, 3int, 0int];
    let p1 = master.remove(0);
    let p2 = p1.remove(0);
    let p3 = p2.remove(0);
    assert(p3 =~= seq![master[3]]);
    assert(draw(master, master, 0) == (p1, master[0]));
    assert(draw(p1, master, 0) == (p2, master[1]));
    assert(draw(p2, master, 0) == (p3, master[2]));
    assert(first.drop_first() =~= seq![0int, 0int]);
    assert(first.drop_first().drop_first() =~= seq![0int]);
    assert(seq![0int].drop_first() =~= Seq::<int>::empty());
    assert(valid_picks(p3, master, Seq::<int>::empty()));
    assert(valid_picks(p2, master, seq![0int]));
    assert(valid_picks(p1, master, seq![0int, 0int]));
    assert(valid_picks(master, master, first));
    assert(draws(p3, master, Seq::<int>::empty()).0 == p3);
    assert(draws(p2, master, seq![0int]).0 == p3);
    assert(draws(p1, master, seq![0int, 0int]).0 == p3);
    assert(draws(master, master, first).0 == p3);
    assert(p3.remove(0).len() == 0);
    assert(draw(p3, master, 0) == (master, master[3]));
    let q = master.remove(3);
    assert(draw(master, master, 3) == (q, master[3]));
    assert(second.drop_first() =~= seq![3int, 0int]);
    assert(second.drop_first().drop_first() =~= seq![0int]);
    assert(valid_picks(draw(q, master, 0).0, master, Seq::<int>::empty()));
    assert(valid_picks(q, master, seq![0int]));
    assert(valid_picks(master, master, seq![3int, 0int]));
    assert(valid_picks(p3, master, second));
    let tail = draws(q, master, seq![0int]).1;
    assert(draws(master, master, seq![3int, 0int]).1 == seq![master[3]] + tail);
    assert(draws(p3, master, second).1 == seq![master[3]] + (seq![master[3]] + tail));
    assert(draws(p3, master, second).1[0] == master[3]);
    assert(draws(p3, master, second).1[1] == master[3]);
    lemma_draws_len(p3, master, second);
    let pool = draws(master, master, first).0;
    assert(pool == p3);
    assert(draws(pool, master, second).1[0] == draws(pool, master, second).1[1]);
}

/// Relies on rand's `IteratorRandom::choose` over `0..len`, with the
/// thread-local generator: it gives one of the range's values, and `None` only
/// where the range is empty.
#[verifier::external_body]
fn choose_index(len: usize) -> (r: Option<usize>)
    ensures
        r is Some <==> len > 0,
        r matches Some(i) ==> i < len,
{
    (0..len).choose(&mut rand::thread_rng())
}

/// A copy of a word list.
pub(crate) fn copy_words(words: &Vec<String>) -> (r: Vec<String>)
    ensures
        words_view(r@) == words_view(words@),
{
    let mut r: Vec<String> = Vec::new();
    for i in 0..words.len()
        invariant
            r@.len() == i,
            forall|k: int| 0 <= k < i ==> r@[k]@ == words@[k]@,
    {
        r.push(words[i].clone());
    }
    assert(words_view(r@) =~= words_view(words@));
    r
}

/// Takes the word at `index` out of `pool` and returns it, refilling the pool
/// with the master list where it is left empty.
pub fn draw_word(pool: &mut Vec<String>, master: &Vec<String>, index: usize) -> (r: String)
    requires
        index < old(pool)@.len(),
    ensures
        (words_view(final(pool)@), r@) == draw(words_view(old(pool)@), words_view(master@), index as int),
{
    let word = pool.remove(index);
    assert(words_view(pool@) =~= words_view(old(pool)@).remove(index as int));
    if pool.len() == 0 {
        *pool = copy_words(master);
    }
    word
}

/// Draws a phrase of three words from `word_list`, each at a random place,
/// refilling the list from `master` whenever it runs empty (an empty list is
/// refilled before the first draw). The words are joined with separators.
pub fn generate_random_code(word_list: &mut Vec<String>, master: &Vec<String>) -> (r: String)
    requires
        master@.len() > 0,
    ensures
        generated(words_view(old(word_list)@), words_view(master@), words_view(final(word_list)@), r@),
        exists|words: Seq<Seq<char>>|
            {
                &&& words.len() == PHRASE_WORDS
                &&& #[trigger] join_words(words) == r@
                &&& forall|k: int|
                    0 <= k < PHRASE_WORDS ==> words_view(old(word_list)@).contains(#[trigger] words[k])
                        || words_view(master@).contains(words[k])
            },
{
    let ghost m = words_view(master@);
    let ghost start = starting_pool(words_view(word_list@), m);
    if word_list.len() == 0 {
        *word_list = copy_words(master);
    }
    assert(words_view(word_list@).len() == word_list@.len());
    assert(words_view(word_list@) == start);
    let ghost mut picks: Seq<int> = Seq::empty();
    let ghost mut words: Seq<Seq<char>> = Seq::empty();
    let mut code = String::new();
    for i in 0..PHRASE_WORDS
        invariant
            m == words_view(master@),
            m.len() > 0,
            word_list@.len() > 0,
            picks.len() == i,
            valid_picks(start, m, picks),
            draws(start, m, picks) == (words_view(word_list@), words),
            code@ == if i == 0 { Seq::<char>::empty() } else { join_words(words) },
            words.len() == i,
            forall|k: int|
                0 <= k < i ==> #[trigger] start.contains(words[k]) || m.contains(words[k]),
            forall|w: Seq<char>|
                #[trigger] words_view(word_list@).contains(w) ==> start.contains(w) || m.contains(w),
    {
        let index = match choose_index(word_list.len()) {
            Some(j) => j,
            None => 0,
        };
        let ghost before = words_view(word_list@);
        let word = draw_word(word_list, master, index);
        proof {
            assert(before.contains(word@));
            assert forall|w: Seq<char>| #[trigger] words_view(word_list@).contains(w) implies start.contains(w)
                || m.contains(w) by {
                if before.remove(index as int).len() > 0 {
                    let j = choose|j: int| 0 <= j < words_view(word_list@).len() && words_view(word_list@)[j] == w;
                    if j < index {
                        assert(before[j] == w);
                    } else {
                        assert(before[j + 1] == w);
                    }
                    assert(before.contains(w));
                }
            }
        }
        proof {
            lemma_draws_extend(start, m, picks, index as int);
            picks = picks.push(index as int);
        }
        if i > 0 {
            push_char(&mut code, SEPARATOR);
        }
        code.append(word.as_str());
        proof {
            let ghost prev = words;
            words = words.push(word@);
            assert(words.drop_last() =~= prev);
        }
    }
    proof {
        assert(picks.len() == PHRASE_WORDS);
        assert(start.contains(words[0]) || m.contains(words[0]));
        if old(word_list)@.len() == 0 {
            assert forall|k: int| 0 <= k < PHRASE_WORDS implies words_view(old(word_list)@).contains(
                #[trigger] words[k],
            ) || m.contains(words[k]) by {
                assert(start.contains(words[k]) || m.contains(words[k]));
            }
        }
        assert(draws(start, m, picks).0 == words_view(word_list@));
    }
    code
}

} // verus!
