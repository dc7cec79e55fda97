//! The dictionary: lower-case words in buckets by their length.

use crate::text::{lowercase_of, to_lowercase};
use vstd::prelude::*;

verus! {

/// The length of the shortest word that the dictionary holds.
pub const SHORTEST_WORD: usize = 2;

/// The length of the longest word that the dictionary holds.
pub const LONGEST_WORD: usize = 21;

/// The number of buckets: one for each length.
pub const BUCKET_COUNT: usize = 20;

/// Whether `word` can stand in the dictionary: it has a length that the
/// dictionary holds, and is its own lower-case form.
pub open spec fn is_dictionary_word(word: Seq<char>) -> bool {
    &&& SHORTEST_WORD <= word.len() <= LONGEST_WORD
    &&& lowercase_of(word) == word
}

/// Whether `buckets` are those of a dictionary: one bucket for each length,
/// the first for the shortest words, each holding only words of its length
/// that can stand in the dictionary.
pub open spec fn is_dictionary(buckets: Seq<Seq<Seq<char>>>) -> bool {
    &&& buckets.len() == BUCKET_COUNT
    &&& forall|b: int, w: int|
        0 <= b < buckets.len() && 0 <= w < buckets[b].len() ==> is_dictionary_word(
            #[trigger] buckets[b][w],
        ) && buckets[b][w].len() == b + SHORTEST_WORD
}

/// Whether one of `buckets` holds `word`.
pub open spec fn holds_word(buckets: Seq<Seq<Seq<char>>>, word: Seq<char>) -> bool {
    exists|b: int, w: int|
        0 <= b < buckets.len() && 0 <= w < buckets[b].len() && #[trigger] buckets[b][w] == word
}

/// The words of a front-packed row: those in the slots before its first
/// empty one.
pub open spec fn packed_words(row: Seq<Option<Seq<char>>>) -> Seq<Seq<char>>
    decreases row.len(),
{
    if row.len() == 0 {
        Seq::empty()
    } else {
        match row.first() {
            Some(word) => seq![word] + packed_words(row.drop_first()),
            None => Seq::empty(),
        }
    }
}

/// The words of each row of a front-packed table.
pub open spec fn unpacked(table: Seq<Seq<Option<Seq<char>>>>) -> Seq<Seq<Seq<char>>> {
    table.map_values(|row: Seq<Option<Seq<char>>>| packed_words(row))
}

/// A dictionary of lower-case words of two to twenty-one characters.
pub struct Dictionary {
    buckets: Vec<Vec<String>>,
}

impl View for Dictionary {
    type V = Seq<Seq<Seq<char>>>;

    closed spec fn view(&self) -> Seq<Seq<Seq<char>>> {
        self.buckets.deep_view()
    }
}

impl Dictionary {
    #[verifier::type_invariant]
    pub open spec fn well_formed(self) -> bool {
        is_dictionary(self@)
    }

    /// Makes a dictionary of `buckets` where they are those of a dictionary,
    /// and refuses them else.
    pub fn new(buckets: Vec<Vec<String>>) -> (dictionary: Option<Dictionary>)
        ensures
            match dictionary {
                Some(made) => is_dictionary(made@) && made@ == buckets.deep_view(),
                None => !is_dictionary(buckets.deep_view()),
            },
    {
        if buckets.len() != BUCKET_COUNT {
            return None;
        }
        let mut b: usize = 0;
        while b < BUCKET_COUNT
            invariant
                b <= BUCKET_COUNT == buckets.len(),
                forall|i: int, w: int|
                    0 <= i < b && 0 <= w < buckets.deep_view()[i].len() ==> is_dictionary_word(
                        #[trigger] buckets.deep_view()[i][w],
                    ) && buckets.deep_view()[i][w].len() == i + SHORTEST_WORD,
            decreases BUCKET_COUNT - b,
        {
            if !holds_words_of_length(&buckets[b], b + SHORTEST_WORD) {
                proof {
                    let w = choose|w: int|
                        0 <= w < buckets@[b as int].len() && !(is_dictionary_word(
                            #[trigger] buckets@[b as int]@[w]@,
                        ) && buckets@[b as int]@[w]@.len() == b + SHORTEST_WORD);
                    assert(buckets.deep_view()[b as int][w] == buckets@[b as int]@[w]@);
                }
                return None;
            }
            proof {
                assert forall|w: int|
                    0 <= w < buckets.deep_view()[b as int].len() implies is_dictionary_word(
                    #[trigger] buckets.deep_view()[b as int][w],
                ) && buckets.deep_view()[b as int][w].len() == b + SHORTEST_WORD by {
                    assert(buckets.deep_view()[b as int][w] == buckets@[b as int]@[w]@);
                }
            }
            b += 1;
        }
        Some(Dictionary { buckets })
    }

    /// Makes a dictionary of a front-packed table, each row of which holds
    /// its words in the slots before its first empty one, where those words
    /// are the buckets of a dictionary, and refuses the table else.
    pub fn from_front_packed(table: &Vec<Vec<Option<String>>>) -> (dictionary: Option<Dictionary>)
        ensures
            match dictionary {
                Some(made) => is_dictionary(made@) && made@ == unpacked(table.deep_view()),
                None => !is_dictionary(unpacked(table.deep_view())),
            },
    {
        let mut buckets: Vec<Vec<String>> = Vec::new();
        let mut r: usize = 0;
        while r < table.len()
            invariant
                r <= table.len(),
                buckets.deep_view() == unpacked(table.deep_view().take(r as int)),
            decreases table.len() - r,
        {
            let ghost before = buckets.deep_view();
            let bucket = unpack_row(&table[r]);
            buckets.push(bucket);
            proof {
                let rows = table.deep_view();
                assert(rows[r as int] == table@[r as int].deep_view());
                assert(buckets.deep_view() =~= before.push(packed_words(rows[r as int])));
                assert(rows.take(r + 1) =~= rows.take(r as int).push(rows[r as int]));
                assert(unpacked(rows.take(r + 1)) =~= unpacked(rows.take(r as int)).push(
                    packed_words(rows[r as int]),
                ));
            }
            r += 1;
        }
        proof {
            assert(table.deep_view().take(table.len() as int) =~= table.deep_view());
        }
        Dictionary::new(buckets)
    }

    /// The buckets, the first for the shortest words.
    pub fn buckets(&self) -> (buckets: &Vec<Vec<String>>)
        ensures
            buckets.deep_view() == self@,
            is_dictionary(self@),
    {
        proof {
            use_type_invariant(self);
        }
        &self.buckets
    }
}

/// Whether every word of `bucket` can stand in the dictionary and has `len`
/// characters.
fn holds_words_of_length(bucket: &Vec<String>, len: usize) -> (all: bool)
    ensures
        all == forall|w: int|
            0 <= w < bucket.len() ==> is_dictionary_word(#[trigger] bucket@[w]@)
                && bucket@[w]@.len() == len,
{
    let mut w: usize = 0;
    while w < bucket.len()
        invariant
            w <= bucket.len(),
            forall|i: int|
                0 <= i < w ==> is_dictionary_word(#[trigger] bucket@[i]@) && bucket@[i]@.len()
                    == len,
        decreases bucket.len() - w,
    {
        let word = &bucket[w];
        let count = word.as_str().unicode_len();
        if count != len || count < SHORTEST_WORD || count > LONGEST_WORD {
            return false;
        }
        if to_lowercase(word.as_str()) != *word {
            return false;
        }
        w += 1;
    }
    true
}

/// A row whose first `n` slots hold words, and which ends there or has an
/// empty slot next, holds those `n` words.
proof fn lemma_packed_words(row: Seq<Option<Seq<char>>>, n: int)
    requires
        0 <= n <= row.len(),
        forall|i: int| 0 <= i < n ==> (#[trigger] row[i]) is Some,
        n == row.len() || row[n] is None,
    ensures
        packed_words(row) == Seq::new(n as nat, |i: int| row[i]->0),
    decreases n,
{
    if n > 0 {
        let rest = row.drop_first();
        assert forall|i: int| 0 <= i < n - 1 implies (#[trigger] rest[i]) is Some by {
            assert(rest[i] == row[i + 1]);
        }
        lemma_packed_words(rest, n - 1);
        assert(packed_words(row) =~= Seq::new(n as nat, |i: int| row[i]->0));
    } else {
        assert(packed_words(row) =~= Seq::new(n as nat, |i: int| row[i]->0));
    }
}

/// Copies the words of a front-packed row.
fn unpack_row(row: &Vec<Option<String>>) -> (words: Vec<String>)
    ensures
        words.deep_view() == packed_words(row.deep_view()),
{
    let ghost slots = row.deep_view();
    let mut words: Vec<String> = Vec::new();
    let mut n: usize = 0;
    while n < row.len()
        invariant
            n <= row.len(),
            slots == row.deep_view(),
            forall|i: int| 0 <= i < n ==> (#[trigger] slots[i]) is Some,
            words.deep_view() == Seq::new(n as nat, |i: int| slots[i]->0),
        ensures
            n <= row.len(),
            forall|i: int| 0 <= i < n ==> (#[trigger] slots[i]) is Some,
            n == row.len() || slots[n as int] is None,
            words.deep_view() == Seq::new(n as nat, |i: int| slots[i]->0),
        decreases row.len() - n,
    {
        let ghost before = words.deep_view();
        proof {
            assert(slots[n as int] == row@[n as int].deep_view());
        }
        match &row[n] {
            Some(word) => {
                words.push(word.clone());
                proof {
                    assert(slots[n as int] == Some(word@));
                    assert(words.deep_view() =~= before.push(word@));
                    assert(words.deep_view() =~= Seq::new((n + 1) as nat, |i: int| slots[i]->0));
                }
            },
            None => {
                break ;
            },
        }
        n += 1;
    }
    proof {
        lemma_packed_words(slots, n as int);
    }
    words
}

} // verus!
