use vstd::prelude::*;

use crate::models::RandomWord;

verus! {

/// Number of letters of the ASCII alphabet, the keys of a histogram.
pub const LETTERS: usize = 26;

/// Position in the alphabet of an ASCII letter, either case; `None` for
/// anything else.
pub open spec fn letter_index(c: char) -> Option<int> {
    if 97 <= (c as u32) && (c as u32) <= 122 {
        Some(c as u32 - 97)
    } else if 65 <= (c as u32) && (c as u32) <= 90 {
        Some(c as u32 - 65)
    } else {
        None
    }
}

/// The lower-case letter at position `i` of the alphabet.
pub open spec fn letter_char(i: int) -> char {
    ((97 + i) as u8) as char
}

/// Alphabet position of a word's leading character, if it is an ASCII letter.
pub open spec fn leading_letter(w: Seq<char>) -> Option<int> {
    if w.len() > 0 {
        letter_index(w[0])
    } else {
        None
    }
}

/// The words of a record sequence.
pub open spec fn words_of(s: Seq<RandomWord>) -> Seq<Seq<char>> {
    s.map_values(|w: RandomWord| w.word@)
}

/// How many words of `s` have the letter at position `i` as leading character.
pub open spec fn letter_count(s: Seq<Seq<char>>, i: int) -> nat
    decreases s.len(),
{
    if s.len() == 0 {
        0
    } else {
        letter_count(s.drop_last(), i) + (if leading_letter(s.last()) == Some(i) {
            1nat
        } else {
            0nat
        })
    }
}

/// How many words of `s` have an ASCII letter as leading character.
pub open spec fn alpha_count(s: Seq<Seq<char>>) -> nat
    decreases s.len(),
{
    if s.len() == 0 {
        0
    } else {
        alpha_count(s.drop_last()) + (if leading_letter(s.last()) is Some {
            1nat
        } else {
            0nat
        })
    }
}

/// The histogram of a word sequence: for each letter of the alphabet, the
/// number of words that start with it, case folded.
pub open spec fn histogram_of(s: Seq<Seq<char>>) -> Seq<nat> {
    Seq::new(LETTERS as nat, |i: int| letter_count(s, i))
}

/// Sum of the first `n` entries of `h`.
pub open spec fn sum_first(h: Seq<nat>, n: int) -> nat
    decreases n,
{
    if n <= 0 {
        0
    } else {
        sum_first(h, n - 1) + h[n - 1]
    }
}

/// The histogram entries with a non-zero count among the first `n` letters,
/// in alphabetical order.
pub open spec fn nonzero_entries(h: Seq<nat>, n: int) -> Seq<(char, usize)>
    decreases n,
{
    if n <= 0 {
        Seq::empty()
    } else if h[n - 1] > 0 {
        nonzero_entries(h, n - 1).push((letter_char(n - 1), h[n - 1] as usize))
    } else {
        nonzero_entries(h, n - 1)
    }
}

/// Per-letter counts of leading characters, case folded.
pub struct Histogram {
    counts: Vec<usize>,
}

impl View for Histogram {
    type V = Seq<nat>;

    closed spec fn view(&self) -> Seq<nat> {
        count_view(self.counts@)
    }
}

spec fn count_view(v: Seq<usize>) -> Seq<nat> {
    v.map_values(|c: usize| c as nat)
}

/// One zero count per letter.
fn zero_counts() -> (r: Vec<usize>)
    ensures
        r@.len() == LETTERS,
        count_view(r@) == Seq::new(LETTERS as nat, |i: int| 0nat),
{
    let mut counts: Vec<usize> = Vec::new();
    let mut k: usize = 0;
    while k < LETTERS
        invariant
            k <= LETTERS,
            counts@.len() == k,
            forall|i: int| 0 <= i < k ==> counts@[i] == 0,
        decreases LETTERS - k,
    {
        counts.push(0);
        k = k + 1;
    }
    assert(count_view(counts@) =~= Seq::new(LETTERS as nat, |i: int| 0nat));
    counts
}

impl Histogram {
    /// Every histogram has one count per letter.
    #[verifier::type_invariant]
    pub closed spec fn wf(&self) -> bool {
        self.counts@.len() == LETTERS
    }

    /// A histogram with every count at zero.
    pub fn new() -> (r: Histogram)
        ensures
            r@ == Seq::new(LETTERS as nat, |i: int| 0nat),
    {
        Histogram { counts: zero_counts() }
    }

    pub fn clone(&self) -> (r: Histogram)
        ensures
            r@ == self@,
    {
        proof {
            use_type_invariant(self);
        }
        Histogram { counts: self.counts.clone() }
    }

    /// The count of records whose leading character is `c`, either case;
    /// zero for a character that is not an ASCII letter.
    pub fn get(&self, c: char) -> (r: usize)
        ensures
            r as nat == (match letter_index(c) {
                Some(i) => self@[i],
                None => 0,
            }),
    {
        proof {
            use_type_invariant(self);
        }
        match letter_of(c) {
            Some(i) => self.counts[i],
            None => 0,
        }
    }

    /// The letters with a non-zero count, lower case, in alphabetical order,
    /// each with its count.
    pub fn entries(&self) -> (r: Vec<(char, usize)>)
        ensures
            r@ == nonzero_entries(self@, LETTERS as int),
    {
        proof {
            use_type_invariant(self);
        }
        let mut r: Vec<(char, usize)> = Vec::new();
        let mut k: usize = 0;
        while k < LETTERS
            invariant
                self.counts@.len() == LETTERS,
                k <= LETTERS,
                r@ == nonzero_entries(self@, k as int),
            decreases LETTERS - k,
        {
            let n = self.counts[k];
            if n > 0 {
                let letter = (97u8 + k as u8) as char;
                r.push((letter, n));
            }
            k = k + 1;
        }
        r
    }
}

/// Alphabet position of `c` if it is an ASCII letter.
pub fn letter_of(c: char) -> (r: Option<usize>)
    ensures
        match r {
            Some(i) => letter_index(c) == Some(i as int) && i < LETTERS,
            None => letter_index(c) is None,
        },
{
    if 'a' <= c && c <= 'z' {
        Some((c as u32 - 97) as usize)
    } else if 'A' <= c && c <= 'Z' {
        Some((c as u32 - 65) as usize)
    } else {
        None
    }
}

/// Alphabet position of the leading character of `w`, if it is an ASCII letter.
pub fn leading_letter_of(w: &String) -> (r: Option<usize>)
    ensures
        match r {
            Some(i) => leading_letter(w@) == Some(i as int) && i < LETTERS,
            None => leading_letter(w@) is None,
        },
{
    let s = w.as_str();
    if s.unicode_len() == 0 {
        None
    } else {
        letter_of(s.get_char(0))
    }
}

proof fn lemma_letter_count_bound(s: Seq<Seq<char>>, i: int)
    ensures
        letter_count(s, i) <= s.len(),
    decreases s.len(),
{
    if s.len() > 0 {
        lemma_letter_count_bound(s.drop_last(), i);
    }
}

/// Counts the records of `words` by leading character: the histogram of the
/// sequence. Non-letters are ignored; upper and lower case share one count.
pub fn calculate_stats(words: &Vec<RandomWord>) -> (r: Histogram)
    ensures
        r@ == histogram_of(words_of(words@)),
{
    let mut counts = zero_counts();
    let mut k: usize = 0;
    while k < words.len()
        invariant
            k <= words@.len(),
            counts@.len() == LETTERS,
            count_view(counts@) == histogram_of(words_of(words@.subrange(0, k as int))),
        decreases words@.len() - k,
    {
        let ghost before = words_of(words@.subrange(0, k as int));
        let ghost after = words_of(words@.subrange(0, k as int + 1));
        assert(after.drop_last() =~= before);
        assert(after.last() == words@[k as int].word@);
        if let Some(j) = leading_letter_of(&words[k].word) {
            proof {
                lemma_letter_count_bound(before, j as int);
            }
            let n = counts[j];
            assert(count_view(counts@)[j as int] == n as nat);
            assert(histogram_of(before)[j as int] == letter_count(before, j as int));
            counts.set(j, n + 1);
        }
        assert forall|i: int| 0 <= i < LETTERS implies count_view(counts@)[i] == letter_count(after, i) by {
            assert(histogram_of(before)[i] == letter_count(before, i));
            assert(letter_count(after, i) == letter_count(before, i) + (if leading_letter(
                words@[k as int].word@,
            ) == Some(i) {
                1nat
            } else {
                0nat
            }));
        }
        k = k + 1;
        assert(count_view(counts@) =~= histogram_of(after));
        assert(after == words_of(words@.subrange(0, k as int)));
    }
    assert(words@.subrange(0, words@.len() as int) =~= words@);
    assert(words_of(words@.subrange(0, words@.len() as int)) == words_of(words@));
    Histogram { counts }
}

proof fn lemma_sum_step(s: Seq<Seq<char>>, w: Seq<char>, n: int)
    requires
        0 <= n <= LETTERS,
    ensures
        sum_first(histogram_of(s.push(w)), n) == sum_first(histogram_of(s), n) + (
        match leading_letter(w) {
            Some(j) => if j < n {
                1nat
            } else {
                0nat
            },
            None => 0nat,
        }),
    decreases n,
{
    assert(s.push(w).drop_last() =~= s);
    if n > 0 {
        lemma_sum_step(s, w, n - 1);
        assert(histogram_of(s.push(w))[n - 1] == letter_count(s.push(w), n - 1));
        assert(histogram_of(s)[n - 1] == letter_count(s, n - 1));
    }
}

/// The counts of a histogram add up to the number of words that start with
/// an ASCII letter.
pub proof fn lemma_histogram_total(s: Seq<Seq<char>>)
    ensures
        sum_first(histogram_of(s), LETTERS as int) == alpha_count(s),
    decreases s.len(),
{
    if s.len() == 0 {
        lemma_sum_zero(histogram_of(s), LETTERS as int);
    } else {
        let p = s.drop_last();
        lemma_histogram_total(p);
        assert(p.push(s.last()) =~= s);
        lemma_sum_step(p, s.last(), LETTERS as int);
    }
}

proof fn lemma_sum_zero(h: Seq<nat>, n: int)
    requires
        0 <= n <= h.len(),
        forall|i: int| 0 <= i < n ==> h[i] == 0,
    ensures
        sum_first(h, n) == 0,
    decreases n,
{
    if n > 0 {
        lemma_sum_zero(h, n - 1);
    }
}

proof fn lemma_alpha_remove(t: Seq<Seq<char>>, j: int)
    requires
        0 <= j < t.len(),
    ensures
        alpha_count(t) == alpha_count(t.remove(j)) + (if leading_letter(t[j]) is Some {
            1nat
        } else {
            0nat
        }),
    decreases t.len(),
{
    if j == t.len() - 1 {
        assert(t.remove(j) =~= t.drop_last());
    } else {
        lemma_alpha_remove(t.drop_last(), j);
        assert(t.remove(j).drop_last() =~= t.drop_last().remove(j));
        assert(t.remove(j).last() == t.last());
    }
}

/// Reordering records keeps the number of them that start with an ASCII
/// letter.
pub proof fn lemma_alpha_count_permutation(a: Seq<RandomWord>, b: Seq<RandomWord>)
    requires
        a.to_multiset() == b.to_multiset(),
    ensures
        alpha_count(words_of(a)) == alpha_count(words_of(b)),
    decreases a.len(),
{
    broadcast use vstd::seq_lib::group_to_multiset_ensures, vstd::multiset::group_multiset_axioms;

    a.to_multiset_ensures();
    b.to_multiset_ensures();
    if a.len() == 0 {
        assert(b.len() == 0);
        assert(words_of(a) =~= words_of(b));
    } else {
        let e = a.last();
        assert(a.contains(e)) by {
            assert(a[a.len() - 1] == e);
        }
        assert(a.to_multiset().count(e) > 0);
        assert(b.contains(e));
        let j = choose|j: int| 0 <= j < b.len() && b[j] == e;
        let a1 = a.drop_last();
        let b1 = b.remove(j);
        assert(a =~= a1.push(e));
        assert(a1.to_multiset() =~= b1.to_multiset());
        lemma_alpha_count_permutation(a1, b1);
        assert(words_of(a).drop_last() =~= words_of(a1));
        lemma_alpha_remove(words_of(b), j);
        assert(words_of(b).remove(j) =~= words_of(b1));
    }
}

/// Computing the histogram is a function of the words alone: two computations
/// over the same record sequence agree.
pub proof fn lemma_histogram_deterministic(a: Histogram, b: Histogram, words: Seq<RandomWord>)
    requires
        a@ == histogram_of(words_of(words)),
        b@ == histogram_of(words_of(words)),
    ensures
        a@ == b@,
{
}

} // verus!
