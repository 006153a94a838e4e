use vstd::multiset::Multiset;
use vstd::prelude::*;

use crate::models::{DictionaryLocalState, DictionaryStatus, RandomWord};
use crate::stats::{calculate_stats, histogram_of, words_of};

verus! {

broadcast use vstd::seq_lib::group_to_multiset_ensures, vstd::multiset::group_multiset_axioms;

// ---------------------------------------------------------------- ordering

/// Lexicographic order of character sequences, by code point.
pub open spec fn lex_le(a: Seq<char>, b: Seq<char>) -> bool
    decreases a.len(),
{
    if a.len() == 0 {
        true
    } else if b.len() == 0 {
        false
    } else if (a[0] as u32) != (b[0] as u32) {
        (a[0] as u32) < (b[0] as u32)
    } else {
        lex_le(a.drop_first(), b.drop_first())
    }
}

/// Records in ascending order of their words.
pub open spec fn sorted_by_word(s: Seq<RandomWord>) -> bool {
    forall|i: int, j: int| 0 <= i < j < s.len() ==> lex_le(s[i].word@, s[j].word@)
}

/// The records of `s` whose word is `x`, in order.
pub open spec fn same_word(s: Seq<RandomWord>, x: Seq<char>) -> Seq<RandomWord> {
    s.filter(|w: RandomWord| w.word@ == x)
}

proof fn lemma_lex_refl(a: Seq<char>)
    ensures
        lex_le(a, a),
    decreases a.len(),
{
    if a.len() > 0 {
        lemma_lex_refl(a.drop_first());
    }
}

proof fn lemma_same_word_none(s: Seq<RandomWord>, x: Seq<char>)
    requires
        forall|i: int| 0 <= i < s.len() ==> s[i].word@ != x,
    ensures
        same_word(s, x) == Seq::<RandomWord>::empty(),
    decreases s.len(),
{
    reveal(Seq::filter);
    if s.len() > 0 {
        lemma_same_word_none(s.drop_last(), x);
    }
}

proof fn lemma_same_word_push(s: Seq<RandomWord>, w: RandomWord, x: Seq<char>)
    ensures
        same_word(s.push(w), x) == (if w.word@ == x {
            same_word(s, x).push(w)
        } else {
            same_word(s, x)
        }),
{
    reveal(Seq::filter);
    assert(s.push(w).drop_last() =~= s);
}

pub proof fn lemma_lex_total(a: Seq<char>, b: Seq<char>)
    ensures
        lex_le(a, b) || lex_le(b, a),
    decreases a.len(),
{
    if a.len() > 0 && b.len() > 0 && (a[0] as u32) == (b[0] as u32) {
        lemma_lex_total(a.drop_first(), b.drop_first());
    }
}

pub proof fn lemma_lex_trans(a: Seq<char>, b: Seq<char>, c: Seq<char>)
    requires
        lex_le(a, b),
        lex_le(b, c),
    ensures
        lex_le(a, c),
    decreases a.len(),
{
    if a.len() > 0 && b.len() > 0 && c.len() > 0 && (a[0] as u32) == (b[0] as u32) && (b[0]
        as u32) == (c[0] as u32) {
        lemma_lex_trans(a.drop_first(), b.drop_first(), c.drop_first());
    }
}

/// Whether `a` comes no later than `b` in lexicographic order.
pub fn word_le(a: &String, b: &String) -> (r: bool)
    ensures
        r == lex_le(a@, b@),
{
    let sa = a.as_str();
    let sb = b.as_str();
    let na = sa.unicode_len();
    let nb = sb.unicode_len();
    let mut i: usize = 0;
    assert(a@.skip(0) =~= a@);
    assert(b@.skip(0) =~= b@);
    while i < na && i < nb
        invariant
            sa@ == a@,
            sb@ == b@,
            na == a@.len(),
            nb == b@.len(),
            i <= na,
            i <= nb,
            lex_le(a@, b@) == lex_le(a@.skip(i as int), b@.skip(i as int)),
        decreases na - i,
    {
        let ca = sa.get_char(i);
        let cb = sb.get_char(i);
        if ca as u32 != cb as u32 {
            return (ca as u32) < (cb as u32);
        }
        assert(a@.skip(i as int).drop_first() =~= a@.skip(i as int + 1));
        assert(b@.skip(i as int).drop_first() =~= b@.skip(i as int + 1));
        i = i + 1;
    }
    i == na
}

/// Sorts records by word, ascending; records with equal words keep their
/// relative order.
pub fn sort_words(words: Vec<RandomWord>) -> (r: Vec<RandomWord>)
    ensures
        r@.to_multiset() == words@.to_multiset(),
        sorted_by_word(r@),
        forall|x: Seq<char>| #[trigger] same_word(r@, x) == same_word(words@, x),
{
    let mut rest = words;
    let mut r: Vec<RandomWord> = Vec::new();
    assert(r@.to_multiset() =~= Multiset::empty());
    assert forall|x: Seq<char>| #[trigger]
        same_word(words@, x) == same_word(rest@, x) + same_word(r@, x) by {
        lemma_same_word_none(r@, x);
        assert(same_word(rest@, x) + same_word(r@, x) =~= same_word(rest@, x));
    }
    while rest.len() > 0
        invariant
            r@.to_multiset().add(rest@.to_multiset()) == words@.to_multiset(),
            sorted_by_word(r@),
            forall|x: Seq<char>| #[trigger]
                same_word(words@, x) == same_word(rest@, x) + same_word(r@, x),
        decreases rest@.len(),
    {
        let ghost before = rest@;
        let w = rest.pop().unwrap();
        assert(before =~= rest@.push(w));
        proof {
            vstd::seq_lib::to_multiset_build(rest@, w);
        }
        let mut p: usize = 0;
        while p < r.len() && !word_le(&w.word, &r[p].word)
            invariant
                p <= r@.len(),
                forall|i: int| 0 <= i < p ==> lex_le(r@[i].word@, w.word@),
                forall|i: int| 0 <= i < p ==> !lex_le(w.word@, r@[i].word@),
            decreases r@.len() - p,
        {
            proof {
                lemma_lex_total(w.word@, r@[p as int].word@);
            }
            p = p + 1;
        }
        let ghost old_r = r@;
        proof {
            if p < old_r.len() {
                assert forall|j: int| p <= j < old_r.len() implies lex_le(
                    w.word@,
                    old_r[j].word@,
                ) by {
                    if j > p {
                        lemma_lex_trans(w.word@, old_r[p as int].word@, old_r[j].word@);
                    }
                }
            }
        }
        r.insert(p, w);
        proof {
            let head = old_r.take(p as int);
            let tail = old_r.skip(p as int);
            assert(old_r =~= head + tail);
            assert(r@ =~= head + seq![w] + tail);
            assert forall|x: Seq<char>| #[trigger]
                same_word(words@, x) == same_word(rest@, x) + same_word(r@, x) by {
                Seq::filter_distributes_over_add(head, tail, |v: RandomWord| v.word@ == x);
                Seq::filter_distributes_over_add(head + seq![w], tail, |v: RandomWord| v.word@ == x);
                Seq::filter_distributes_over_add(head, seq![w], |v: RandomWord| v.word@ == x);
                lemma_same_word_push(rest@, w, x);
                lemma_same_word_push(Seq::<RandomWord>::empty(), w, x);
                assert(Seq::<RandomWord>::empty().push(w) =~= seq![w]);
                lemma_same_word_none(Seq::<RandomWord>::empty(), x);
                if w.word@ == x {
                    assert forall|i: int| 0 <= i < head.len() implies head[i].word@ != x by {
                        lemma_lex_refl(w.word@);
                    }
                    lemma_same_word_none(head, x);
                    assert(same_word(r@, x) =~= seq![w] + same_word(old_r, x));
                    assert(same_word(rest@, x).push(w) + same_word(old_r, x) =~= same_word(rest@, x)
                        + (seq![w] + same_word(old_r, x)));
                } else {
                    assert(same_word(r@, x) =~= same_word(old_r, x));
                }
            }
        }
        assert(sorted_by_word(r@)) by {
            assert forall|i: int, j: int| 0 <= i < j < r@.len() implies lex_le(
                r@[i].word@,
                r@[j].word@,
            ) by {
                if j < p {
                } else if j == p {
                } else if i < p {
                    lemma_lex_trans(old_r[i].word@, w.word@, old_r[j - 1].word@);
                } else if i == p {
                } else {
                }
            }
        }
    }
    assert(rest@.to_multiset() =~= Multiset::empty());
    assert(r@.to_multiset().add(Multiset::empty()) =~= r@.to_multiset());
    assert forall|x: Seq<char>| #[trigger] same_word(r@, x) == same_word(words@, x) by {
        lemma_same_word_none(rest@, x);
        assert(same_word(rest@, x) + same_word(r@, x) =~= same_word(r@, x));
    }
    r
}

// ------------------------------------------------------------ line format

/// Position of the first `d` in `s`.
pub open spec fn first_index(s: Seq<char>, d: char) -> Option<int>
    decreases s.len(),
{
    if s.len() == 0 {
        None
    } else if s[0] == d {
        Some(0)
    } else {
        match first_index(s.drop_first(), d) {
            Some(i) => Some(i + 1),
            None => None,
        }
    }
}


/// Unicode `White_Space`, the characters that `str::trim` removes.
pub open spec fn is_white_space(c: char) -> bool {
    let u = c as u32;
    (9 <= u && u <= 13) || u == 32 || u == 0x85 || u == 0xA0 || u == 0x1680 || (0x2000 <= u && u
        <= 0x200A) || u == 0x2028 || u == 0x2029 || u == 0x202F || u == 0x205F || u == 0x3000
}

/// `s` without its leading white space.
pub open spec fn trim_start(s: Seq<char>) -> Seq<char>
    decreases s.len(),
{
    if s.len() > 0 && is_white_space(s[0]) {
        trim_start(s.drop_first())
    } else {
        s
    }
}

/// `s` without its trailing white space.
pub open spec fn trim_end(s: Seq<char>) -> Seq<char>
    decreases s.len(),
{
    if s.len() > 0 && is_white_space(s.last()) {
        trim_end(s.drop_last())
    } else {
        s
    }
}

/// `s` without leading and trailing white space.
pub open spec fn trimmed(s: Seq<char>) -> Seq<char> {
    trim_end(trim_start(s))
}

/// Whether `s` neither starts nor ends with white space.
pub open spec fn no_edge_space(s: Seq<char>) -> bool {
    s.len() == 0 || (!is_white_space(s[0]) && !is_white_space(s.last()))
}

/// Reads a stored line `word: pronunciation, definition`: the word is what
/// stands before the first `:`, trimmed; the pronunciation what follows it up
/// to the first `,`; the definition the rest. `None` if either delimiter is
/// missing.
pub open spec fn parse_line(line: Seq<char>) -> Option<(Seq<char>, Seq<char>, Seq<char>)> {
    match first_index(line, ':') {
        None => None,
        Some(c) => {
            let rest = line.skip(c + 1);
            match first_index(rest, ',') {
                None => None,
                Some(k) => Some((trimmed(line.take(c)), rest.take(k), rest.skip(k + 1))),
            }
        },
    }
}

/// The fields read from the lines of `lines` that parse, in order.
pub open spec fn parsed_lines(lines: Seq<Seq<char>>) -> Seq<(Seq<char>, Seq<char>, Seq<char>)>
    decreases lines.len(),
{
    if lines.len() == 0 {
        Seq::empty()
    } else {
        match parse_line(lines.last()) {
            Some(t) => parsed_lines(lines.drop_last()).push(t),
            None => parsed_lines(lines.drop_last()),
        }
    }
}

/// The words read from the lines of `lines` that parse, in order.
pub open spec fn parsed_words(lines: Seq<Seq<char>>) -> Seq<Seq<char>> {
    parsed_lines(lines).map_values(|t: (Seq<char>, Seq<char>, Seq<char>)| t.0)
}

/// The fields of each record of `s`.
pub open spec fn record_fields(s: Seq<RandomWord>) -> Seq<(Seq<char>, Seq<char>, Seq<char>)> {
    s.map_values(|w: RandomWord| (w.word@, w.pronunciation@, w.definition@))
}

/// The stored form of one record: `word: pronunciation, definition`.
pub open spec fn record_line(w: RandomWord) -> Seq<char> {
    w.word@ + seq![':', ' '] + w.pronunciation@ + seq![',', ' '] + w.definition@
}

/// The stored form of a record sequence: one line per record, joined by `\n`.
pub open spec fn render_lines(s: Seq<RandomWord>) -> Seq<char>
    decreases s.len(),
{
    if s.len() == 0 {
        Seq::empty()
    } else if s.len() == 1 {
        record_line(s[0])
    } else {
        render_lines(s.drop_last()) + seq!['\n'] + record_line(s.last())
    }
}

proof fn lemma_first_index(s: Seq<char>, d: char, i: int)
    requires
        0 <= i <= s.len(),
        forall|j: int| 0 <= j < i ==> s[j] != d,
    ensures
        i < s.len() && s[i] == d ==> first_index(s, d) == Some(i),
        i == s.len() ==> first_index(s, d) is None,
    decreases i,
{
    if i > 0 {
        lemma_first_index(s.drop_first(), d, i - 1);
    }
}

/// Position of the first `d` in `s`, if any.
pub fn find_char(s: &str, d: char) -> (r: Option<usize>)
    ensures
        match r {
            Some(i) => first_index(s@, d) == Some(i as int),
            None => first_index(s@, d) is None,
        },
{
    let n = s.unicode_len();
    let mut i: usize = 0;
    while i < n
        invariant
            n == s@.len(),
            i <= n,
            forall|j: int| 0 <= j < i ==> s@[j] != d,
        decreases n - i,
    {
        if s.get_char(i) == d {
            proof {
                lemma_first_index(s@, d, i as int);
            }
            return Some(i);
        }
        i = i + 1;
    }
    proof {
        lemma_first_index(s@, d, i as int);
    }
    None
}

/// Relies on `str::trim`: the text without leading and trailing Unicode
/// white space.
#[verifier::external_body]
fn trim_text(s: &str) -> (r: String)
    ensures
        r@ == trimmed(s@),
{
    s.trim().to_string()
}

/// Reads one stored line into a record; `None` if the line has no `:`, or no
/// `,` after it.
pub fn parse_line_to_random_word(line: &str) -> (r: Option<RandomWord>)
    ensures
        match r {
            Some(w) => parse_line(line@) == Some((w.word@, w.pronunciation@, w.definition@)),
            None => parse_line(line@) is None,
        },
        r is Some ==> (no_edge_space(line@.take(first_index(line@, ':')->Some_0))
            ==> r->Some_0.word@ == line@.take(first_index(line@, ':')->Some_0)),
{
    let n = line.unicode_len();
    match find_char(line, ':') {
        None => None,
        Some(c) => {
            proof {
                lemma_first_index_bound(line@, ':');
            }
            let head = line.substring_char(0, c);
            let rest = line.substring_char(c + 1, n);
            let m = rest.unicode_len();
            match find_char(rest, ',') {
                None => None,
                Some(k) => {
                    proof {
                        lemma_first_index_bound(rest@, ',');
                    }
                    let pronunciation = rest.substring_char(0, k);
                    let definition = rest.substring_char(k + 1, m);
                    assert(head@ =~= line@.take(c as int));
                    assert(rest@ =~= line@.skip(c + 1));
                    assert(pronunciation@ =~= rest@.take(k as int));
                    assert(definition@ =~= rest@.skip(k + 1));
                    proof {
                        if no_edge_space(head@) {
                            lemma_trim_clean(head@);
                        }
                    }
                    Some(
                        RandomWord {
                            word: trim_text(head),
                            pronunciation: String::from_str(pronunciation),
                            definition: String::from_str(definition),
                        },
                    )
                },
            }
        },
    }
}

/// Text with no white space at its edges is its own trim.
pub proof fn lemma_trim_clean(s: Seq<char>)
    requires
        no_edge_space(s),
    ensures
        trimmed(s) == s,
{
}

proof fn lemma_first_index_bound(s: Seq<char>, d: char)
    ensures
        match first_index(s, d) {
            Some(i) => 0 <= i < s.len() && s[i] == d,
            None => true,
        },
    decreases s.len(),
{
    if s.len() > 0 {
        lemma_first_index_bound(s.drop_first(), d);
    }
}

/// Reads every line that parses, in order, skipping the others.
pub fn parse_lines(lines: &Vec<String>) -> (r: Vec<RandomWord>)
    ensures
        record_fields(r@) == parsed_lines(lines@.map_values(|l: String| l@)),
        words_of(r@) == parsed_words(lines@.map_values(|l: String| l@)),
{
    let ghost texts = lines@.map_values(|l: String| l@);
    let mut r: Vec<RandomWord> = Vec::new();
    let mut k: usize = 0;
    while k < lines.len()
        invariant
            k <= lines@.len(),
            texts == lines@.map_values(|l: String| l@),
            record_fields(r@) == parsed_lines(texts.take(k as int)),
        decreases lines@.len() - k,
    {
        assert(texts.take(k as int + 1).drop_last() =~= texts.take(k as int));
        assert(texts.take(k as int + 1).last() == lines@[k as int]@);
        if let Some(w) = parse_line_to_random_word(lines[k].as_str()) {
            let ghost prev = r@;
            r.push(w);
            assert(record_fields(r@) =~= record_fields(prev).push(
                (w.word@, w.pronunciation@, w.definition@),
            ));
        }
        k = k + 1;
    }
    assert(texts.take(lines@.len() as int) =~= texts);
    assert(words_of(r@) =~= parsed_words(texts));
    r
}

/// Builds the registry state of a stored dictionary from its lines: completed,
/// with the histogram of the records that parse.
pub fn load_dictionary(lines: &Vec<String>) -> (r: DictionaryLocalState)
    ensures
        r@.status == crate::models::StatusView::Completed,
        r@.stats == Some(histogram_of(parsed_words(lines@.map_values(|l: String| l@)))),
{
    let words = parse_lines(lines);
    let stats = calculate_stats(&words);
    DictionaryLocalState { status: DictionaryStatus::Completed, stats: Some(stats) }
}

/// The stored form of `words`: one `word: pronunciation, definition` line per
/// record, joined by `\n`.
pub fn render_records(words: &Vec<RandomWord>) -> (r: String)
    ensures
        r@ == render_lines(words@),
{
    let mut out = String::new();
    let mut k: usize = 0;
    while k < words.len()
        invariant
            k <= words@.len(),
            out@ == render_lines(words@.take(k as int)),
        decreases words@.len() - k,
    {
        let ghost prev = out@;
        assert(words@.take(k as int + 1).drop_last() =~= words@.take(k as int));
        if k > 0 {
            out.append("\n");
        }
        let ghost sep = out@;
        let w = &words[k];
        out.append(w.word.as_str());
        out.append(": ");
        out.append(w.pronunciation.as_str());
        out.append(", ");
        out.append(w.definition.as_str());
        proof {
            reveal_strlit(": ");
            reveal_strlit(", ");
            reveal_strlit("\n");
        }
        assert(": "@ =~= seq![':', ' ']);
        assert(", "@ =~= seq![',', ' ']);
        assert(out@ =~= sep + record_line(words@[k as int]));
        if k > 0 {
            assert("\n"@ =~= seq!['\n']);
            assert(out@ =~= render_lines(words@.take(k as int + 1)));
        } else {
            assert(out@ =~= render_lines(words@.take(k as int + 1)));
        }
        k = k + 1;
    }
    assert(words@.take(words@.len() as int) =~= words@);
    out
}

} // verus!
