use vstd::prelude::*;

use crate::models::{DictionaryError, RandomWord};
use crate::records::{render_lines, render_records, same_word, sort_words, sorted_by_word};
use crate::stats::{
    alpha_count, calculate_stats, lemma_alpha_count_permutation, histogram_of, lemma_histogram_total, sum_first, words_of, Histogram,
    LETTERS,
};

verus! {

broadcast use vstd::seq_lib::group_to_multiset_ensures;

/// How one fetch operation ended.
pub enum FetchOutcome {
    /// The remote answered with a well-formed record.
    Fetched(RandomWord),
    /// The remote answered with a non-success status, or the transport failed.
    RemoteFailed(String),
    /// The remote answered, but its payload is not a record.
    Malformed,
    /// The operation itself crashed or was cancelled.
    TaskFailed(String),
}

/// The error that a failed outcome ends a run with.
pub open spec fn failure_error(o: FetchOutcome, e: DictionaryError) -> bool {
    match o {
        FetchOutcome::Fetched(_) => false,
        FetchOutcome::RemoteFailed(d) => e is RemoteReqFailed && e->RemoteReqFailed_0@ == d@,
        FetchOutcome::Malformed => e is FailedToDeserialise,
        FetchOutcome::TaskFailed(d) => e is JoinError && e->JoinError_0@ == d@,
    }
}

/// The records of the first `n` outcomes, all of which are successes.
pub open spec fn fetched_records(s: Seq<FetchOutcome>, n: int) -> Seq<RandomWord>
    decreases n,
{
    if n <= 0 {
        Seq::empty()
    } else {
        match s[n - 1] {
            FetchOutcome::Fetched(w) => fetched_records(s, n - 1).push(w),
            _ => fetched_records(s, n - 1),
        }
    }
}

/// Index of the first failed outcome, if any.
pub open spec fn first_failure(s: Seq<FetchOutcome>) -> Option<int>
    decreases s.len(),
{
    if s.len() == 0 {
        None
    } else if !(s[0] is Fetched) {
        Some(0)
    } else {
        match first_failure(s.drop_first()) {
            Some(i) => Some(i + 1),
            None => None,
        }
    }
}

/// The result of a run in which every fetch succeeded.
pub struct RunOutput {
    /// The records, sorted by word.
    pub words: Vec<RandomWord>,
    /// Their histogram.
    pub stats: Histogram,
    /// Their stored form.
    pub artifact: String,
}

impl RunOutput {
    /// `self` holds exactly the records `fetched`, sorted by word (records with
    /// equal words in their order in `fetched`), with their histogram and
    /// stored form.
    pub open spec fn of(&self, fetched: Seq<RandomWord>) -> bool {
        &&& self.words@.to_multiset() == fetched.to_multiset()
        &&& self.words@.len() == fetched.len()
        &&& sorted_by_word(self.words@)
        &&& forall|x: Seq<char>| #[trigger] same_word(self.words@, x) == same_word(fetched, x)
        &&& self.stats@ == histogram_of(words_of(self.words@))
        &&& self.artifact@ == render_lines(self.words@)
    }
}

/// The aggregation state of one run: how many records it needs and those
/// collected so far, in completion order.
pub struct FetchRun {
    expected: usize,
    words: Vec<RandomWord>,
}

impl FetchRun {
    pub closed spec fn expected(&self) -> nat {
        self.expected as nat
    }

    pub closed spec fn collected(&self) -> Seq<RandomWord> {
        self.words@
    }

    /// A run that needs `count` records and holds none.
    pub fn new(count: u32) -> (r: FetchRun)
        ensures
            r.expected() == count,
            r.collected() == Seq::<RandomWord>::empty(),
    {
        FetchRun { expected: count as usize, words: Vec::new() }
    }

    /// Whether every needed record has been collected.
    pub fn is_complete(&self) -> (r: bool)
        ensures
            r == (self.collected().len() >= self.expected()),
    {
        self.words.len() >= self.expected
    }

    /// Takes the outcome of one fetch. A record is kept; any failure discards
    /// every record collected so far and gives the error that ends the run.
    pub fn record(&mut self, outcome: FetchOutcome) -> (r: Result<(), DictionaryError>)
        ensures
            final(self).expected() == old(self).expected(),
            match outcome {
                FetchOutcome::Fetched(w) => r is Ok && final(self).collected() == old(
                    self,
                ).collected().push(w),
                _ => r is Err && failure_error(outcome, r->Err_0) && final(self).collected()
                    == Seq::<RandomWord>::empty(),
            },
    {
        match outcome {
            FetchOutcome::Fetched(w) => {
                self.words.push(w);
                Ok(())
            },
            FetchOutcome::RemoteFailed(detail) => {
                self.words = Vec::new();
                Err(DictionaryError::RemoteReqFailed(detail))
            },
            FetchOutcome::Malformed => {
                self.words = Vec::new();
                Err(DictionaryError::FailedToDeserialise)
            },
            FetchOutcome::TaskFailed(detail) => {
                self.words = Vec::new();
                Err(DictionaryError::JoinError(detail))
            },
        }
    }

    /// Ends a run whose records are all in: sorts them by word and computes
    /// their histogram and stored form.
    pub fn finish(self) -> (r: RunOutput)
        ensures
            r.of(self.collected()),
    {
        let words = sort_words(self.words);
        proof {
            vstd::seq_lib::to_multiset_len(words@);
            vstd::seq_lib::to_multiset_len(self.words@);
        }
        let stats = calculate_stats(&words);
        let artifact = render_records(&words);
        RunOutput { words, stats, artifact }
    }
}

/// Runs the aggregation over the outcomes of `count` fetches, in the order in
/// which they completed: the first failure ends the run with its error and no
/// records; if all succeed, the output holds exactly their records.
pub fn collect_outcomes(count: u32, outcomes: Vec<FetchOutcome>) -> (r: Result<
    RunOutput,
    DictionaryError,
>)
    requires
        outcomes@.len() == count,
    ensures
        match first_failure(outcomes@) {
            Some(i) => r is Err && failure_error(outcomes@[i], r->Err_0),
            None => r is Ok && r->Ok_0.of(fetched_records(outcomes@, outcomes@.len() as int)),
        },
{
    let ghost all = outcomes@;
    let mut run = FetchRun::new(count);
    let mut rest = outcomes;
    let mut k: usize = 0;
    let mut queue: Vec<FetchOutcome> = Vec::new();
    while rest.len() > 0
        invariant
            all == outcomes@,
            all.len() == count,
            queue@.len() + rest@.len() == all.len(),
            forall|j: int| 0 <= j < queue@.len() ==> queue@[j] == all[all.len() - 1 - j],
            rest@ == all.take(rest@.len() as int),
        decreases rest@.len(),
    {
        let o = rest.pop().unwrap();
        queue.push(o);
    }
    while k < count as usize
        invariant
            all == outcomes@,
            all.len() == count,
            k <= count,
            queue@.len() == all.len() - k,
            forall|j: int| 0 <= j < queue@.len() ==> queue@[j] == all[all.len() - 1 - j],
            run.expected() == count,
            run.collected() == fetched_records(all, k as int),
            forall|j: int| 0 <= j < k ==> all[j] is Fetched,
        decreases count - k,
    {
        let o = queue.pop().unwrap();
        assert(o == all[k as int]);
        let ghost og = o;
        match run.record(o) {
            Ok(()) => {
                assert(og is Fetched);
                assert(fetched_records(all, k as int + 1) == fetched_records(all, k as int).push(
                    og->Fetched_0,
                ));
            },
            Err(e) => {
                assert(!(og is Fetched));
                assert(failure_error(all[k as int], e));
                proof {
                    lemma_first_failure(all, k as int);
                }
                return Err(e);
            },
        }
        k = k + 1;
    }
    proof {
        lemma_no_failure(all);
        lemma_fetched_len(all, all.len() as int);
    }
    Ok(run.finish())
}

/// A run whose fetches all succeed yields exactly `count` records, and the
/// counts of its histogram add up to the number of fetched records that start
/// with an ASCII letter.
pub proof fn lemma_successful_run(outcomes: Seq<FetchOutcome>, out: RunOutput)
    requires
        first_failure(outcomes) is None,
        out.of(fetched_records(outcomes, outcomes.len() as int)),
    ensures
        out.words@.len() == outcomes.len(),
        sum_first(out.stats@, LETTERS as int) == alpha_count(words_of(out.words@)),
        sum_first(out.stats@, LETTERS as int) == alpha_count(
            words_of(fetched_records(outcomes, outcomes.len() as int)),
        ),
{
    lemma_alpha_count_permutation(out.words@, fetched_records(outcomes, outcomes.len() as int));
    lemma_none_failed(outcomes);
    lemma_fetched_len(outcomes, outcomes.len() as int);
    lemma_histogram_total(words_of(out.words@));
}

/// When any fetch fails the run ends in an error and hands out no records.
pub proof fn lemma_failed_run(outcomes: Seq<FetchOutcome>, i: int)
    requires
        0 <= i < outcomes.len(),
        !(outcomes[i] is Fetched),
    ensures
        first_failure(outcomes) is Some,
{
    if first_failure(outcomes) is None {
        lemma_none_failed(outcomes);
    }
}

proof fn lemma_none_failed(s: Seq<FetchOutcome>)
    requires
        first_failure(s) is None,
    ensures
        forall|j: int| 0 <= j < s.len() ==> s[j] is Fetched,
    decreases s.len(),
{
    if s.len() > 0 {
        lemma_none_failed(s.drop_first());
        assert forall|j: int| 0 <= j < s.len() implies s[j] is Fetched by {
            if j > 0 {
                assert(s[j] == s.drop_first()[j - 1]);
            }
        }
    }
}

proof fn lemma_first_failure(s: Seq<FetchOutcome>, k: int)
    requires
        0 <= k < s.len(),
        forall|j: int| 0 <= j < k ==> s[j] is Fetched,
        !(s[k] is Fetched),
    ensures
        first_failure(s) == Some(k),
    decreases k,
{
    if k > 0 {
        lemma_first_failure(s.drop_first(), k - 1);
    }
}

proof fn lemma_no_failure(s: Seq<FetchOutcome>)
    requires
        forall|j: int| 0 <= j < s.len() ==> s[j] is Fetched,
    ensures
        first_failure(s) is None,
    decreases s.len(),
{
    if s.len() > 0 {
        lemma_no_failure(s.drop_first());
    }
}

proof fn lemma_fetched_len(s: Seq<FetchOutcome>, n: int)
    requires
        0 <= n <= s.len(),
        forall|j: int| 0 <= j < s.len() ==> s[j] is Fetched,
    ensures
        fetched_records(s, n).len() == n,
    decreases n,
{
    if n > 0 {
        lemma_fetched_len(s, n - 1);
    }
}

} // verus!
