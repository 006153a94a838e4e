use std::sync::Arc;

use dashmap::mapref::entry::Entry;
use dashmap::DashMap;
use tokio::sync::Semaphore;
use vstd::prelude::*;

use crate::models::{
    error_text, status_label, DictionaryError, DictionaryLocalState, DictionaryStatus,
    LocalStateView, StatusView,
};
use crate::records::{load_dictionary, parsed_words};
use crate::stats::{histogram_of, Histogram};

verus! {

#[verifier::external_type_specification]
#[verifier::external_body]
#[verifier::reject_recursive_types(K)]
#[verifier::reject_recursive_types(V)]
#[verifier::reject_recursive_types(S)]
pub struct ExDashMap<K, V, S>(DashMap<K, V, S>);

#[verifier::external_type_specification]
#[verifier::external_body]
pub struct ExSemaphore(Semaphore);

/// The entries of a registry map, by key.
pub uninterp spec fn entries_of(m: DashMap<String, DictionaryLocalState>) -> Map<
    Seq<char>,
    DictionaryLocalState,
>;

/// Relies on `DashMap::new`: a map with no entries.
#[verifier::external_body]
fn map_new() -> (r: DashMap<String, DictionaryLocalState>)
    ensures
        entries_of(r).dom() == Set::<Seq<char>>::empty(),
{
    DashMap::new()
}

/// Relies on `DashMap::get`: the value stored under `k`, if any, copied out
/// by the entry's own `clone`.
#[verifier::external_body]
fn map_get(m: &DashMap<String, DictionaryLocalState>, k: &str) -> (r: Option<
    DictionaryLocalState,
>)
    ensures
        match r {
            Some(v) => entries_of(*m).contains_key(k@) && v@ == entries_of(*m)[k@]@,
            None => !entries_of(*m).contains_key(k@),
        },
{
    m.get(k).map(|e| e.value().clone())
}

/// Relies on `DashMap::insert`: `k` maps to `v` afterwards, the other
/// entries stay.
#[verifier::external_body]
fn map_insert(m: &mut DashMap<String, DictionaryLocalState>, k: String, v: DictionaryLocalState)
    ensures
        entries_of(*final(m)) == entries_of(*old(m)).insert(k@, v),
{
    m.insert(k, v);
}

/// Relies on `DashMap::entry`: inserts `v` under `k` only if `k` has no
/// entry, and says whether it did.
#[verifier::external_body]
fn map_insert_if_absent(
    m: &mut DashMap<String, DictionaryLocalState>,
    k: String,
    v: DictionaryLocalState,
) -> (r: bool)
    ensures
        r == !entries_of(*old(m)).contains_key(k@),
        entries_of(*final(m)) == (if r {
            entries_of(*old(m)).insert(k@, v)
        } else {
            entries_of(*old(m))
        }),
{
    match m.entry(k) {
        Entry::Occupied(_) => false,
        Entry::Vacant(e) => {
            e.insert(v);
            true
        },
    }
}

/// Relies on `DashMap::remove`: takes the entry of `k` out of the map and
/// hands back its value.
#[verifier::external_body]
fn map_remove(m: &mut DashMap<String, DictionaryLocalState>, k: &str) -> (r: Option<
    DictionaryLocalState,
>)
    ensures
        entries_of(*final(m)) == entries_of(*old(m)).remove(k@),
        match r {
            Some(v) => entries_of(*old(m)).contains_key(k@) && v == entries_of(*old(m))[k@],
            None => !entries_of(*old(m)).contains_key(k@),
        },
{
    m.remove(k).map(|(_, v)| v)
}

/// The number of permits a pool was made with.
pub uninterp spec fn initial_permits(s: Semaphore) -> nat;

/// The largest pool this library makes. `Semaphore::new` panics above
/// `usize::MAX >> 3` permits, which is at least this on every target.
pub const MAX_PERMITS: usize = 536870911;

/// Relies on `Semaphore::new`: a pool of `permits` permits. It panics above
/// `Semaphore::MAX_PERMITS` (`usize::MAX >> 3`), which the `requires` rules out.
#[verifier::external_body]
fn new_limiter(permits: usize) -> (r: Semaphore)
    requires
        permits <= MAX_PERMITS,
    ensures
        initial_permits(r) == permits as nat,
{
    Semaphore::new(permits)
}

/// The job registry and the permit pool that bounds outbound requests across
/// all jobs.
pub struct AppState {
    map: DashMap<String, DictionaryLocalState>,
    permits: Arc<Semaphore>,
}

impl AppState {
    /// The registry's entries, by dictionary name.
    pub closed spec fn entries(&self) -> Map<Seq<char>, LocalStateView> {
        entries_of(self.map).map_values(|v: DictionaryLocalState| v@)
    }

    /// The number of permits the shared pool was made with. No method
    /// changes it.
    pub closed spec fn capacity(&self) -> nat {
        initial_permits(*self.permits)
    }

    /// An empty registry with a pool of `limit` permits.
    pub fn init_store(limit: usize) -> (r: AppState)
        requires
            limit <= MAX_PERMITS,
        ensures
            r.capacity() == limit as nat,
            r.entries() == Map::<Seq<char>, LocalStateView>::empty(),
    {
        let r = AppState { map: map_new(), permits: Arc::new(new_limiter(limit)) };
        assert(r.entries() =~= Map::<Seq<char>, LocalStateView>::empty());
        r
    }

    /// The permit pool, shared by every run.
    pub fn permits(&self) -> (r: &Arc<Semaphore>)
        ensures
            initial_permits(**r) == self.capacity(),
    {
        &self.permits
    }

    pub fn get_entry(&self, dict_name: &str) -> (r: Option<DictionaryLocalState>)
        ensures
            match r {
                Some(v) => self.entries().contains_key(dict_name@) && v@ == self.entries()[dict_name@],
                None => !self.entries().contains_key(dict_name@),
            },
    {
        map_get(&self.map, dict_name)
    }

    pub fn get_dict_status(&self, dict_name: &str) -> (r: Option<DictionaryStatus>)
        ensures
            match r {
                Some(s) => self.entries().contains_key(dict_name@) && s@ == self.entries()[dict_name@].status,
                None => !self.entries().contains_key(dict_name@),
            },
    {
        match map_get(&self.map, dict_name) {
            Some(e) => Some(e.status),
            None => None,
        }
    }

    /// Stores `data` under `dict_name`, replacing what was there.
    pub fn set_dict_data(&mut self, dict_name: String, data: DictionaryLocalState)
        ensures
            final(self).capacity() == old(self).capacity(),
            final(self).entries() == old(self).entries().insert(dict_name@, data@),
    {
        let ghost v = data@;
        map_insert(&mut self.map, dict_name, data);
        assert(self.entries() =~= old(self).entries().insert(dict_name@, v));
    }

    /// Sets the status of the entry of `dict_name`, if there is one; its
    /// histogram stays.
    pub fn update_dict_status(&mut self, dict_name: &str, status: DictionaryStatus)
        ensures
            final(self).capacity() == old(self).capacity(),
            if old(self).entries().contains_key(dict_name@) {
                final(self).entries() == old(self).entries().insert(
                    dict_name@,
                    LocalStateView { status: status@, ..old(self).entries()[dict_name@] },
                )
            } else {
                final(self).entries() == old(self).entries()
            },
    {
        match map_get(&self.map, dict_name) {
            Some(e) => {
                let updated = e.set_status(status);
                self.set_dict_data(dict_name.to_string(), updated);
            },
            None => {},
        }
    }

    /// Removes the entry of `dict_name` and gives back its status.
    pub fn delete_entry(&mut self, dict_name: &str) -> (r: Option<DictionaryStatus>)
        ensures
            final(self).capacity() == old(self).capacity(),
            final(self).entries() == old(self).entries().remove(dict_name@),
            match r {
                Some(s) => old(self).entries().contains_key(dict_name@) && s@ == old(
                    self,
                ).entries()[dict_name@].status,
                None => !old(self).entries().contains_key(dict_name@),
            },
    {
        let r = map_remove(&mut self.map, dict_name);
        assert(self.entries() =~= old(self).entries().remove(dict_name@));
        match r {
            Some(e) => Some(e.status),
            None => None,
        }
    }
}

/// The entry of a job just submitted: in progress, no histogram.
pub open spec fn fresh_entry() -> LocalStateView {
    LocalStateView { status: StatusView::InProgress, stats: None }
}

/// The entry of a job whose run ended with `outcome`, from the entry `prior`.
pub open spec fn terminal_entry(
    prior: LocalStateView,
    outcome: Result<Seq<nat>, DictionaryError>,
) -> LocalStateView {
    match outcome {
        Ok(h) => LocalStateView { status: StatusView::Completed, stats: Some(h) },
        Err(e) => LocalStateView { status: StatusView::Failed(error_text(e)), ..prior },
    }
}

/// The entries after restoring `items` in order, each only where its name has
/// no entry yet.
pub open spec fn restored(
    m: Map<Seq<char>, LocalStateView>,
    items: Seq<(Seq<char>, LocalStateView)>,
) -> Map<Seq<char>, LocalStateView>
    decreases items.len(),
{
    if items.len() == 0 {
        m
    } else {
        let before = restored(m, items.drop_last());
        let (k, v) = items.last();
        if before.contains_key(k) {
            before
        } else {
            before.insert(k, v)
        }
    }
}

/// The registry state of a stored dictionary made of `lines`.
pub open spec fn stored_entry(lines: Seq<String>) -> LocalStateView {
    LocalStateView {
        status: StatusView::Completed,
        stats: Some(histogram_of(parsed_words(lines.map_values(|l: String| l@)))),
    }
}

impl AppState {
    /// Reserves `dict_name` for a new run. Fails with `EntryExist`, carrying
    /// the current status label, if the name has an entry in any state; the
    /// registry is then unchanged. Otherwise the entry is in progress and the
    /// caller starts the run.
    pub fn submit(&mut self, dict_name: &str) -> (r: Result<(), DictionaryError>)
        ensures
            final(self).capacity() == old(self).capacity(),
            old(self).entries().contains_key(dict_name@) ==> {
                &&& r is Err
                &&& r->Err_0 is EntryExist
                &&& r->Err_0->EntryExist_0@ == status_label(
                    old(self).entries()[dict_name@].status,
                )
                &&& final(self).entries() == old(self).entries()
            },
            !old(self).entries().contains_key(dict_name@) ==> {
                &&& r is Ok
                &&& final(self).entries() == old(self).entries().insert(dict_name@, fresh_entry())
            },
    {
        let fresh = DictionaryLocalState::default();
        let ghost v = fresh@;
        let inserted = map_insert_if_absent(&mut self.map, dict_name.to_string(), fresh);
        if inserted {
            assert(self.entries() =~= old(self).entries().insert(dict_name@, v));
            Ok(())
        } else {
            assert(self.entries() =~= old(self).entries());
            match self.get_dict_status(dict_name) {
                Some(status) => Err(DictionaryError::EntryExist(status.label().to_string())),
                None => Err(DictionaryError::EntryExist(String::new())),
            }
        }
    }

    /// Writes the terminal state of the run of `dict_name`: completed with its
    /// histogram, or failed with the error's text and no new histogram. Only
    /// an entry in progress moves; an absent entry (deleted meanwhile) or one
    /// already completed or failed stays as it is.
    pub fn finish_job(&mut self, dict_name: &str, outcome: Result<Histogram, DictionaryError>)
        ensures
            final(self).capacity() == old(self).capacity(),
            (old(self).entries().contains_key(dict_name@) && old(self).entries()[dict_name@].status
                is InProgress) ==> final(self).entries() == old(self).entries().insert(
                dict_name@,
                terminal_entry(
                    old(self).entries()[dict_name@],
                    match outcome {
                        Ok(h) => Ok(h@),
                        Err(e) => Err(e),
                    },
                ),
            ),
            !(old(self).entries().contains_key(dict_name@) && old(self).entries()[dict_name@].status
                is InProgress) ==> final(self).entries() == old(self).entries(),
    {
        match map_get(&self.map, dict_name) {
            None => {},
            Some(prior) => {
                if let DictionaryStatus::InProgress = prior.status {
                    let updated = match outcome {
                        Ok(stats) => prior.set_status(DictionaryStatus::Completed).set_stats(stats),
                        Err(e) => prior.set_status(DictionaryStatus::Failed(e.describe())),
                    };
                    self.set_dict_data(dict_name.to_string(), updated);
                }
            },
        }
    }

    /// Deletes the job `dict_name`. Gives `Ok(true)` when the job was completed,
    /// so that its stored dictionary must be removed too, `Ok(false)` for a job
    /// in progress or failed, and `NotFound` when there is no such job.
    pub fn delete_dictionary(&mut self, dict_name: &str) -> (r: Result<bool, DictionaryError>)
        ensures
            final(self).capacity() == old(self).capacity(),
            final(self).entries() == old(self).entries().remove(dict_name@),
            old(self).entries().contains_key(dict_name@) ==> r == Ok::<bool, DictionaryError>(
                old(self).entries()[dict_name@].status is Completed,
            ),
            !old(self).entries().contains_key(dict_name@) ==> r is Err && r->Err_0 is NotFound,
    {
        match self.delete_entry(dict_name) {
            Some(DictionaryStatus::Completed) => Ok(true),
            Some(_) => Ok(false),
            None => Err(
                DictionaryError::NotFound(
                    "dictionary does not exist, failed to delete".to_string(),
                ),
            ),
        }
    }

    /// Whether the stored dictionary of `dict_name` can be downloaded: only a
    /// completed job has one; otherwise `NotFound` says why.
    pub fn download_dictionary(&self, dict_name: &str) -> (r: Result<(), DictionaryError>)
        ensures
            r is Ok <==> (self.entries().contains_key(dict_name@)
                && self.entries()[dict_name@].status is Completed),
            r is Err ==> r->Err_0 is NotFound,
            (self.entries().contains_key(dict_name@) && self.entries()[dict_name@].status is Failed)
                ==> r->Err_0->NotFound_0@ == "status Failed: "@
                + self.entries()[dict_name@].status->Failed_0,
            (self.entries().contains_key(dict_name@) && self.entries()[dict_name@].status
                is InProgress) ==> r->Err_0->NotFound_0@
                == "status Inprogress, still being generated"@,
            !self.entries().contains_key(dict_name@) ==> r->Err_0->NotFound_0@
                == "no status found"@,
    {
        match self.get_dict_status(dict_name) {
            Some(DictionaryStatus::Completed) => Ok(()),
            Some(DictionaryStatus::Failed(e)) => {
                let mut msg = String::from_str("status Failed: ");
                msg.append(e.as_str());
                Err(DictionaryError::NotFound(msg))
            },
            Some(DictionaryStatus::InProgress) => Err(
                DictionaryError::NotFound(
                    String::from_str("status Inprogress, still being generated"),
                ),
            ),
            None => Err(DictionaryError::NotFound(String::from_str("no status found"))),
        }
    }

    /// Restores stored dictionaries into the registry, in order; a name that
    /// already has an entry keeps it.
    pub fn preload(&mut self, data: Vec<(String, DictionaryLocalState)>)
        ensures
            final(self).capacity() == old(self).capacity(),
            final(self).entries() == restored(
                old(self).entries(),
                data@.map_values(|p: (String, DictionaryLocalState)| (p.0@, p.1@)),
            ),
    {
        let ghost items = data@.map_values(|p: (String, DictionaryLocalState)| (p.0@, p.1@));
        let n = data.len();
        let mut rest = data;
        let mut queue: Vec<(String, DictionaryLocalState)> = Vec::new();
        while rest.len() > 0
            invariant
                items == data@.map_values(|p: (String, DictionaryLocalState)| (p.0@, p.1@)),
                queue@.len() + rest@.len() == items.len(),
                rest@ == data@.take(rest@.len() as int),
                forall|j: int|
                    0 <= j < queue@.len() ==> #[trigger] queue@[j] == data@[items.len() - 1 - j],
            decreases rest@.len(),
        {
            let p = rest.pop().unwrap();
            queue.push(p);
        }
        let mut k: usize = 0;
        while queue.len() > 0
            invariant
                items == data@.map_values(|p: (String, DictionaryLocalState)| (p.0@, p.1@)),
                queue@.len() + k == items.len(),
                items.len() == n,
                forall|j: int|
                    0 <= j < queue@.len() ==> #[trigger] queue@[j] == data@[items.len() - 1 - j],
                self.entries() == restored(old(self).entries(), items.take(k as int)),
                self.capacity() == old(self).capacity(),
            decreases queue@.len(),
        {
            let (name, state) = queue.pop().unwrap();
            let ghost key = name@;
            let ghost v = state@;
            assert(items.take(k as int + 1).drop_last() =~= items.take(k as int));
            assert(items.take(k as int + 1).last() == (key, v));
            let inserted = map_insert_if_absent(&mut self.map, name, state);
            proof {
                if inserted {
                    assert(self.entries() =~= restored(old(self).entries(), items.take(k as int))
                        .insert(key, v));
                } else {
                    assert(self.entries() =~= restored(old(self).entries(), items.take(k as int)));
                }
            }
            k = k + 1;
        }
        assert(items.take(k as int) =~= items);
    }
}

/// A job whose run fails ends failed with no histogram: no partial
/// statistics of it are ever visible.
pub proof fn lemma_failed_job_has_no_stats(e: DictionaryError)
    ensures
        terminal_entry(fresh_entry(), Err(e)).status is Failed,
        terminal_entry(fresh_entry(), Err(e)).stats is None,
{
}

/// Once a job is deleted the registry has no entry for it, so its status and
/// statistics are reported as not found.
pub proof fn lemma_deleted_job_not_found(before: AppState, after: AppState, name: Seq<char>)
    requires
        after.entries() == before.entries().remove(name),
    ensures
        !after.entries().contains_key(name),
{
}

/// Builds the registry state of each stored dictionary, given as its name
/// and its lines.
pub fn preload_local_state(artifacts: &Vec<(String, Vec<String>)>) -> (r: Vec<
    (String, DictionaryLocalState),
>)
    ensures
        r@.len() == artifacts@.len(),
        forall|i: int|
            0 <= i < r@.len() ==> r@[i].0@ == artifacts@[i].0@ && r@[i].1@ == stored_entry(
                artifacts@[i].1@,
            ),
{
    let mut r: Vec<(String, DictionaryLocalState)> = Vec::new();
    let mut k: usize = 0;
    while k < artifacts.len()
        invariant
            k <= artifacts@.len(),
            r@.len() == k,
            forall|i: int|
                0 <= i < k ==> r@[i].0@ == artifacts@[i].0@ && r@[i].1@ == stored_entry(
                    artifacts@[i].1@,
                ),
        decreases artifacts@.len() - k,
    {
        let (name, lines) = &artifacts[k];
        let state = load_dictionary(lines);
        r.push((name.clone(), state));
        k = k + 1;
    }
    r
}

} // verus!
