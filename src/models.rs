use vstd::prelude::*;

use crate::stats::Histogram;

verus! {

/// One fetched record: a word with its pronunciation and definition.
pub struct RandomWord {
    pub word: String,
    pub pronunciation: String,
    pub definition: String,
}

impl RandomWord {
    pub fn clone(&self) -> (r: RandomWord)
        ensures
            r.word@ == self.word@,
            r.pronunciation@ == self.pronunciation@,
            r.definition@ == self.definition@,
    {
        RandomWord {
            word: self.word.clone(),
            pronunciation: self.pronunciation.clone(),
            definition: self.definition.clone(),
        }
    }
}

/// A request to build a dictionary of `word_count` records under `dict_name`.
pub struct DictGenerateRequest {
    pub dict_name: String,
    pub word_count: u32,
}

/// The state of one job.
pub enum DictionaryStatus {
    Completed,
    InProgress,
    Failed(String),
}

/// Mathematical model of a [`DictionaryStatus`].
pub enum StatusView {
    Completed,
    InProgress,
    Failed(Seq<char>),
}

impl View for DictionaryStatus {
    type V = StatusView;

    open spec fn view(&self) -> StatusView {
        match self {
            DictionaryStatus::Completed => StatusView::Completed,
            DictionaryStatus::InProgress => StatusView::InProgress,
            DictionaryStatus::Failed(reason) => StatusView::Failed(reason@),
        }
    }
}

impl Clone for DictionaryStatus {
    fn clone(&self) -> (r: DictionaryStatus)
        ensures
            r@ == self@,
    {
        match self {
            DictionaryStatus::Completed => DictionaryStatus::Completed,
            DictionaryStatus::InProgress => DictionaryStatus::InProgress,
            DictionaryStatus::Failed(reason) => DictionaryStatus::Failed(reason.clone()),
        }
    }
}

impl DictionaryStatus {
    /// The short label of the status: "completed", "in-progress" or "failed".
    pub fn label(&self) -> (r: &'static str)
        ensures
            r@ == status_label(self@),
    {
        proof {
            reveal_strlit("completed");
            reveal_strlit("in-progress");
            reveal_strlit("failed");
        }
        match self {
            DictionaryStatus::Completed => "completed",
            DictionaryStatus::InProgress => "in-progress",
            DictionaryStatus::Failed(_) => "failed",
        }
    }
}

pub open spec fn status_label(s: StatusView) -> Seq<char> {
    match s {
        StatusView::Completed => seq!['c', 'o', 'm', 'p', 'l', 'e', 't', 'e', 'd'],
        StatusView::InProgress => seq!['i', 'n', '-', 'p', 'r', 'o', 'g', 'r', 'e', 's', 's'],
        StatusView::Failed(_) => seq!['f', 'a', 'i', 'l', 'e', 'd'],
    }
}

/// What the registry holds for one job: its status and, once known, its histogram.
pub struct DictionaryLocalState {
    pub status: DictionaryStatus,
    pub stats: Option<Histogram>,
}

/// Mathematical model of a [`DictionaryLocalState`].
pub struct LocalStateView {
    pub status: StatusView,
    pub stats: Option<Seq<nat>>,
}

impl View for DictionaryLocalState {
    type V = LocalStateView;

    open spec fn view(&self) -> LocalStateView {
        LocalStateView {
            status: self.status@,
            stats: match self.stats {
                Some(h) => Some(h@),
                None => None,
            },
        }
    }
}

impl Clone for DictionaryLocalState {
    fn clone(&self) -> (r: DictionaryLocalState)
        ensures
            r@ == self@,
    {
        let stats = match &self.stats {
            Some(h) => Some(h.clone()),
            None => None,
        };
        DictionaryLocalState { status: self.status.clone(), stats }
    }
}

impl Default for DictionaryLocalState {
    /// A fresh job: in progress, with no histogram yet.
    fn default() -> (r: DictionaryLocalState)
        ensures
            r@.status == StatusView::InProgress,
            r@.stats is None,
    {
        DictionaryLocalState { status: DictionaryStatus::InProgress, stats: None }
    }
}

impl DictionaryLocalState {
    pub fn set_status(self, status: DictionaryStatus) -> (r: DictionaryLocalState)
        ensures
            r@ == (LocalStateView { status: status@, ..self@ }),
    {
        let mut s = self;
        s.status = status;
        s
    }

    pub fn set_stats(self, stats: Histogram) -> (r: DictionaryLocalState)
        ensures
            r@ == (LocalStateView { stats: Some(stats@), ..self@ }),
    {
        let mut s = self;
        s.stats = Some(stats);
        s
    }
}

/// Errors of a job run and of the job API.
pub enum DictionaryError {
    RemoteReqFailed(String),
    JoinError(String),
    FailedToDeserialise,
    FailedFileIO,
    EntryExist(String),
    NotFound(String),
}

/// The text of an error, as reported to callers and stored as the reason of
/// a failed job.
pub open spec fn error_text(e: DictionaryError) -> Seq<char> {
    match e {
        DictionaryError::RemoteReqFailed(d) => "request failed, due to : "@ + d@,
        DictionaryError::JoinError(d) => "request failed, due to : "@ + d@,
        DictionaryError::FailedToDeserialise => "request failed due to deserialisation issue"@,
        DictionaryError::FailedFileIO => "request failed due internal issue"@,
        DictionaryError::EntryExist(d) => "A dictionary already exist with status: "@ + d@,
        DictionaryError::NotFound(d) => "Dictionary does not exist, reason: "@ + d@,
    }
}

fn text_with(prefix: &str, detail: &String) -> (r: String)
    ensures
        r@ == prefix@ + detail@,
{
    let mut r = String::from_str(prefix);
    r.append(detail.as_str());
    r
}

impl DictionaryError {
    /// The text of the error.
    pub fn describe(&self) -> (r: String)
        ensures
            r@ == error_text(*self),
    {
        match self {
            DictionaryError::RemoteReqFailed(d) => text_with("request failed, due to : ", d),
            DictionaryError::JoinError(d) => text_with("request failed, due to : ", d),
            DictionaryError::FailedToDeserialise => String::from_str(
                "request failed due to deserialisation issue",
            ),
            DictionaryError::FailedFileIO => String::from_str("request failed due internal issue"),
            DictionaryError::EntryExist(d) => text_with(
                "A dictionary already exist with status: ",
                d,
            ),
            DictionaryError::NotFound(d) => text_with("Dictionary does not exist, reason: ", d),
        }
    }

    /// The HTTP status that reports this error: 500 for failures of a run or
    /// of storage, 409 for an existing entry, 404 for a missing one.
    pub fn status_code(&self) -> (r: u16)
        ensures
            r == (match self {
                DictionaryError::EntryExist(_) => 409u16,
                DictionaryError::NotFound(_) => 404u16,
                _ => 500u16,
            }),
    {
        match self {
            DictionaryError::RemoteReqFailed(_)
            | DictionaryError::JoinError(_)
            | DictionaryError::FailedToDeserialise
            | DictionaryError::FailedFileIO => 500,
            DictionaryError::EntryExist(_) => 409,
            DictionaryError::NotFound(_) => 404,
        }
    }
}

} // verus!
