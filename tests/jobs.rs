use dict_jobs::config::config_value;
use dict_jobs::fetch::{collect_outcomes, FetchOutcome, FetchRun};
use dict_jobs::models::{DictionaryError, DictionaryLocalState, DictionaryStatus, RandomWord};
use dict_jobs::records::{
    parse_line_to_random_word, parse_lines, render_records, sort_words, word_le,
};
use dict_jobs::stats::{calculate_stats, Histogram};
use dict_jobs::store::{preload_local_state, AppState};

fn rw(word: &str) -> RandomWord {
    RandomWord {
        word: word.to_string(),
        pronunciation: format!("/{word}/"),
        definition: format!("meaning of {word}"),
    }
}

fn fetched(words: &[&str]) -> Vec<FetchOutcome> {
    words.iter().map(|w| FetchOutcome::Fetched(rw(w))).collect()
}

fn words_of(v: &[RandomWord]) -> Vec<String> {
    v.iter().map(|w| w.word.clone()).collect()
}

#[test]
fn histogram_counts_leading_letters() {
    let h = calculate_stats(&vec![rw("apple"), rw("banana"), rw("cherry")]);
    assert_eq!(h.entries(), vec![('a', 1), ('b', 1), ('c', 1)]);
}

#[test]
fn histogram_folds_case_and_ignores_non_letters() {
    let h = calculate_stats(&vec![rw("Apple"), rw("avocado"), rw("1up"), rw(""), rw("éclair"), rw("Zebra")]);
    assert_eq!(h.entries(), vec![('a', 2), ('z', 1)]);
    assert_eq!(h.get('a'), 2);
    assert_eq!(h.get('A'), 2);
    assert_eq!(h.get('1'), 0);
    assert_eq!(h.get('q'), 0);
}

#[test]
fn histogram_of_nothing_is_empty() {
    let h = calculate_stats(&Vec::new());
    assert!(h.entries().is_empty());
    assert!(Histogram::new().entries().is_empty());
}

#[test]
fn histogram_is_deterministic() {
    let words = sort_words(vec![rw("kiwi"), rw("Kale"), rw("lime"), rw("42")]);
    let a = calculate_stats(&words);
    let b = calculate_stats(&words);
    assert_eq!(a.entries(), b.entries());
    assert_eq!(a.entries(), vec![('k', 2), ('l', 1)]);
}

#[test]
fn sort_orders_by_word_and_keeps_equal_words_in_order() {
    let mut first = rw("pear");
    first.definition = "first".to_string();
    let mut second = rw("pear");
    second.definition = "second".to_string();
    let sorted = sort_words(vec![rw("plum"), first, rw("fig"), second, rw("Apple")]);
    assert_eq!(words_of(&sorted), vec!["Apple", "fig", "pear", "pear", "plum"]);
    assert_eq!(sorted[2].definition, "first");
    assert_eq!(sorted[3].definition, "second");
}

#[test]
fn word_order_is_lexicographic() {
    assert!(word_le(&"app".to_string(), &"apple".to_string()));
    assert!(!word_le(&"apple".to_string(), &"app".to_string()));
    assert!(word_le(&"same".to_string(), &"same".to_string()));
    assert!(word_le(&"".to_string(), &"a".to_string()));
    assert!(word_le(&"Z".to_string(), &"a".to_string()));
}

#[test]
fn scenario_three_fetches_sorted_with_histogram() {
    let out = collect_outcomes(3, fetched(&["banana", "apple", "cherry"])).ok().unwrap();
    assert_eq!(words_of(&out.words), vec!["apple", "banana", "cherry"]);
    assert_eq!(out.stats.entries(), vec![('a', 1), ('b', 1), ('c', 1)]);
}

#[test]
fn successful_run_yields_count_records() {
    let out = collect_outcomes(5, fetched(&["b", "a", "9lives", "Ab", "c"])).ok().unwrap();
    assert_eq!(out.words.len(), 5);
    let total: usize = out.stats.entries().iter().map(|(_, n)| n).sum();
    assert_eq!(total, 4);
    let out = collect_outcomes(0, Vec::new()).ok().unwrap();
    assert!(out.words.is_empty());
    assert_eq!(out.artifact, "");
}

#[test]
fn run_output_artifact_is_the_stored_form() {
    let out = collect_outcomes(2, fetched(&["fig", "date"])).ok().unwrap();
    assert_eq!(out.artifact, "date: /date/, meaning of date\nfig: /fig/, meaning of fig");
}

#[test]
fn remote_failure_fails_the_run() {
    let mut outcomes = fetched(&["a", "b"]);
    outcomes.push(FetchOutcome::RemoteFailed("429 Too Many Requests".to_string()));
    match collect_outcomes(3, outcomes) {
        Err(DictionaryError::RemoteReqFailed(d)) => assert_eq!(d, "429 Too Many Requests"),
        _ => panic!("expected a remote failure"),
    }
}

#[test]
fn first_failure_decides_the_error() {
    let outcomes = vec![
        FetchOutcome::Fetched(rw("a")),
        FetchOutcome::Malformed,
        FetchOutcome::TaskFailed("panicked".to_string()),
    ];
    assert!(matches!(collect_outcomes(3, outcomes), Err(DictionaryError::FailedToDeserialise)));
    let outcomes = vec![FetchOutcome::TaskFailed("cancelled".to_string()), FetchOutcome::Malformed];
    match collect_outcomes(2, outcomes) {
        Err(DictionaryError::JoinError(d)) => assert_eq!(d, "cancelled"),
        _ => panic!("expected a task failure"),
    }
}

#[test]
fn failed_outcome_discards_collected_records() {
    let mut run = FetchRun::new(3);
    assert!(run.record(FetchOutcome::Fetched(rw("a"))).is_ok());
    assert!(run.record(FetchOutcome::Fetched(rw("b"))).is_ok());
    assert!(!run.is_complete());
    assert!(run.record(FetchOutcome::Malformed).is_err());
    assert!(!run.is_complete());
    let mut run = FetchRun::new(1);
    assert!(run.record(FetchOutcome::Fetched(rw("z"))).is_ok());
    assert!(run.is_complete());
    assert_eq!(words_of(&run.finish().words), vec!["z"]);
}

#[test]
fn parse_line_splits_on_first_colon_then_comma() {
    let w = parse_line_to_random_word("  apple : /ˈap.əl/, a fruit, red or green").unwrap();
    assert_eq!(w.word, "apple");
    assert_eq!(w.pronunciation, " /ˈap.əl/");
    assert_eq!(w.definition, " a fruit, red or green");
}

#[test]
fn parse_line_without_delimiters_is_none() {
    assert!(parse_line_to_random_word("no delimiters here").is_none());
    assert!(parse_line_to_random_word("word: but no comma").is_none());
    assert!(parse_line_to_random_word("").is_none());
}

#[test]
fn stored_form_reads_back() {
    let text = render_records(&vec![rw("apple"), rw("banana")]);
    assert_eq!(text, "apple: /apple/, meaning of apple\nbanana: /banana/, meaning of banana");
    let lines: Vec<String> = text.lines().map(|l| l.to_string()).collect();
    let back = parse_lines(&lines);
    assert_eq!(words_of(&back), vec!["apple", "banana"]);
    assert_eq!(back[0].pronunciation, " /apple/");
    assert_eq!(render_records(&Vec::new()), "");
}

#[test]
fn submit_reserves_and_rejects_live_names() {
    let mut state = AppState::init_store(2);
    assert!(state.submit("words").is_ok());
    assert!(matches!(state.get_dict_status("words"), Some(DictionaryStatus::InProgress)));
    match state.submit("words") {
        Err(DictionaryError::EntryExist(s)) => assert_eq!(s, "in-progress"),
        _ => panic!("expected EntryExist"),
    }
    state.finish_job("words", Ok(calculate_stats(&vec![rw("x")])));
    match state.submit("words") {
        Err(e) => {
            assert_eq!(e.status_code(), 409);
            assert_eq!(e.describe(), "A dictionary already exist with status: completed");
        }
        _ => panic!("expected EntryExist"),
    }
    assert!(state.submit("other").is_ok());
}

#[test]
fn submit_rejects_failed_names_until_deleted() {
    let mut state = AppState::init_store(1);
    assert!(state.submit("f").is_ok());
    state.finish_job("f", Err(DictionaryError::FailedToDeserialise));
    match state.submit("f") {
        Err(DictionaryError::EntryExist(s)) => assert_eq!(s, "failed"),
        _ => panic!("expected EntryExist"),
    }
    assert_eq!(state.delete_dictionary("f").ok(), Some(false));
    assert!(state.submit("f").is_ok());
}

#[test]
fn failed_job_has_reason_and_no_stats() {
    let mut state = AppState::init_store(4);
    assert!(state.submit("bad").is_ok());
    state.finish_job("bad", Err(DictionaryError::RemoteReqFailed("boom".to_string())));
    let entry = state.get_entry("bad").unwrap();
    match entry.status {
        DictionaryStatus::Failed(reason) => assert_eq!(reason, "request failed, due to : boom"),
        _ => panic!("expected Failed"),
    }
    assert!(entry.stats.is_none());
    match state.download_dictionary("bad") {
        Err(DictionaryError::NotFound(m)) => {
            assert_eq!(m, "status Failed: request failed, due to : boom")
        }
        _ => panic!("expected NotFound"),
    }
}

#[test]
fn delete_completed_job_asks_for_artifact_removal() {
    let mut state = AppState::init_store(4);
    assert!(state.submit("done").is_ok());
    state.finish_job("done", Ok(calculate_stats(&vec![rw("a")])));
    assert!(state.download_dictionary("done").is_ok());
    assert_eq!(state.delete_dictionary("done").ok(), Some(true));
    assert!(state.get_dict_status("done").is_none());
    assert!(state.get_entry("done").is_none());
    match state.delete_dictionary("done") {
        Err(e) => assert_eq!(e.status_code(), 404),
        _ => panic!("expected NotFound"),
    }
    match state.download_dictionary("done") {
        Err(DictionaryError::NotFound(m)) => assert_eq!(m, "no status found"),
        _ => panic!("expected NotFound"),
    }
}

#[test]
fn finish_after_delete_is_a_no_op() {
    let mut state = AppState::init_store(4);
    assert!(state.submit("gone").is_ok());
    assert_eq!(state.delete_dictionary("gone").ok(), Some(false));
    state.finish_job("gone", Ok(Histogram::new()));
    assert!(state.get_entry("gone").is_none());
    state.finish_job("gone", Err(DictionaryError::FailedFileIO));
    assert!(state.get_entry("gone").is_none());
}

#[test]
fn in_progress_download_is_not_found() {
    let mut state = AppState::init_store(4);
    assert!(state.submit("busy").is_ok());
    match state.download_dictionary("busy") {
        Err(DictionaryError::NotFound(m)) => {
            assert_eq!(m, "status Inprogress, still being generated")
        }
        _ => panic!("expected NotFound"),
    }
}

#[test]
fn restart_rebuilds_completed_jobs_only() {
    let alpha_lines = render_records(&vec![rw("apple"), rw("banana"), rw("cherry")]);
    let artifacts = vec![(
        "alpha".to_string(),
        alpha_lines.lines().map(|l| l.to_string()).collect::<Vec<String>>(),
    )];
    let mut state = AppState::init_store(4);
    state.preload(preload_local_state(&artifacts));
    assert!(matches!(state.get_dict_status("alpha"), Some(DictionaryStatus::Completed)));
    let stats = state.get_entry("alpha").unwrap().stats.unwrap();
    assert_eq!(stats.entries(), vec![('a', 1), ('b', 1), ('c', 1)]);
    assert!(state.get_dict_status("beta").is_none());
}

#[test]
fn preload_keeps_existing_entries() {
    let mut state = AppState::init_store(4);
    assert!(state.submit("kept").is_ok());
    let artifacts = vec![("kept".to_string(), vec!["zed: z, z".to_string()])];
    state.preload(preload_local_state(&artifacts));
    assert!(matches!(state.get_dict_status("kept"), Some(DictionaryStatus::InProgress)));
}

#[test]
fn update_status_keeps_stats() {
    let mut state = AppState::init_store(4);
    let data = DictionaryLocalState::default()
        .set_status(DictionaryStatus::Completed)
        .set_stats(calculate_stats(&vec![rw("m")]));
    state.set_dict_data("m".to_string(), data);
    state.update_dict_status("m", DictionaryStatus::Failed("x".to_string()));
    let entry = state.get_entry("m").unwrap();
    assert!(matches!(entry.status, DictionaryStatus::Failed(_)));
    assert_eq!(entry.stats.unwrap().entries(), vec![('m', 1)]);
    state.update_dict_status("absent", DictionaryStatus::Completed);
    assert!(state.get_entry("absent").is_none());
    assert_eq!(state.delete_entry("m").map(|s| s.label()), Some("failed"));
}

#[test]
fn error_texts_and_codes() {
    assert_eq!(DictionaryError::FailedFileIO.describe(), "request failed due internal issue");
    assert_eq!(
        DictionaryError::FailedToDeserialise.describe(),
        "request failed due to deserialisation issue"
    );
    assert_eq!(DictionaryError::JoinError("j".to_string()).describe(), "request failed, due to : j");
    assert_eq!(
        DictionaryError::NotFound("n".to_string()).describe(),
        "Dictionary does not exist, reason: n"
    );
    assert_eq!(DictionaryError::FailedFileIO.status_code(), 500);
    assert_eq!(DictionaryError::RemoteReqFailed(String::new()).status_code(), 500);
    assert_eq!(DictionaryError::EntryExist(String::new()).status_code(), 409);
}

#[test]
fn config_value_parses_or_defaults() {
    assert_eq!(config_value(Some("42".to_string()), 7), 42);
    assert_eq!(config_value(Some("65535".to_string()), 7), 65535);
    assert_eq!(config_value(Some("65536".to_string()), 7), 7);
    assert_eq!(config_value(Some("abc".to_string()), 7), 7);
    assert_eq!(config_value(None, 100), 100);
}

#[test]
fn pool_is_made_with_the_limit() {
    assert_eq!(AppState::init_store(5).permits().available_permits(), 5);
    let mut state = AppState::init_store(2);
    assert!(state.submit("p").is_ok());
    assert_eq!(state.permits().available_permits(), 2);
}

#[test]
fn config_value_follows_u16_syntax() {
    assert_eq!(config_value(Some("+7".to_string()), 1), 7);
    assert_eq!(config_value(Some("007".to_string()), 1), 7);
    assert_eq!(config_value(Some("+".to_string()), 1), 1);
    assert_eq!(config_value(Some("-1".to_string()), 1), 1);
    assert_eq!(config_value(Some("".to_string()), 1), 1);
    assert_eq!(config_value(Some(" 8".to_string()), 1), 1);
}

#[test]
fn stored_word_without_edge_space_reads_back_unchanged() {
    let w = parse_line_to_random_word("cherry: /ch/, fruit").unwrap();
    assert_eq!(w.word, "cherry");
}

#[test]
fn stale_run_does_not_change_a_finished_job() {
    let mut state = AppState::init_store(4);
    assert!(state.submit("job").is_ok());
    assert_eq!(state.delete_dictionary("job").ok(), Some(false));
    assert!(state.submit("job").is_ok());
    state.finish_job("job", Ok(calculate_stats(&vec![rw("owl")])));
    state.finish_job("job", Err(DictionaryError::FailedToDeserialise));
    let entry = state.get_entry("job").unwrap();
    assert!(matches!(entry.status, DictionaryStatus::Completed));
    assert_eq!(entry.stats.unwrap().entries(), vec![('o', 1)]);
    state.finish_job("job", Ok(Histogram::new()));
    assert_eq!(state.get_entry("job").unwrap().stats.unwrap().entries(), vec![('o', 1)]);
}

#[test]
fn failed_job_stays_failed() {
    let mut state = AppState::init_store(4);
    assert!(state.submit("f2").is_ok());
    state.finish_job("f2", Err(DictionaryError::FailedFileIO));
    state.finish_job("f2", Ok(calculate_stats(&vec![rw("a")])));
    let entry = state.get_entry("f2").unwrap();
    assert!(matches!(entry.status, DictionaryStatus::Failed(_)));
    assert!(entry.stats.is_none());
}

#[test]
fn trim_removes_unicode_space_at_edges() {
    let w = parse_line_to_random_word("\u{3000}\tword\u{a0} : p, d").unwrap();
    assert_eq!(w.word, "word");
}
