use std::collections::VecDeque;

use repo_topics::error::{Cause, ExtractError, FetchError, TopicError};
use repo_topics::json::{extract_topics, Json};
use repo_topics::pipeline::{Command, Event, Pipeline, EXTRACT_LIMIT, FETCH_LIMIT};

fn topics(values: &[&str]) -> Json {
    let items = values.iter().map(|v| Json::Str(v.to_string())).collect();
    Json::Object(vec![("topics".to_string(), Json::Array(items))])
}

fn ids(repos: &[&str]) -> Vec<String> {
    repos.iter().map(|s| s.to_string()).collect()
}

/// Runs the pipeline to the end; `last_first` completes the newest task first.
fn run(
    repos: &[&str],
    stub: &dyn Fn(&str) -> Result<Json, FetchError>,
    last_first: bool,
) -> (Result<Vec<String>, TopicError>, usize, usize) {
    let names = ids(repos);
    let mut p = Pipeline::new(names.clone());
    let mut work: VecDeque<Command> = p.start().into_iter().collect();
    let (mut fetching, mut extracting) = (0usize, 0usize);
    let (mut max_fetching, mut max_extracting) = (0usize, 0usize);
    let count = |work: &VecDeque<Command>| {
        let f = work.iter().filter(|c| matches!(c, Command::Fetch { .. })).count();
        (f, work.len() - f)
    };
    while !p.is_done() {
        (fetching, extracting) = count(&work);
        max_fetching = max_fetching.max(fetching);
        max_extracting = max_extracting.max(extracting);
        let cmd = if last_first { work.pop_back() } else { work.pop_front() };
        let event = match cmd.expect("an unfinished pipeline has work in flight") {
            Command::Fetch { index } => Event::Fetched { index, outcome: stub(&names[index]) },
            Command::Extract { index, payload } => {
                Event::Extracted { index, outcome: extract_topics(&payload) }
            }
        };
        work.extend(p.step(event));
    }
    let _ = (fetching, extracting);
    (p.finish(), max_fetching, max_extracting)
}

fn sorted(mut v: Vec<String>) -> Vec<String> {
    v.sort();
    v
}

#[test]
fn two_repos_give_all_their_topics() {
    let stub = |r: &str| match r {
        "a/b" => Ok(topics(&["x", "y"])),
        _ => Ok(topics(&["z"])),
    };
    for last_first in [false, true] {
        let (r, _, _) = run(&["a/b", "c/d"], &stub, last_first);
        assert_eq!(sorted(r.unwrap()), ids(&["x", "y", "z"]));
    }
}

#[test]
fn status_failure_names_the_repo() {
    let stub = |_: &str| Err(FetchError::Status(404));
    let (r, _, _) = run(&["a/b"], &stub, false);
    assert_eq!(
        r,
        Err(TopicError { repo: "a/b".to_string(), cause: Cause::Fetch(FetchError::Status(404)) })
    );
}

#[test]
fn empty_source_succeeds_empty() {
    let mut p = Pipeline::new(vec![]);
    assert!(p.start().is_empty());
    assert!(p.is_done());
    assert_eq!(p.finish(), Ok(vec![]));
}

#[test]
fn missing_field_names_the_repo() {
    let stub = |_: &str| Ok(Json::Object(vec![("name".to_string(), Json::Null)]));
    let (r, _, _) = run(&["a/b"], &stub, false);
    assert_eq!(
        r,
        Err(TopicError {
            repo: "a/b".to_string(),
            cause: Cause::Extract(ExtractError::FieldMissing)
        })
    );
}

#[test]
fn number_elements_name_the_repo() {
    let stub = |_: &str| {
        let items = vec![Json::Number("1".to_string()), Json::Number("2".to_string())];
        Ok(Json::Object(vec![("topics".to_string(), Json::Array(items))]))
    };
    let (r, _, _) = run(&["a/b"], &stub, false);
    assert_eq!(
        r,
        Err(TopicError {
            repo: "a/b".to_string(),
            cause: Cause::Extract(ExtractError::ElementType)
        })
    );
}

#[test]
fn not_an_array_names_the_repo() {
    let stub = |_: &str| Ok(Json::Object(vec![("topics".to_string(), Json::Bool(false))]));
    let (r, _, _) = run(&["a/b", "c/d"], &stub, false);
    assert_eq!(r.unwrap_err().cause, Cause::Extract(ExtractError::FieldType));
}

#[test]
fn first_failure_wins_over_finished_sibling() {
    let mut p = Pipeline::new(ids(&["a/b", "c/d"]));
    let cmds = p.start();
    assert_eq!(cmds.len(), 2);
    let cmds = p.step(Event::Fetched { index: 1, outcome: Ok(topics(&["z"])) });
    assert_eq!(cmds.len(), 1);
    let payload = match cmds.into_iter().next().unwrap() {
        Command::Extract { index: 1, payload } => payload,
        _ => panic!("expected the extraction of c/d"),
    };
    let cmds = p.step(Event::Extracted { index: 1, outcome: extract_topics(&payload) });
    assert!(cmds.is_empty());
    assert!(!p.is_done());
    let cmds = p.step(Event::Fetched {
        index: 0,
        outcome: Err(FetchError::Request("connection reset".to_string())),
    });
    assert!(cmds.is_empty());
    assert!(p.is_done());
    let err = p.finish().unwrap_err();
    assert_eq!(err.repo, "a/b");
    assert_eq!(err.cause, Cause::Fetch(FetchError::Request("connection reset".to_string())));
}

#[test]
fn later_failures_are_ignored() {
    let mut p = Pipeline::new(ids(&["a/b", "c/d"]));
    p.start();
    p.step(Event::Fetched { index: 1, outcome: Err(FetchError::Status(500)) });
    let cmds = p.step(Event::Fetched { index: 0, outcome: Err(FetchError::Status(404)) });
    assert!(cmds.is_empty());
    let err = p.finish().unwrap_err();
    assert_eq!(err.repo, "c/d");
    assert_eq!(err.cause, Cause::Fetch(FetchError::Status(500)));
}

#[test]
fn events_for_tasks_not_in_flight_are_ignored() {
    let mut p = Pipeline::new(ids(&["a/b"]));
    p.start();
    assert!(p.step(Event::Extracted { index: 0, outcome: Ok(vec!["q".to_string()]) }).is_empty());
    assert!(p.step(Event::Fetched { index: 7, outcome: Ok(topics(&["q"])) }).is_empty());
    assert!(!p.is_done());
    let cmds = p.step(Event::Fetched { index: 0, outcome: Ok(topics(&["k"])) });
    assert_eq!(cmds.len(), 1);
}

#[test]
fn fetches_and_extractions_stay_within_their_bounds() {
    let repos: Vec<String> = (0..20).map(|i| format!("o/r{}", i)).collect();
    let refs: Vec<&str> = repos.iter().map(|s| s.as_str()).collect();
    let stub = |r: &str| Ok(topics(&[r]));
    for last_first in [false, true] {
        let (r, max_f, max_e) = run(&refs, &stub, last_first);
        assert!(max_f <= FETCH_LIMIT);
        assert!(max_e <= EXTRACT_LIMIT);
        assert_eq!(sorted(r.unwrap()), sorted(repos.clone()));
    }
}

#[test]
fn start_fills_only_the_fetch_slots() {
    let mut p = Pipeline::new(ids(&["a", "b", "c", "d", "e"]));
    let cmds = p.start();
    assert_eq!(cmds.len(), FETCH_LIMIT);
    for (k, c) in cmds.iter().enumerate() {
        assert!(matches!(c, Command::Fetch { index } if *index == k));
    }
    let cmds = p.step(Event::Fetched { index: 1, outcome: Ok(topics(&[])) });
    assert_eq!(cmds.len(), 2);
    assert!(matches!(cmds[0], Command::Fetch { index: 3 }));
    assert!(matches!(cmds[1], Command::Extract { index: 1, .. }));
}

#[test]
fn round_trip_contributes_exactly_its_topics() {
    let stub = |r: &str| match r {
        "a/b" => Ok(topics(&["a", "b"])),
        _ => Ok(topics(&[])),
    };
    for last_first in [false, true] {
        let (r, _, _) = run(&["x/y", "a/b", "p/q"], &stub, last_first);
        assert_eq!(sorted(r.unwrap()), ids(&["a", "b"]));
    }
}
