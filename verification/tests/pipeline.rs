use fortress::coordinator::{parse_status, Coordinator};
use fortress::queue::{jobs_queue_name, status_queue_name, WorkQueue, JOBS_QUEUE_MAX_LENGTH};
use fortress::record::{OriginalPlayground, PlaygroundInfo, Timestamp};
use fortress::store::ExperienceStore;
use fortress::experience_code::NonPositiveError;
use fortress::numbers::ParseNumberError;
use fortress::worker::{
    check_experience, parse_job, startup_status, status_payload, JobError, RemoteError,
};

fn playground(name: &str) -> PlaygroundInfo {
    PlaygroundInfo {
        original_playground: Some(OriginalPlayground {
            playground_name: name.to_string(),
            playground_description: String::new(),
            created_at: None,
            updated_at: None,
            map_rotation: None,
        }),
        tags_json: "[]".to_string(),
        progression_json: "null".to_string(),
        raw_json: "{}".to_string(),
    }
}

#[test]
fn queue_names_are_versioned() {
    assert_eq!(jobs_queue_name(), "experience_code-v1");
    assert_eq!(status_queue_name(), "experience_workerstatuscollector-v1");
    assert_eq!(JOBS_QUEUE_MAX_LENGTH, 1000);
}

#[test]
fn status_parses_id_and_outcome() {
    let m = parse_status("5;okay").unwrap();
    assert_eq!(m.experience_id, "5");
    assert_eq!(m.outcome, "okay");
    let m = parse_status("startup;ok").unwrap();
    assert_eq!(m.experience_id, "startup");
    assert_eq!(m.outcome, "ok");
    let m = parse_status("7;").unwrap();
    assert_eq!(m.experience_id, "7");
    assert_eq!(m.outcome, "");
    let m = parse_status("7;okay;extra").unwrap();
    assert_eq!(m.experience_id, "7");
    assert_eq!(m.outcome, "okay");
    assert!(parse_status("no separator").is_err());
}

#[test]
fn status_payloads_echo_the_job() {
    assert_eq!(status_payload("5", true), "5;okay");
    assert_eq!(status_payload("5", false), "5;error");
    assert_eq!(startup_status(), "startup;ok");
}

#[test]
fn cursor_advances_only_on_success() {
    let mut store = ExperienceStore::new();
    store.set_current_experience(5);
    let mut coordinator = Coordinator::startup(&mut store);
    assert_eq!(coordinator.current, 5);

    let ok = parse_status("5;okay").unwrap();
    coordinator.observe_status(&ok, &mut store);
    assert_eq!(coordinator.current, 6);
    assert_eq!(store.cursor, Some(6));

    let err = parse_status("6;error").unwrap();
    coordinator.observe_status(&err, &mut store);
    assert_eq!(coordinator.current, 6);
    assert_eq!(store.cursor, Some(6));
    assert_eq!(coordinator.next_job_payload(), "6");
}

#[test]
fn harvester_success_moves_the_cursor_forward() {
    let mut store = ExperienceStore::new();
    store.set_current_experience(5);
    let mut jobs = WorkQueue::new(Some(JOBS_QUEUE_MAX_LENGTH));
    let mut status = WorkQueue::new(None);

    let mut coordinator = Coordinator::startup(&mut store);
    jobs.publish(coordinator.next_job_payload());

    let job = jobs.consume().unwrap();
    assert_eq!(job, "5");
    let (id, code) = parse_job(&job).unwrap();
    assert_eq!(id, 5);
    assert_eq!(code.as_str(), "AAF");
    let now = Timestamp { seconds: 100, nanos: 0 };
    let okay = check_experience(&mut store, &code, Ok(Some(playground("found"))), now);
    jobs.ack();
    status.publish(status_payload(&job, okay));

    let delivery = status.consume().unwrap();
    assert_eq!(delivery, "5;okay");
    let report = parse_status(&delivery).unwrap();
    status.ack();
    coordinator.observe_status(&report, &mut store);
    jobs.publish(coordinator.next_job_payload());

    assert_eq!(store.cursor, Some(6));
    assert_eq!(jobs.consume().unwrap(), "6");
    assert_eq!(store.rows.len(), 1);
    assert_eq!(store.rows[0].experience_id, 5);
    assert_eq!(store.rows[0].playground_name, "found");
}

#[test]
fn harvester_error_republishes_the_same_id() {
    let mut store = ExperienceStore::new();
    store.set_current_experience(10);
    let mut jobs = WorkQueue::new(Some(JOBS_QUEUE_MAX_LENGTH));
    let mut status = WorkQueue::new(None);

    let mut coordinator = Coordinator::startup(&mut store);
    jobs.publish(coordinator.next_job_payload());

    let job = jobs.consume().unwrap();
    assert_eq!(job, "10");
    let (_, code) = parse_job(&job).unwrap();
    let now = Timestamp { seconds: 100, nanos: 0 };
    let okay = check_experience(&mut store, &code, Err(RemoteError), now);
    assert!(!okay);
    jobs.ack();
    status.publish(status_payload(&job, okay));

    let delivery = status.consume().unwrap();
    assert_eq!(delivery, "10;error");
    let report = parse_status(&delivery).unwrap();
    status.ack();
    coordinator.observe_status(&report, &mut store);
    jobs.publish(coordinator.next_job_payload());

    assert_eq!(coordinator.current, 10);
    assert_eq!(store.cursor, Some(10));
    assert_eq!(jobs.consume().unwrap(), "10");
    assert!(store.rows.is_empty());
}

#[test]
fn absent_record_still_reports_okay_without_a_write() {
    let mut store = ExperienceStore::new();
    let (_, code) = parse_job("3").unwrap();
    let now = Timestamp { seconds: 0, nanos: 0 };
    let okay = check_experience(&mut store, &code, Ok(None), now);
    assert!(okay);
    assert!(store.rows.is_empty());
}

#[test]
fn startup_initializes_a_fresh_cursor() {
    let mut store = ExperienceStore::new();
    let coordinator = Coordinator::startup(&mut store);
    assert_eq!(coordinator.current, 1);
    assert_eq!(store.cursor, Some(1));
}

#[test]
fn malformed_job_payloads_are_rejected() {
    assert_eq!(
        parse_job("abc").unwrap_err(),
        JobError::BadNumber(ParseNumberError::InvalidDigit { symbol: 'a', position: 0 })
    );
    assert_eq!(
        parse_job("").unwrap_err(),
        JobError::BadNumber(ParseNumberError::Empty)
    );
    assert_eq!(
        parse_job("0").unwrap_err(),
        JobError::NonPositive(NonPositiveError { value: 0 })
    );
    assert_eq!(
        parse_job("-3").unwrap_err(),
        JobError::NonPositive(NonPositiveError { value: -3 })
    );
}
