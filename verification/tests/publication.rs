use hudson_core::definitions::publish_agent;
use hudson_core::harness::Checkpoint;
use hudson_core::models::{Agent, Limits, SCHEMA_VERSION};
use hudson_core::submit::submit_scheduled;
use hudson_core::json::digest_text;
use hudson_core::models::{Actor, VersionRef};
use hudson_core::publication::{begin_publication, finish_publication, published_configuration, published_root, validate_run, PublicationReceipt};
use hudson_core::store::{Data, ScheduleTarget};
use hudson_core::Error;

fn actor() -> Actor {
    Actor { workspace_id: "company".to_string(), id: "owner".to_string() }
}

fn agent(version: u32) -> VersionRef {
    VersionRef { id: "agent".to_string(), version }
}

fn publish(d: &mut Data, who: &Actor, key: &str, version: u32, frozen: &str) -> Result<PublicationReceipt, Error> {
    let digest = digest_text(&frozen.to_string());
    match begin_publication(d, who, key, &agent(version), &digest)? {
        Some(receipt) => Ok(receipt),
        None => finish_publication(d, who, key, agent(version), digest, frozen.to_string(), 1000 + version as u64),
    }
}

#[test]
fn revisions_retry_restore_and_isolate_owners() {
    let mut d = Data::new();
    let first = publish(&mut d, &actor(), "first", 1, "{\"instructions\":\"help\"}").unwrap();
    assert_eq!(first.agent_ref, agent(1));
    assert_eq!(first.digest, digest_text(&"{\"instructions\":\"help\"}".to_string()));
    // A retried key returns the first receipt.
    assert_eq!(publish(&mut d, &actor(), "first", 1, "{\"instructions\":\"help\"}").unwrap(), first);
    // The same key with changed content conflicts.
    assert!(matches!(publish(&mut d, &actor(), "first", 1, "{\"instructions\":\"changed\"}"), Err(Error::Conflict(_))));
    // A new key for the same revision and content returns its receipt.
    assert_eq!(publish(&mut d, &actor(), "second", 1, "{\"instructions\":\"help\"}").unwrap(), first);
    // A published revision is immutable.
    assert!(matches!(publish(&mut d, &actor(), "third", 1, "{\"instructions\":\"changed\"}"), Err(Error::Conflict(_))));
    let other = Actor { workspace_id: "company".to_string(), id: "other".to_string() };
    assert!(matches!(publish(&mut d, &other, "first", 1, "{\"instructions\":\"help\"}"), Err(Error::Conflict(_))));
    assert_eq!(published_configuration(&d, &actor(), &agent(1)).unwrap(), "{\"instructions\":\"help\"}");
    assert_eq!(published_configuration(&d, &other, &agent(1)), Err(Error::NotFound));
    assert_eq!(published_configuration(&d, &actor(), &agent(2)), Err(Error::NotFound));
    // A second revision is independent.
    let second = publish(&mut d, &actor(), "v2", 2, "{\"instructions\":\"v2\"}").unwrap();
    assert_eq!(second.agent_ref, agent(2));
    assert_eq!(d.publications.len(), 2);
}

#[test]
fn publication_requests_need_an_actor_and_a_key() {
    let mut d = Data::new();
    let blank = Actor { workspace_id: "company".to_string(), id: " ".to_string() };
    let digest = digest_text(&"{}".to_string());
    assert_eq!(begin_publication(&mut d, &blank, "k", &agent(1), &digest), Err(Error::Denied));
    assert!(matches!(begin_publication(&mut d, &actor(), "", &agent(1), &digest), Err(Error::Invalid(_))));
    let long = "k".repeat(257);
    assert!(matches!(begin_publication(&mut d, &actor(), &long, &agent(1), &digest), Err(Error::Invalid(_))));
    assert_eq!(begin_publication(&mut d, &actor(), &"k".repeat(256), &agent(1), &digest), Ok(None));
}

#[test]
fn tampered_publications_are_refused() {
    let mut d = Data::new();
    publish(&mut d, &actor(), "k", 1, "{\"a\":1}").unwrap();
    d.publications[0].frozen = "{\"a\":2}".to_string();
    assert!(matches!(published_configuration(&d, &actor(), &agent(1)), Err(Error::Conflict(_))));
}

#[test]
fn unknown_runs_have_no_published_root() {
    let d = Data::new();
    assert_eq!(published_root(&d, &actor(), 42), Err(Error::NotFound));
    let target = ScheduleTarget { scheduler: "temporal:test".to_string(), task_queue: "queue".to_string() };
    assert_eq!(validate_run(&d, &actor(), &target, 42), Err(Error::NotFound));
}

#[test]
fn a_scheduled_run_of_a_published_revision_is_admitted() {
    let mut d = Data::new();
    let a = Agent {
        id: "agent".to_string(),
        workspace_id: "company".to_string(),
        version: 1,
        schema_version: SCHEMA_VERSION,
        name: "Agent".to_string(),
        allow_user_input: false,
        instructions: "help".to_string(),
        model: "fixture".to_string(),
        tools: vec![],
        input_schema: Some("{\"type\":\"object\"}".to_string()),
        output_schema: None,
        limits: Limits::default(),
        created_at: 1,
    };
    publish_agent(&mut d, a).unwrap();
    publish(&mut d, &actor(), "k", 1, "{\"agent\":1}").unwrap();
    let target = ScheduleTarget { scheduler: "temporal:test".to_string(), task_queue: "queue".to_string() };
    let start = Checkpoint { step: 0, payload: "{}".to_string() };
    let id = submit_scheduled(&mut d, &actor(), agent(1), "{\"task\":1}".to_string(), None, None, Some(target.clone()), None, start).unwrap();
    assert_eq!(published_root(&d, &actor(), id), Ok(agent(1)));
    assert_eq!(validate_run(&d, &actor(), &target, id), Ok(agent(1)));
    let other_queue = ScheduleTarget { scheduler: "temporal:test".to_string(), task_queue: "other".to_string() };
    assert!(matches!(validate_run(&d, &actor(), &other_queue, id), Err(Error::Conflict(_))));
    let stranger = Actor { workspace_id: "company".to_string(), id: "other".to_string() };
    assert_eq!(validate_run(&d, &stranger, &target, id), Err(Error::NotFound));
    // Once runs exist, the revision cannot be published anew.
    let digest = digest_text(&"{\"agent\":\"changed\"}".to_string());
    let mut fresh = Data::new();
    std::mem::swap(&mut fresh.runs, &mut d.runs);
    assert!(matches!(begin_publication(&mut fresh, &actor(), "new", &agent(1), &digest), Err(Error::Conflict(_))));
}
