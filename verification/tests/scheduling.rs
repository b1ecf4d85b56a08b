use hudson_core::scheduling::ScheduleTarget;

#[test]
fn schedule_target_requires_names() {
    let ok = ScheduleTarget { scheduler: "temporal".to_string(), task_queue: "agents".to_string() };
    assert!(ok.validate().is_ok());
    let blank = ScheduleTarget { scheduler: "  ".to_string(), task_queue: "agents".to_string() };
    assert!(blank.validate().is_err());
    let long = ScheduleTarget { scheduler: "s".repeat(257), task_queue: "agents".to_string() };
    assert!(long.validate().is_err());
}
