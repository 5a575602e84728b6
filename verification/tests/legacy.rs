use github_tools::legacy::remove_legacy_label::{
    after_set_type, backoff_secs, has_label, item_step, legacy_type, remove_label_dry_run_message,
    remove_label_outcome, remove_label_url, set_type_dry_run_message, set_type_outcome,
    since_day, type_mapping, unsupported_label_message, AfterSetType, ItemStep, StepOutcome,
};

#[test]
fn legacy_labels_map_to_types() {
    assert_eq!(legacy_type("type: bug", false).as_deref(), Some("Bug"));
    assert_eq!(legacy_type("Type: Feature", true).as_deref(), Some("Feature"));
    assert_eq!(legacy_type("Type: Feature", false), None);
    assert_eq!(legacy_type("type: chore", true), None);
    assert_eq!(
        unsupported_label_message("x"),
        "'x' is not a supported legacy label. Supported: type: bug, type: feature, type: task"
    );
}

#[test]
fn labels_are_found_with_or_without_case() {
    let labels = vec!["Type: Bug".to_string(), "other".to_string()];
    assert!(has_label(&labels, "type: bug", true));
    assert!(!has_label(&labels, "type: bug", false));
}

#[test]
fn backoff_doubles_up_to_a_minute() {
    assert_eq!(backoff_secs(1), 2);
    assert_eq!(backoff_secs(5), 32);
    assert_eq!(backoff_secs(6), 60);
    assert_eq!(backoff_secs(63), 60);
}

fn done(o: StepOutcome) -> (bool, String) {
    match o {
        StepOutcome::Done(ok, msg) => (ok, msg),
        StepOutcome::Retry => panic!("retry"),
    }
}

#[test]
fn set_type_answers_are_read() {
    assert_eq!(done(set_type_outcome(200, "Bug", "", "Bug")), (true, "Set type to 'Bug'".to_string()));
    assert_eq!(
        done(set_type_outcome(201, "", "", "Bug")),
        (false, "Type field not supported (issue may not be in project)".to_string())
    );
    assert_eq!(
        done(set_type_outcome(200, "Task", "", "Bug")),
        (false, "Type set to 'Task' instead of 'Bug'".to_string())
    );
    assert!(matches!(set_type_outcome(503, "", "", "Bug"), StepOutcome::Retry));
    assert_eq!(
        done(set_type_outcome(422, "", "bad", "Bug")),
        (false, "Failed to set type: 422 bad".to_string())
    );
    assert_eq!(set_type_dry_run_message("Bug"), "[dry-run] would SET type to 'Bug'");
}

#[test]
fn remove_label_answers_are_read() {
    assert_eq!(
        done(remove_label_outcome(204, "type: bug", 12, "")),
        (true, "Removed label 'type: bug' from #12".to_string())
    );
    assert_eq!(
        done(remove_label_outcome(404, "type: bug", 12, "")),
        (false, "Label 'type: bug' not present on #12 (404)".to_string())
    );
    assert!(matches!(remove_label_outcome(403, "x", 1, ""), StepOutcome::Retry));
    assert_eq!(
        done(remove_label_outcome(400, "x", 1, "no")),
        (false, "Failed to remove label on #1: 400 no".to_string())
    );
}

#[test]
fn label_addresses_are_percent_encoded() {
    assert_eq!(
        remove_label_url("o/r", 5, "type: bug"),
        "https://api.github.com/repos/o/r/issues/5/labels/type%3A%20bug"
    );
    assert_eq!(
        remove_label_dry_run_message("o/r", 5, "a~b.c_d-é"),
        "[dry-run] would DELETE /repos/o/r/issues/5/labels/a~b.c_d-%C3%A9"
    );
}

#[test]
fn issues_are_stopped_skipped_or_processed() {
    let since = since_day("2024-01-01");
    assert!(since.is_some());
    assert!(since_day("01/01/2024").is_none());
    assert!(matches!(
        item_step(Some(2), 2, None, "", true, "", "Bug", false, true),
        ItemStep::Stop
    ));
    assert!(matches!(
        item_step(None, 0, since, "2023-12-31T10:00:00Z", true, "", "Bug", false, true),
        ItemStep::SkipBefore(_)
    ));
    assert!(matches!(
        item_step(None, 0, since, "garbage", false, "", "Bug", false, true),
        ItemStep::SkipNoLabel
    ));
    assert!(matches!(
        item_step(None, 0, None, "", true, "Task", "Bug", true, true),
        ItemStep::SkipTypeNotSet
    ));
    assert!(matches!(
        item_step(None, 0, None, "", true, "", "Bug", false, true),
        ItemStep::Process { set_type: true }
    ));
    assert!(matches!(
        item_step(None, 0, None, "", true, "Bug", "Bug", true, true),
        ItemStep::Process { set_type: false }
    ));
    assert!(after_set_type(false, false) == AfterSetType::Stop);
    assert!(after_set_type(false, true) == AfterSetType::Skip);
    assert!(after_set_type(true, false) == AfterSetType::Remove);
}

#[test]
fn type_mapping_lists_the_supported_labels() {
    let m = type_mapping();
    let pairs: Vec<(&str, &str)> = m.iter().map(|(k, v)| (k.as_str(), v.as_str())).collect();
    assert_eq!(pairs, [("type: bug", "Bug"), ("type: feature", "Feature"), ("type: task", "Task")]);
    assert_eq!(legacy_type("TYPE: Task", true), Some("Task".to_string()));
    assert_eq!(legacy_type("TYPE: Task", false), None);
}
