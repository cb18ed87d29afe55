use sfn_paw::model::StateMachineExecution;
use sfn_paw::retry::{
    plan_retry, pre_checked_executions, run_retry_batch, selected_arns, should_prompt_selection,
    RetryError, RetryOutcome,
};
use sfn_paw::timestamp::Timestamp;

fn detail(name: &str, input: Option<&str>) -> StateMachineExecution {
    StateMachineExecution {
        arn: format!("dinosaur::arn::{}", name),
        machine_arn: "dinosaur::arn".to_string(),
        name: name.to_string(),
        start_date: Timestamp::from_secs(623207432),
        input: input.map(|s| s.to_string()),
        output: None,
    }
}

#[test]
fn retry_batch_resubmits_every_item_in_order() {
    let describes = vec![
        Ok(detail("one", Some("{'n': 1}"))),
        Ok(detail("two", Some("{'n': 2}"))),
        Ok(detail("three", Some("{'n': 3}"))),
    ];
    let starts = vec![Ok(()), Ok(()), Ok(())];
    let report = run_retry_batch(&describes, &starts);
    assert_eq!(report.start_calls, 3);
    let payloads: Vec<&str> = report
        .outcomes
        .iter()
        .map(|o| match o {
            RetryOutcome::Started(plan) => plan.input.as_str(),
            RetryOutcome::Failed(_) => panic!("no item should have failed"),
        })
        .collect();
    assert_eq!(payloads, ["{'n': 1}", "{'n': 2}", "{'n': 3}"]);
}

#[test]
fn retry_batch_stops_when_second_describe_fails() {
    // Three selected executions; the second describe call raises a
    // transport error: one start call in total, the third never attempted.
    let describes = vec![
        Ok(detail("one", Some("{'n': 1}"))),
        Err("throttled".to_string()),
        Ok(detail("three", Some("{'n': 3}"))),
    ];
    let starts = vec![Ok(()), Ok(()), Ok(())];
    let report = run_retry_batch(&describes, &starts);
    assert_eq!(report.start_calls, 1);
    assert_eq!(report.outcomes.len(), 2);
    assert!(matches!(&report.outcomes[0], RetryOutcome::Started(_)));
    assert!(matches!(
        &report.outcomes[1],
        RetryOutcome::Failed(RetryError::Transport(m)) if m == "throttled"
    ));
}

#[test]
fn retry_batch_stops_on_missing_payload() {
    let describes = vec![
        Ok(detail("one", Some("{'n': 1}"))),
        Ok(detail("two", None)),
        Ok(detail("three", Some("{'n': 3}"))),
    ];
    let starts = vec![Ok(()), Ok(()), Ok(())];
    let report = run_retry_batch(&describes, &starts);
    assert_eq!(report.start_calls, 1);
    assert_eq!(report.outcomes.len(), 2);
    assert!(matches!(
        &report.outcomes[1],
        RetryOutcome::Failed(RetryError::MissingPayload(id)) if id == "dinosaur::arn::two"
    ));
}

#[test]
fn retry_batch_counts_a_failing_start_call() {
    let describes = vec![
        Ok(detail("one", Some("{'n': 1}"))),
        Ok(detail("two", Some("{'n': 2}"))),
    ];
    let starts = vec![Ok(()), Err("rejected".to_string())];
    let report = run_retry_batch(&describes, &starts);
    // The second start call was issued and failed: two calls, one success.
    assert_eq!(report.start_calls, 2);
    assert_eq!(report.outcomes.len(), 2);
    assert!(matches!(&report.outcomes[0], RetryOutcome::Started(_)));
    assert!(matches!(
        &report.outcomes[1],
        RetryOutcome::Failed(RetryError::Transport(m)) if m == "rejected"
    ));
}

#[test]
fn empty_failed_list_skips_selection_and_retries_nothing() {
    let failed: Vec<StateMachineExecution> = vec![];
    assert!(!should_prompt_selection(&failed));
    let report = run_retry_batch(&vec![], &vec![]);
    assert_eq!(report.start_calls, 0);
    assert!(report.outcomes.is_empty());
}

#[test]
fn plan_retry_requires_the_original_input() {
    let with_input = detail("one", Some("{'batata': 'frita'}"));
    let plan = plan_retry(&with_input).unwrap();
    assert_eq!(plan.machine_arn, "dinosaur::arn");
    assert_eq!(plan.input, "{'batata': 'frita'}");
    let without_input = detail("two", None);
    assert!(matches!(
        plan_retry(&without_input),
        Err(RetryError::MissingPayload(id)) if id == "dinosaur::arn::two"
    ));
}

#[test]
fn checklist_is_fully_pre_checked() {
    let failed = vec![detail("one", None), detail("two", None)];
    let checked = pre_checked_executions(&failed);
    assert_eq!(checked.len(), 2);
    assert!(checked.iter().all(|(_, on)| *on));
    assert_eq!(checked[0].0.name, "one");
    assert_eq!(checked[1].0.name, "two");
}

#[test]
fn selection_maps_positions_to_ids_in_order() {
    let failed = vec![detail("one", None), detail("two", None), detail("three", None)];
    let arns = selected_arns(&vec![2, 0], &failed).unwrap();
    assert_eq!(arns, ["dinosaur::arn::three", "dinosaur::arn::one"]);
    assert_eq!(selected_arns(&vec![3], &failed), None);
}
