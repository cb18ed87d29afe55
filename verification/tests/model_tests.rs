use sfn_paw::model::{ExecutionInput, StateMachine, StateMachineExecution};
use sfn_paw::timestamp::Timestamp;

fn execution(name: &str, secs: i64, nanos: u32) -> StateMachineExecution {
    StateMachineExecution {
        arn: "dinosaur::arn".to_string(),
        machine_arn: "dinosaur_machine:arn".to_string(),
        name: name.to_string(),
        start_date: Timestamp::new(secs, nanos).unwrap(),
        input: Some("{}".to_string()),
        output: Some("{}".to_string()),
    }
}

#[test]
fn test_state_machine_execution_print_format() {
    let now = chrono::Utc::now();
    let execution = execution("dinosaur", now.timestamp(), now.timestamp_subsec_nanos());
    assert_eq!(
        execution.display_line().unwrap(),
        format!(
            "dinosaur : {}",
            now.to_rfc3339_opts(chrono::SecondsFormat::Secs, true)
        )
    );
}

#[test]
fn machine_displays_its_name() {
    let machine = StateMachine {
        arn: "dinosaur_machine::arn".to_string(),
        name: "dinosaur_machine".to_string(),
    };
    assert_eq!(machine.display_name(), "dinosaur_machine");
}

#[test]
fn execution_clone_keeps_contents() {
    let original = execution("dinosaur", 623207432, 7);
    let copy = original.clone();
    assert_eq!(copy, original);
}

#[test]
fn described_execution_keeps_listed_name_and_start() {
    // One service record seen twice: once through the listing (no payload),
    // once through a describe call (payload present).
    let mut listed = execution("dinosaur", 623207432, 0);
    listed.input = None;
    listed.output = None;
    let described = execution("dinosaur", 623207432, 0);
    assert_eq!(described.arn, listed.arn);
    assert_eq!(described.name, listed.name);
    assert_eq!(described.start_date, listed.start_date);
    assert_eq!(described.input.as_deref(), Some("{}"));
}

#[test]
fn display_line_refuses_years_outside_four_digits() {
    let far_future = execution("dinosaur", i64::MAX, 0);
    assert_eq!(far_future.display_line(), None);
}

#[test]
fn execution_input_carries_machine_and_payload() {
    let input = ExecutionInput {
        machine_arn: "dinosaur::arn".to_string(),
        input: "{'batata': 'frita'}".to_string(),
    };
    let copy = input.clone();
    assert_eq!(copy, input);
    assert_eq!(copy.input, "{'batata': 'frita'}");
}
