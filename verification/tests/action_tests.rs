use sfn_paw::actions::default_action_name;
use std::fmt;

struct TestAction {}

impl TestAction {
    fn name(&self) -> String {
        default_action_name()
    }
}

impl fmt::Display for TestAction {
    fn fmt(&self, f: &mut fmt::Formatter<'_>) -> fmt::Result {
        f.write_str(&format!("Test: {}", self.name()))
    }
}

#[test]
fn should_return_default_name() {
    let test_action = TestAction {};

    assert_eq!(test_action.name(), "Invalid Action".to_string());
}

#[test]
fn should_return_name_on_display() {
    let test_action = TestAction {};

    assert_eq!(
        format!("{}", test_action),
        "Test: Invalid Action".to_string()
    );
}
