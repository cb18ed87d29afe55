use sfn_paw::model::StateMachineExecution;
use sfn_paw::pagination::{ExecutionCatalog, ExecutionPage};
use sfn_paw::timestamp::parse_utc_date_time;
use sfn_paw::window::DateWindow;

fn execution_at(name: &str, text: &str) -> StateMachineExecution {
    StateMachineExecution {
        arn: format!("dinosaur::arn::{}", name),
        machine_arn: "dinosaur::arn".to_string(),
        name: name.to_string(),
        start_date: parse_utc_date_time(text).unwrap().unwrap(),
        input: None,
        output: None,
    }
}

#[test]
fn drain_concatenates_filtered_pages_in_order() {
    let window = DateWindow {
        start: parse_utc_date_time("1989-09-30 22:10:32 -03:00").unwrap(),
        end: parse_utc_date_time("1989-09-30 23:15:00 -03:00").unwrap(),
    };
    let mut catalog = ExecutionCatalog::new(window);
    assert!(!catalog.finished);
    catalog.absorb_page(ExecutionPage {
        executions: vec![
            execution_at("too_early", "1989-09-30 21:00:00 -03:00"),
            execution_at("first_kept", "1989-09-30 22:20:00 -03:00"),
        ],
        next_token: Some("page-2".to_string()),
    });
    assert!(!catalog.finished);
    catalog.absorb_page(ExecutionPage {
        executions: vec![
            execution_at("second_kept", "1989-09-30 22:30:00 -03:00"),
            execution_at("too_late", "1989-09-30 23:30:00 -03:00"),
        ],
        next_token: None,
    });
    assert!(catalog.finished);
    let names: Vec<&str> = catalog.executions.iter().map(|e| e.name.as_str()).collect();
    assert_eq!(names, ["first_kept", "second_kept"]);
}

#[test]
fn drain_of_empty_listing_yields_empty_catalog() {
    let window = DateWindow { start: None, end: None };
    let mut catalog = ExecutionCatalog::new(window);
    catalog.absorb_page(ExecutionPage { executions: vec![], next_token: None });
    assert!(catalog.finished);
    assert!(catalog.executions.is_empty());
}

#[test]
fn drain_stops_exactly_when_a_page_has_no_token() {
    let window = DateWindow { start: None, end: None };
    let mut catalog = ExecutionCatalog::new(window);
    catalog.absorb_page(ExecutionPage {
        executions: vec![execution_at("one", "1989-09-30 22:30:00 -03:00")],
        next_token: Some("more".to_string()),
    });
    assert!(!catalog.finished);
    catalog.absorb_page(ExecutionPage {
        executions: vec![execution_at("two", "1989-09-30 22:31:00 -03:00")],
        next_token: None,
    });
    assert!(catalog.finished);
    assert_eq!(catalog.executions.len(), 2);
}
