use etl_pipeline::{check_status, fetch_timeout, plan, Action, ErrorKind, EtlError, Run, Step};

#[test]
fn single_actions_plan_one_step() {
    assert_eq!(plan(Action::Extract { timeout: 3 }), vec![Step::Extract { timeout: 3 }]);
    assert_eq!(plan(Action::Load), vec![Step::Load]);
    assert_eq!(plan(Action::Delete), vec![Step::Delete]);
}

#[test]
fn all_plans_six_steps_in_order() {
    assert_eq!(
        plan(Action::All),
        vec![
            Step::Extract { timeout: 10 },
            Step::Load,
            Step::Create,
            Step::Read,
            Step::Update,
            Step::Delete,
        ]
    );
}

#[test]
fn failed_extract_does_not_stop_the_run() {
    let mut run = Run::start(Action::All);
    let mut seen = Vec::new();
    let mut first = true;
    while let Some(step) = run.next_step() {
        seen.push(step);
        // the extract fails; every later step succeeds
        run.record(!first);
        first = false;
    }
    assert_eq!(seen, plan(Action::All));
    assert_eq!(run.failures(), 1);
}

#[test]
fn zero_timeout_is_a_network_error() {
    let e = fetch_timeout(0).unwrap_err();
    assert!(matches!(e, EtlError::ZeroTimeout));
    assert_eq!(e.kind(), ErrorKind::Network);
    assert_eq!(fetch_timeout(10).unwrap(), 10);
}

#[test]
fn only_success_statuses_are_accepted() {
    assert!(check_status(200).is_ok());
    assert!(check_status(299).is_ok());
    let e = check_status(404).unwrap_err();
    assert!(matches!(e, EtlError::HttpStatus(404)));
    assert_eq!(e.kind(), ErrorKind::Network);
    assert!(check_status(199).is_err());
}
