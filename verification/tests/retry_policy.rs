use deploy_core::connect::{host_with_port, run_connect, Retry, MAX_ATTEMPTS, RETRY_DELAY_SECS};

#[test]
fn two_failures_then_success() {
    let trace = run_connect(&vec![false, false, true]);
    assert!(trace.connected);
    assert_eq!(trace.attempts, 3);
    assert_eq!(trace.delays, vec![RETRY_DELAY_SECS, RETRY_DELAY_SECS]);
}

#[test]
fn first_attempt_succeeds_without_delay() {
    let trace = run_connect(&vec![true, false, false]);
    assert!(trace.connected);
    assert_eq!(trace.attempts, 1);
    assert!(trace.delays.is_empty());
}

#[test]
fn second_attempt_succeeds_after_one_delay() {
    let trace = run_connect(&vec![false, true, false]);
    assert!(trace.connected);
    assert_eq!(trace.attempts, 2);
    assert_eq!(trace.delays, vec![RETRY_DELAY_SECS]);
}

#[test]
fn gives_up_after_the_attempt_bound() {
    let trace = run_connect(&vec![false, false, false]);
    assert!(!trace.connected);
    assert_eq!(trace.attempts, MAX_ATTEMPTS);
    assert_eq!(trace.delays, vec![RETRY_DELAY_SECS, RETRY_DELAY_SECS]);
}

#[test]
fn policy_steps_report_the_fixed_delay() {
    let mut retry = Retry::new();
    assert_eq!(retry.on_failure(), Some(RETRY_DELAY_SECS));
    assert_eq!(retry.on_failure(), Some(RETRY_DELAY_SECS));
    assert_eq!(retry.on_failure(), None);
}

#[test]
fn host_gets_the_default_port_only_when_it_names_none() {
    let plain: Vec<char> = "example.com".chars().collect();
    let normalized: String = host_with_port(&plain).into_iter().collect();
    assert_eq!(normalized, "example.com:22");

    let with_port: Vec<char> = "example.com:2022".chars().collect();
    let kept: String = host_with_port(&with_port).into_iter().collect();
    assert_eq!(kept, "example.com:2022");
}
