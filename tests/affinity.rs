use pinball::affinity::{
    affinity_list_is_valid, affinity_path, parse_irq, prepare_affinity, AffinityError, RetryPolicy,
    RetryStep, AFFINITY_WRITE_ATTEMPTS, RETRY_PAUSE_MS,
};

/// Runs the policy against scripted attempt results, as the program runs it
/// against real writes: the last step, the attempts made and the pauses taken.
fn drive(policy: &RetryPolicy, results: &[bool]) -> (RetryStep, u32, u32) {
    let mut attempt: u32 = 0;
    let mut pauses: u32 = 0;
    loop {
        let ok = results[attempt as usize];
        attempt += 1;
        match policy.after_attempt(attempt, ok) {
            RetryStep::PauseAndRetry => pauses += 1,
            step => return (step, attempt, pauses),
        }
    }
}

#[test]
fn irq_numbers_read_as_std_reads_them() {
    for s in [
        "0", "42", "+7", "007", "4294967295", "4294967296", "99999999999999999999", "", "+", "-1",
        "-0", "12a", " 1", "1 ", "++1", "+-1", "٣",
    ] {
        assert_eq!(parse_irq(s), s.parse::<u32>().ok(), "input {s:?}");
    }
}

#[test]
fn irq_exact_values() {
    assert_eq!(parse_irq("128"), Some(128));
    assert_eq!(parse_irq("4294967295"), Some(u32::MAX));
    assert_eq!(parse_irq("4294967296"), None);
    assert_eq!(parse_irq("eth0"), None);
}

#[test]
fn affinity_lists() {
    assert!(affinity_list_is_valid("0-3,8,10-11"));
    assert!(affinity_list_is_valid(""));
    assert!(!affinity_list_is_valid("0,1; echo hi"));
    assert!(!affinity_list_is_valid("0 1"));
    assert!(!affinity_list_is_valid("ff"));
}

#[test]
fn control_file_path() {
    assert_eq!(affinity_path(17), "/proc/irq/17/smp_affinity_list");
    assert_eq!(affinity_path(0), "/proc/irq/0/smp_affinity_list");
}

#[test]
fn prepared_write() {
    let w = prepare_affinity("24", "0-3").unwrap();
    assert_eq!(w.irq, 24);
    assert_eq!(w.path, "/proc/irq/24/smp_affinity_list");
    assert_eq!(w.affinity, "0-3");
}

#[test]
fn injected_affinity_is_refused() {
    let r = prepare_affinity("24", "0,1; echo hi");
    assert_eq!(r.unwrap_err(), AffinityError::InvalidAffinityList);
}

#[test]
fn bad_irq_is_refused_first() {
    assert_eq!(prepare_affinity("x", "1").unwrap_err(), AffinityError::InvalidIrq);
    assert_eq!(prepare_affinity("x", "1; reboot").unwrap_err(), AffinityError::InvalidIrq);
    assert_eq!(prepare_affinity("4294967296", "1").unwrap_err(), AffinityError::InvalidIrq);
}

#[test]
fn policy_for_affinity_writes() {
    let p = RetryPolicy::affinity_writes();
    assert_eq!(p.max_attempts, AFFINITY_WRITE_ATTEMPTS);
    assert_eq!(p.max_attempts, 5);
    assert_eq!(p.pause_ms, RETRY_PAUSE_MS);
    assert_eq!(p.pause_ms, 100);
}

#[test]
fn success_on_fifth_attempt() {
    let p = RetryPolicy::affinity_writes();
    let (step, attempts, pauses) = drive(&p, &[false, false, false, false, true]);
    assert_eq!(step, RetryStep::Done);
    assert_eq!(attempts, 5);
    assert_eq!(pauses, 4);
}

#[test]
fn gives_up_after_five_failures() {
    let p = RetryPolicy::affinity_writes();
    let (step, attempts, pauses) = drive(&p, &[false, false, false, false, false, true]);
    assert_eq!(step, RetryStep::GiveUp);
    assert_eq!(attempts, 5);
    assert_eq!(pauses, 4);
}

#[test]
fn first_success_stops_at_once() {
    let p = RetryPolicy::affinity_writes();
    assert_eq!(drive(&p, &[true]), (RetryStep::Done, 1, 0));
    assert_eq!(drive(&p, &[false, true]), (RetryStep::Done, 2, 1));
}

#[test]
fn single_attempt_policy() {
    let p = RetryPolicy { max_attempts: 1, pause_ms: 0 };
    assert_eq!(p.after_attempt(1, false), RetryStep::GiveUp);
    assert_eq!(p.after_attempt(1, true), RetryStep::Done);
}
