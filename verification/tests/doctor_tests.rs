use wargamezr::doctor::{doctor_summary, levels_to_probe, probe, probe_line, provisioned, Probe};
use wargamezr::model::Level;

fn level(n: u32) -> Level {
    Level {
        n,
        title: String::new(),
        goal: String::new(),
        commands: Vec::new(),
        hints: Vec::new(),
        solution: String::new(),
    }
}

#[test]
fn the_intro_is_never_probed() {
    assert_eq!(levels_to_probe(&vec![level(0), level(1), level(5), level(0), level(2)]), vec![1, 5, 2]);
    assert_eq!(levels_to_probe(&Vec::new()), Vec::<u32>::new());
}

#[test]
fn answers_are_read_by_byte_length() {
    assert_eq!(probe(&Ok("Ms93nOIWY5RCkTOk".to_string())), Probe::Reachable);
    assert_eq!(probe(&Ok("12345678".to_string())), Probe::Reachable);
    assert_eq!(probe(&Ok("1234567".to_string())), Probe::TooShort);
    assert_eq!(probe(&Ok("ééé€".to_string())), Probe::Reachable);
    assert_eq!(probe(&Ok(String::new())), Probe::TooShort);
    assert_eq!(probe(&Err("no such file".to_string())), Probe::Missing);
    let ps = vec![Probe::Reachable, Probe::Missing, Probe::Reachable, Probe::TooShort];
    assert_eq!(provisioned(&ps), 2);
    assert_eq!(provisioned(&Vec::new()), 0);
}

#[test]
fn doctor_lines() {
    assert_eq!(
        probe_line("node", 3, &Ok("Ms93nOIWY5RC".to_string())),
        format!("  {}{:<2}  password reachable ({}...)", "node", 3, "Ms93")
    );
    assert_eq!(
        probe_line("bandit", 12, &Ok("ééabcdef".to_string())),
        format!("  {}{:<2}  password reachable ({}...)", "bandit", 12, &"ééabcdef"[..4])
    );
    assert_eq!(probe_line("node", 4, &Ok("short".to_string())), "  node4   password too short?");
    assert_eq!(
        probe_line("node", 10, &Err("x".to_string())),
        "  node10  not provisioned in this world build"
    );
    assert_eq!(doctor_summary(11), "ok: 11 users provisioned and verifiable");
}
