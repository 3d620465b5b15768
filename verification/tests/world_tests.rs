use wargamezr::world::World;

fn world() -> World {
    World::new("wargamezr-fsociety".to_string(), "node".to_string(), "/etc/node_pass".to_string())
}

#[test]
fn users_and_password_paths() {
    let w = world();
    assert_eq!(w.user(0), "node0");
    assert_eq!(w.user(12), "node12");
    assert_eq!(w.password_path(3), "/etc/node_pass/node3");
}

#[test]
fn level_zero_is_an_ssh_login() {
    let (cmd, args) = world().shell_command(0);
    assert_eq!(cmd, "ssh");
    assert_eq!(
        args,
        vec![
            "-o",
            "StrictHostKeyChecking=no",
            "-o",
            "UserKnownHostsFile=/dev/null",
            "-p",
            "2220",
            "node0@localhost"
        ]
    );
}

#[test]
fn later_levels_exec_as_the_previous_user() {
    let (cmd, args) = world().shell_command(5);
    assert_eq!(cmd, "docker");
    assert_eq!(
        args,
        vec!["exec", "-it", "-u", "node4", "-w", "/home/node4", "wargamezr-fsociety", "bash", "-l"]
    );
}

#[test]
fn verify_ignores_surrounding_whitespace() {
    let w = world();
    assert!(w.verify("Ms93nOIW\n", "  Ms93nOIW "));
    assert!(!w.verify("Ms93nOIW", "ms93noiw"));
    assert!(!w.verify("abc", "a bc"));
}

#[test]
fn world_output_readers() {
    assert!(World::running_from_output("true\n"));
    assert!(!World::running_from_output("false\n"));
    assert!(!World::running_from_output(""));
    assert_eq!(World::password_from_output("  secret\n"), "secret");
}
