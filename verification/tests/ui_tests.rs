use wargamezr::config::{Glitch, Rgb, Theme};
use wargamezr::save::Save;
use wargamezr::ui::{
    ansi_fg, campaign_candidates, campaign_name, enter_step, glitch, hints_header, key_action,
    level_label, maybe_glitch, move_selection, rng, short_title, submit_step, verdict_status, who,
    who_label, Action, EnterStep, Key, SubmitStep,
};

#[test]
fn rng_is_splitmix64() {
    assert_eq!(rng(0), 16294208416658607535);
    assert_eq!(rng(1), 10451216379200822465);
    assert_eq!(rng(12345), 2454886589211414944);
}

#[test]
fn glitch_garbles_deterministically() {
    assert_eq!(glitch("hello world", 7, 40), "h*^%o !@#l<");
    assert_eq!(glitch("abc def", 3, 100), "+%~ #^%");
}

#[test]
fn glitch_keeps_length_and_spaces() {
    let s = "one two  three";
    let g = glitch(s, 99, 100);
    assert_eq!(g.chars().count(), s.chars().count());
    for (a, b) in s.chars().zip(g.chars()) {
        if a == ' ' {
            assert_eq!(b, ' ');
        } else {
            assert!("!@#$%&*<>/\\|=+~^".contains(b));
        }
    }
    assert_eq!(glitch(s, 99, 0), s);
}

#[test]
fn glitch_bursts_follow_the_period() {
    let g = Glitch { enabled: true, prob: 100, period: 10, burst: 2 };
    assert_ne!(maybe_glitch(&g, 20, "title"), "title");
    assert_ne!(maybe_glitch(&g, 21, "title"), "title");
    assert_eq!(maybe_glitch(&g, 22, "title"), "title");
    let off = Glitch { enabled: false, ..g };
    assert_eq!(maybe_glitch(&off, 20, "title"), "title");
    let zero = Glitch { period: 0, ..g };
    assert_eq!(maybe_glitch(&zero, 20, "title"), "title");
}

#[test]
fn short_titles() {
    assert_eq!(short_title("Level 3 - Hidden files"), "Hidden files");
    assert_eq!(short_title("a - b - c"), "c");
    assert_eq!(short_title("plain"), "plain");
    assert_eq!(short_title("ends with - "), "");
    assert_eq!(short_title(" - - "), "");
    assert_eq!(short_title(""), "");
    for t in ["x - y", "no dash", "a-b - c-d", " - ", "é - ü"] {
        assert_eq!(short_title(t), t.rsplit(" - ").next().unwrap());
    }
}

#[test]
fn selection_is_clamped() {
    assert_eq!(move_selection(0, -1, 5), 0);
    assert_eq!(move_selection(0, 1, 5), 1);
    assert_eq!(move_selection(4, 1, 5), 4);
    assert_eq!(move_selection(2, -1, 5), 1);
    assert_eq!(move_selection(0, 1, 0), usize::MAX);
}

#[test]
fn who_and_labels() {
    assert_eq!(who("node", "node", 0), "node0 over ssh (password: node0)");
    assert_eq!(who("bandit", "level", 4), "bandit3 (level 4)");
    assert_eq!(level_label("level", "get in", 0, "ignored"), "level 00 - get in");
    assert_eq!(level_label("level", "get in", 5, "Level 5 - Find it"), "level 05 - Find it");
    assert_eq!(level_label("node", "get in", 12, "plain title"), "node 12 - plain title");
}

#[test]
fn ansi_foreground_escape() {
    assert_eq!(ansi_fg(Rgb { r: 217, g: 165, b: 33 }), "\x1b[38;2;217;165;33m");
    assert_eq!(ansi_fg(Rgb { r: 0, g: 0, b: 0 }), "\x1b[38;2;0;0;0m");
}

fn args(v: &[&str]) -> Vec<String> {
    v.iter().map(|s| s.to_string()).collect()
}

#[test]
fn campaign_choice() {
    assert_eq!(campaign_name(&args(&["tui", "--campaign", "bandit"]), None), "bandit");
    assert_eq!(campaign_name(&args(&["tui", "--campaign=mine"]), Some("env".into())), "mine");
    assert_eq!(campaign_name(&args(&["tui", "--campaign"]), Some("env".into())), "env");
    assert_eq!(campaign_name(&args(&["tui"]), None), "fsociety");
    assert_eq!(
        campaign_name(&args(&["tui", "--campaign=a", "--campaign", "b"]), None),
        "a"
    );
    assert_eq!(campaign_name(&args(&["tui", "--campaign", "--check"]), None), "--check");
}

#[test]
fn campaign_folders_in_order() {
    assert_eq!(
        campaign_candidates("bandit", "/src/tui"),
        vec!["campaigns/bandit", "../campaigns/bandit", "/src/tui/../campaigns/bandit"]
    );
}

#[test]
fn key_bindings() {
    assert_eq!(key_action(false, Key::Char('q')), Action::Quit);
    assert_eq!(key_action(false, Key::CtrlG), Action::Quit);
    assert_eq!(key_action(false, Key::F1), Action::RevealHint);
    assert_eq!(key_action(true, Key::F1), Action::Nothing);
    assert_eq!(key_action(true, Key::CtrlG), Action::TypeChar('g'));
    assert_eq!(key_action(false, Key::Char('j')), Action::Move(1));
    assert_eq!(key_action(false, Key::Down), Action::Move(1));
    assert_eq!(key_action(false, Key::Up), Action::Move(-1));
    assert_eq!(key_action(false, Key::Char('k')), Action::Move(-1));
    assert_eq!(key_action(false, Key::Char('h')), Action::RevealHint);
    assert_eq!(key_action(false, Key::Char('s')), Action::ToggleSolution);
    assert_eq!(key_action(false, Key::Char('r')), Action::RefreshWorld);
    assert_eq!(key_action(false, Key::Char('p')), Action::StartInput);
    assert_eq!(key_action(false, Key::Enter), Action::EnterLevel);
    assert_eq!(key_action(false, Key::Esc), Action::Nothing);
    assert_eq!(key_action(true, Key::Char('q')), Action::TypeChar('q'));
    assert_eq!(key_action(true, Key::Enter), Action::Submit);
    assert_eq!(key_action(true, Key::Esc), Action::CancelInput);
    assert_eq!(key_action(true, Key::Backspace), Action::DeleteChar);
    assert_eq!(key_action(true, Key::Up), Action::Nothing);
}

#[test]
fn submitting_and_entering() {
    assert_eq!(submit_step(0, true), SubmitStep::NoPassword);
    assert_eq!(submit_step(3, false), SubmitStep::CannotVerify);
    assert_eq!(submit_step(3, true), SubmitStep::Check);
    let mut s = Save::default();
    assert_eq!(enter_step(&s, 2, true), EnterStep::Locked);
    assert_eq!(enter_step(&s, 1, false), EnterStep::WorldDown);
    assert_eq!(enter_step(&s, 1, true), EnterStep::Enter);
    s.mark_solved(1, "pw".to_string());
    assert_eq!(enter_step(&s, 2, true), EnterStep::Enter);
}

#[test]
fn status_lines() {
    let mut t = Theme::default();
    assert_eq!(verdict_status(&t, "node", 3, &Ok(true)), "[ok] correct. node3 cleared.");
    assert_eq!(verdict_status(&t, "node", 3, &Ok(false)), "wrong password. keep digging.");
    assert_eq!(
        verdict_status(&t, "node", 3, &Err("no container".to_string())),
        "verify error: no container"
    );
    t.insert_label("status_correct".to_string(), "{user} owned. {user}!".to_string());
    assert_eq!(verdict_status(&t, "node", 3, &Ok(true)), "node3 owned. node3!");
    assert_eq!(
        who_label(&t, "enter_banner", "-- entering {who} --", "node2 (node 3)"),
        "-- entering node2 (node 3) --"
    );
    assert_eq!(hints_header(&t, 1, 3), "hints (1/3 revealed - press h for more)");
}
