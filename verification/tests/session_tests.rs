use wargamezr::config::Theme;
use wargamezr::save::Save;
use wargamezr::session::{pop_char, Effect, Session};
use wargamezr::ui::Key;

#[test]
fn start_up_status_says_whether_the_world_is_up() {
    let t = Theme::default();
    let up = Session::new(&t, true);
    assert_eq!(up.status, "world is up. pick a level, press enter.");
    assert_eq!(up.selected, 0);
    assert!(!up.input_mode);
    let down = Session::new(&t, false);
    assert_eq!(down.status, "world not running. `make world-up`, then r.");
}

#[test]
fn moving_clamps_and_hides_the_solution() {
    let t = Theme::default();
    let mut s = Session::new(&t, true);
    assert_eq!(s.handle_key(&t, 3, Key::Char('s')), Effect::Nothing);
    assert!(s.show_solution);
    assert_eq!(s.handle_key(&t, 3, Key::Down), Effect::Nothing);
    assert!(!s.show_solution);
    s.handle_key(&t, 3, Key::Char('j'));
    s.handle_key(&t, 3, Key::Char('j'));
    assert_eq!(s.selected, 2);
    s.handle_key(&t, 3, Key::Up);
    assert_eq!(s.selected, 1);
}

#[test]
fn typing_a_password() {
    let t = Theme::default();
    let mut s = Session::new(&t, true);
    s.handle_key(&t, 3, Key::Char('p'));
    assert!(s.input_mode);
    assert_eq!(s.status, "type the password, enter to submit, esc to cancel.");
    for c in "pwx".chars() {
        s.handle_key(&t, 3, Key::Char(c));
    }
    s.handle_key(&t, 3, Key::Backspace);
    assert_eq!(s.input, "pw");
    assert_eq!(s.handle_key(&t, 3, Key::Char('q')), Effect::Nothing);
    assert_eq!(s.input, "pwq");
    assert_eq!(s.handle_key(&t, 3, Key::Enter), Effect::Submit);
    s.handle_key(&t, 3, Key::Esc);
    assert!(!s.input_mode);
    assert_eq!(s.input, "");
}

#[test]
fn other_keys_hand_back_effects() {
    let t = Theme::default();
    let mut s = Session::new(&t, true);
    assert_eq!(s.handle_key(&t, 3, Key::Char('q')), Effect::Quit);
    assert_eq!(s.handle_key(&t, 3, Key::Enter), Effect::EnterLevel);
    assert_eq!(s.handle_key(&t, 3, Key::Char('r')), Effect::RefreshWorld);
    assert_eq!(s.handle_key(&t, 3, Key::Char('h')), Effect::RevealHint);
    assert_eq!(s.handle_key(&t, 3, Key::Other), Effect::Nothing);
}

#[test]
fn submitting_records_the_trimmed_password() {
    let t = Theme::default();
    let mut save = Save::default();
    let mut s = Session::new(&t, true);
    s.input_mode = true;
    s.input = "  Ms93nOIW \n".to_string();
    assert!(s.begin_submit(&t, 3, true));
    s.finish_submit(&mut save, &t, "node", 3, &Ok(true));
    assert_eq!(s.status, "[ok] correct. node3 cleared.");
    assert_eq!(save.solved, vec![3]);
    assert_eq!(save.treasure.get(&3), Some(&"Ms93nOIW".to_string()));
    assert!(!s.input_mode);
    assert_eq!(s.input, "");
}

#[test]
fn wrong_or_failed_submissions_record_nothing() {
    let t = Theme::default();
    let mut save = Save::default();
    let mut s = Session::new(&t, true);
    s.input = "guess".to_string();
    s.finish_submit(&mut save, &t, "node", 3, &Ok(false));
    assert_eq!(s.status, "wrong password. keep digging.");
    s.finish_submit(&mut save, &t, "node", 3, &Err("boom".to_string()));
    assert_eq!(s.status, "verify error: boom");
    assert!(save.solved.is_empty());
    assert!(save.treasure.is_empty());
}

#[test]
fn submissions_that_never_reach_the_world() {
    let t = Theme::default();
    let mut s = Session::new(&t, false);
    s.input_mode = true;
    s.input = "abc".to_string();
    assert!(!s.begin_submit(&t, 2, false));
    assert_eq!(s.status, "world not running - can't verify.");
    assert!(!s.input_mode);
    assert_eq!(s.input, "abc");
    s.input_mode = true;
    assert!(!s.begin_submit(&t, 0, true));
    assert_eq!(s.status, "level 0 has no password - just log in (enter).");
    assert_eq!(s.input, "");
}

#[test]
fn entering_levels() {
    let t = Theme::default();
    let mut s = Session::new(&t, true);
    let mut save = Save::default();
    assert!(!s.begin_enter(&t, &save, 2, true));
    assert_eq!(s.status, "locked. clear the previous one first.");
    assert!(!s.begin_enter(&t, &save, 1, false));
    assert_eq!(s.status, "world not running - run `make world-up`.");
    save.mark_solved(1, "x".to_string());
    assert!(s.begin_enter(&t, &save, 2, true));
    s.returned(&t, "node1 (level 2)");
    assert_eq!(s.status, "back. press p to enter the password you found.");
    s.world_checked(&t, false);
    assert_eq!(s.status, "world not running. `make world-up`.");
}

#[test]
fn ticks_wrap() {
    let t = Theme::default();
    let mut s = Session::new(&t, true);
    s.tick = u64::MAX;
    s.next_tick();
    assert_eq!(s.tick, 0);
}

#[test]
fn popping_characters() {
    let mut s = "aé".to_string();
    assert_eq!(pop_char(&mut s), Some('é'));
    assert_eq!(pop_char(&mut s), Some('a'));
    assert_eq!(pop_char(&mut s), None);
    assert_eq!(s, "");
}

#[test]
fn f1_reveals_and_ctrl_g_leaves() {
    let t = Theme::default();
    let mut s = Session::new(&t, true);
    assert_eq!(s.handle_key(&t, 3, Key::F1), Effect::RevealHint);
    assert_eq!(s.handle_key(&t, 3, Key::CtrlG), Effect::Quit);
}

#[test]
fn ctrl_g_types_g_while_typing_a_password() {
    let t = Theme::default();
    let mut s = Session::new(&t, true);
    s.handle_key(&t, 3, Key::Char('p'));
    assert_eq!(s.handle_key(&t, 3, Key::CtrlG), Effect::Nothing);
    assert_eq!(s.input, "g");
}
