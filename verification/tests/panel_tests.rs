use wargamezr::config::Theme;
use wargamezr::model::Level;
use wargamezr::save::Save;
use wargamezr::session::Session;
use wargamezr::ui::{detail_panel, join, level_marks, lines, Piece, Tone};

fn rows(v: &[Vec<Piece>]) -> Vec<Vec<(String, Tone, bool)>> {
    v.iter().map(|r| r.iter().map(|p| (p.text.clone(), p.tone, p.bold)).collect()).collect()
}

fn p(t: &str, tone: Tone, bold: bool) -> (String, Tone, bool) {
    (t.to_string(), tone, bold)
}

fn level() -> Level {
    Level {
        n: 2,
        title: "Level 2 - Spaces".to_string(),
        goal: "\n  find the file\r\nwith spaces \n".to_string(),
        commands: vec!["ls".to_string(), "cat".to_string()],
        hints: vec!["quote it".to_string(), "tab completes".to_string(), "cat ./'a b'".to_string()],
        solution: "cat 'spaces in this filename'\n".to_string(),
    }
}

#[test]
fn lines_and_join_match_std() {
    for s in ["", "a", "a\n", "a\nb", "a\r\nb\r\n", "\n\nx", "x\r", "a\rb\n"] {
        let want: Vec<String> = s.lines().map(|l| l.to_string()).collect();
        assert_eq!(lines(s), want, "{s:?}");
    }
    let parts = vec!["ls".to_string(), "cat".to_string(), "find".to_string()];
    assert_eq!(join(&parts, "  "), parts.join("  "));
    assert_eq!(join(&Vec::new(), "  "), "");
}

#[test]
fn brief_shows_goal_commands_and_treasure() {
    let t = Theme::default();
    let s = Session::new(&t, true);
    let mut save = Save::default();
    let (title, brief, _, _) = detail_panel(&t, &level(), &save, &s);
    assert_eq!(title, "brief");
    assert_eq!(
        rows(&brief),
        vec![
            vec![p("Level 2 - Spaces", Tone::Gold, true)],
            vec![],
            vec![p("find the file", Tone::Fg, false)],
            vec![p("with spaces", Tone::Fg, false)],
            vec![],
            vec![p("useful: ", Tone::Dim, false), p("ls  cat", Tone::Accent, false)],
        ]
    );
    save.mark_solved(2, "pw2".to_string());
    let (_, brief, _, _) = detail_panel(&t, &level(), &save, &s);
    let r = rows(&brief);
    assert_eq!(r[r.len() - 2], vec![]);
    assert_eq!(r[r.len() - 1], vec![p("treasure: ", Tone::Green, false), p("pw2", Tone::Green, true)]);
}

#[test]
fn hint_ladder() {
    let t = Theme::default();
    let s = Session::new(&t, true);
    let mut save = Save::default();
    let (_, _, title, lower) = detail_panel(&t, &level(), &save, &s);
    assert_eq!(title, "hints");
    assert_eq!(
        rows(&lower),
        vec![
            vec![p("hints (0/3 revealed - press h for more)", Tone::Dim, false)],
            vec![],
            vec![p("(no hints revealed yet)", Tone::Dim, false)],
        ]
    );
    save.reveal_hint(2, 3);
    save.reveal_hint(2, 3);
    let (_, _, _, lower) = detail_panel(&t, &level(), &save, &s);
    assert_eq!(
        rows(&lower),
        vec![
            vec![p("hints (2/3 revealed - press h for more)", Tone::Dim, false)],
            vec![],
            vec![p("1. ", Tone::Accent, false), p("quote it", Tone::Fg, false)],
            vec![],
            vec![p("2. ", Tone::Accent, false), p("tab completes", Tone::Fg, false)],
            vec![],
        ]
    );
    save.hints_used.insert(2, 9);
    let (_, _, _, lower) = detail_panel(&t, &level(), &save, &s);
    assert_eq!(lower.len(), 2 + 6);
}

#[test]
fn spoiler_and_prompt() {
    let t = Theme::default();
    let mut s = Session::new(&t, true);
    let save = Save::default();
    s.show_solution = true;
    let (_, _, title, lower) = detail_panel(&t, &level(), &save, &s);
    assert_eq!(title, "solution");
    assert_eq!(
        rows(&lower),
        vec![
            vec![p("SPOILER - intended solution:", Tone::Red, true)],
            vec![],
            vec![p("cat 'spaces in this filename'", Tone::Fg, false)],
        ]
    );
    s.input_mode = true;
    s.input = "abc".to_string();
    s.tick = 4;
    let (_, _, title, lower) = detail_panel(&t, &level(), &save, &s);
    assert_eq!(title, "password");
    assert_eq!(
        rows(&lower),
        vec![
            vec![p("enter the password you recovered:", Tone::Dim, false)],
            vec![],
            vec![p("> ", Tone::Red, false), p("abc", Tone::Fg, false), p("_", Tone::Accent, false)],
        ]
    );
    s.tick = 5;
    let (_, _, _, lower) = detail_panel(&t, &level(), &save, &s);
    assert_eq!(rows(&lower)[2][2], p(" ", Tone::Accent, false));
}

#[test]
fn level_list_marks() {
    let mut save = Save::default();
    assert_eq!(level_marks(&save, 1), ("[>]".to_string(), Tone::Accent, Tone::Fg));
    assert_eq!(level_marks(&save, 3), ("[-]".to_string(), Tone::Dim, Tone::Dim));
    save.mark_solved(1, "x".to_string());
    assert_eq!(level_marks(&save, 1), ("[x]".to_string(), Tone::Green, Tone::Fg));
    assert_eq!(level_marks(&save, 2), ("[>]".to_string(), Tone::Accent, Tone::Fg));
}
