use wargamezr::config::{Rgb, Splash, Theme};
use wargamezr::model::{Campaign, Level};
use wargamezr::save::Save;
use wargamezr::session::Session;
use wargamezr::ui::{ansi_fg, first_campaign_dir, header_pieces, splash_script, Tone};

fn level(n: u32) -> Level {
    Level {
        n,
        title: String::new(),
        goal: String::new(),
        commands: Vec::new(),
        hints: Vec::new(),
        solution: String::new(),
    }
}

#[test]
fn header_counts_and_box_state() {
    let t = Theme::default();
    let s = Session::new(&t, true);
    let c = Campaign { campaign: "bandit".to_string(), levels: vec![level(0), level(1), level(2)] };
    let mut save = Save::default();
    save.mark_solved(1, "pw".to_string());
    let got: Vec<(String, Tone, bool)> =
        header_pieces(&t, &c, &save, &s, true).into_iter().map(|p| (p.text, p.tone, p.bold)).collect();
    assert_eq!(
        got,
        vec![
            ("  wargamezr ".to_string(), Tone::Red, true),
            ("// bandit ".to_string(), Tone::Fg, false),
            ("| 1/2 cleared ".to_string(), Tone::Green, false),
            ("| 1 treasure ".to_string(), Tone::Gold, false),
            ("| box ".to_string(), Tone::Dim, false),
            ("up".to_string(), Tone::Green, false),
        ]
    );
    let empty = Campaign { campaign: "x".to_string(), levels: Vec::new() };
    let down = header_pieces(&t, &empty, &Save::default(), &s, false);
    assert_eq!(down[2].text, "| 0/0 cleared ");
    assert_eq!((down[5].text.as_str(), down[5].tone), ("down", Tone::Red));
}

/// The splash recorded the way the front-end prints it, built with std.
fn reference(sp: &Splash, amber: Rgb, red: Rgb, green: Rgb, dim: Rgb) -> Vec<(String, u64)> {
    let mut v: Vec<(String, u64)> = Vec::new();
    if !sp.enabled {
        return v;
    }
    let (a, r, g, d) = (ansi_fg(amber), ansi_fg(red), ansi_fg(green), ansi_fg(dim));
    let rst = "\x1b[0m";
    let type_out = |v: &mut Vec<(String, u64)>, s: &str, ms: u64| {
        for ch in s.chars() {
            v.push((ch.to_string(), ms));
        }
    };
    v.push(("\x1b[2J\x1b[H\x1b[?25l".to_string(), 0));
    if !sp.hello.is_empty() {
        type_out(&mut v, &format!("{a}{}{rst}\n", sp.hello), 55);
        v.push((String::new(), 500));
    }
    for line in sp.mask.lines() {
        v.push((format!("{r}{line}{rst}\n"), 35));
    }
    if !sp.wordmark.is_empty() {
        v.push(("\n".to_string(), 0));
        v.push((format!("{a}\x1b[1m{}{rst}\n", sp.wordmark), 0));
    }
    if !sp.tagline.is_empty() {
        v.push((format!("{d}{}{rst}\n", sp.tagline), 0));
    }
    v.push(("\n".to_string(), 0));
    for s in &sp.steps {
        v.push((format!("{d} > {s}"), 0));
        for _ in 0..8 {
            v.push((".".to_string(), 70));
        }
        v.push((format!(" {g}ok{rst}\n"), 120));
    }
    if !sp.final_line.is_empty() {
        v.push(("\n".to_string(), 0));
        type_out(&mut v, &format!("{r}{}{rst}\n", sp.final_line), 55);
        v.push((String::new(), 700));
    }
    v.push(("\x1b[?25h".to_string(), 0));
    v
}

#[test]
fn splash_script_matches_the_printed_splash() {
    let (a, r, g, d) = (
        Rgb { r: 217, g: 165, b: 33 },
        Rgb { r: 248, g: 113, b: 113 },
        Rgb { r: 74, g: 222, b: 128 },
        Rgb { r: 120, g: 133, b: 150 },
    );
    let full = Splash {
        enabled: true,
        hello: "hello friend".to_string(),
        mask: " /\\ \n(  )\r\n \\/".to_string(),
        wordmark: "fsociety".to_string(),
        tagline: "we are".to_string(),
        steps: vec!["routing".to_string(), "masking".to_string()],
        final_line: "are you in?".to_string(),
    };
    assert_eq!(splash_script(&full, a, r, g, d), reference(&full, a, r, g, d));
    let bare = Splash { enabled: true, ..Splash::default() };
    assert_eq!(
        splash_script(&bare, a, r, g, d),
        vec![("\x1b[2J\x1b[H\x1b[?25l".to_string(), 0), ("\n".to_string(), 0), ("\x1b[?25h".to_string(), 0)]
    );
    assert!(splash_script(&Splash::default(), a, r, g, d).is_empty());
}

#[test]
fn first_folder_with_levels() {
    let c: Vec<String> = vec!["a".into(), "b".into(), "c".into()];
    assert_eq!(first_campaign_dir(&c, &vec![false, true, true]), Some("b".to_string()));
    assert_eq!(first_campaign_dir(&c, &vec![false, false, false]), None);
    assert_eq!(first_campaign_dir(&c, &vec![true, false, false]), Some("a".to_string()));
}
