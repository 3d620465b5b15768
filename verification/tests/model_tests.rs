use wargamezr::model::{Campaign, Level};

fn level(n: u32, title: &str) -> Level {
    Level {
        n,
        title: title.to_string(),
        goal: String::new(),
        commands: Vec::new(),
        hints: Vec::new(),
        solution: String::new(),
    }
}

#[test]
fn levels_sort_by_number_stably() {
    let mut c = Campaign {
        campaign: "bandit".to_string(),
        levels: vec![level(3, "c"), level(0, "intro"), level(1, "a1"), level(2, "b"), level(1, "a2")],
    };
    c.sort_levels();
    let got: Vec<(u32, String)> = c.levels.iter().map(|l| (l.n, l.title.clone())).collect();
    let want: Vec<(u32, String)> = vec![
        (0, "intro".into()),
        (1, "a1".into()),
        (1, "a2".into()),
        (2, "b".into()),
        (3, "c".into()),
    ];
    assert_eq!(got, want);
    assert_eq!(c.campaign, "bandit");
}

#[test]
fn sorting_an_empty_campaign_keeps_it_empty() {
    let mut c = Campaign { campaign: "x".to_string(), levels: Vec::new() };
    c.sort_levels();
    assert!(c.levels.is_empty());
}

#[test]
fn max_n_is_highest_level() {
    let c = Campaign { campaign: "x".to_string(), levels: vec![level(4, ""), level(11, ""), level(2, "")] };
    assert_eq!(c.max_n(), 11);
    let e = Campaign { campaign: "x".to_string(), levels: Vec::new() };
    assert_eq!(e.max_n(), 0);
}
