use wargamezr::config::{
    default_border, default_max, g_burst, g_period, g_prob, hex_or, slicing_fails, Border,
    CampaignConfig, Comms, Glitch, Rgb, Theme,
};

fn config(pass_dir: &str, container: &str, image: &str) -> CampaignConfig {
    CampaignConfig {
        name: "fsociety".to_string(),
        story: String::new(),
        user_prefix: "node".to_string(),
        pass_dir: pass_dir.to_string(),
        container: container.to_string(),
        image: image.to_string(),
        max_level: default_max(),
    }
}

#[test]
fn campaign_defaults_fill_empty_fields() {
    let c = config("", "", "");
    assert_eq!(c.pass_dir(), "/etc/node_pass");
    assert_eq!(c.container(), "wargamezr-fsociety");
    assert_eq!(c.image(), "wargamezr-fsociety:slice");
    assert_eq!(c.max_level, 11);
}

#[test]
fn campaign_fields_override_defaults() {
    let c = config("/srv/pw", "box", "img:1");
    assert_eq!(c.pass_dir(), "/srv/pw");
    assert_eq!(c.container(), "box");
    assert_eq!(c.image(), "img:1");
}

#[test]
fn glitch_and_theme_defaults() {
    assert_eq!((g_prob(), g_period(), g_burst()), (40, 37, 2));
    let g = Glitch::default();
    assert!(!g.enabled);
    assert_eq!((g.prob, g.period, g.burst), (40, 37, 2));
    assert_eq!(default_border(), "rounded");
    let t = Theme::default();
    assert_eq!(t.border, "rounded");
    assert!(t.labels.into_pairs().is_empty());
    let t = Theme::default();
    assert!(t.palette.is_readable());
    assert_eq!(t.border_type(), Border::Rounded);
}

#[test]
fn handler_name_falls_back() {
    let mut c = Comms::default();
    assert_eq!(c.handler_name(), "handler");
    c.handler = "darlene".to_string();
    assert_eq!(c.handler_name(), "darlene");
}

const FB: Rgb = Rgb { r: 1, g: 2, b: 3 };

#[test]
fn hex_colours_parse() {
    assert_eq!(hex_or("#D9A521", FB), Rgb { r: 0xd9, g: 0xa5, b: 0x21 });
    assert_eq!(hex_or("  ##ff00aA \n", FB), Rgb { r: 255, g: 0, b: 0xaa });
    assert_eq!(hex_or("000000", FB), Rgb { r: 0, g: 0, b: 0 });
    // `u8::from_str_radix` accepts a leading plus sign in each pair
    assert_eq!(hex_or("+f+f+f", FB), Rgb { r: 15, g: 15, b: 15 });
}

#[test]
fn bad_hex_colours_fall_back() {
    assert_eq!(hex_or("", FB), FB);
    assert_eq!(hex_or("#abc", FB), FB);
    assert_eq!(hex_or("#abcdefg", FB), FB);
    assert_eq!(hex_or("zz0000", FB), FB);
    assert_eq!(hex_or("-10000", FB), FB);
    assert_eq!(hex_or("# 00000", FB), FB);
    assert_eq!(hex_or("éaaaa", FB), FB);
}

#[test]
fn slicing_fails_only_inside_a_character() {
    assert!(!slicing_fails(""));
    assert!(!slicing_fails("#ffffff"));
    assert!(!slicing_fails("éaaaa"));
    assert!(slicing_fails("aéaaa"));
    assert!(slicing_fails("aaaéa"));
    assert!(!slicing_fails("aéaaaa"));
}

#[test]
fn theme_colours_and_fallbacks() {
    let mut t = Theme::default();
    assert_eq!(t.accent(), Rgb { r: 217, g: 165, b: 33 });
    assert_eq!(t.gold(), Rgb { r: 217, g: 165, b: 33 });
    assert_eq!(t.green(), Rgb { r: 74, g: 222, b: 128 });
    assert_eq!(t.red(), Rgb { r: 248, g: 113, b: 113 });
    assert_eq!(t.fg(), Rgb { r: 226, g: 232, b: 240 });
    assert_eq!(t.dim(), Rgb { r: 120, g: 133, b: 150 });
    assert_eq!(t.hilite(), Rgb { r: 30, g: 41, b: 59 });
    assert_eq!(t.bg(), Rgb { r: 10, g: 10, b: 10 });
    t.palette.accent = "#102030".to_string();
    assert_eq!(t.gold(), Rgb { r: 0x10, g: 0x20, b: 0x30 });
    t.palette.gold = "#ffd700".to_string();
    assert_eq!(t.gold(), Rgb { r: 0xff, g: 0xd7, b: 0 });
}

#[test]
fn border_names() {
    let mut t = Theme::default();
    for (name, b) in [
        ("plain", Border::Plain),
        ("SQUARE", Border::Plain),
        ("Double", Border::Double),
        ("thick", Border::Thick),
        ("rounded", Border::Rounded),
        ("wavy", Border::Rounded),
        (" plain", Border::Rounded),
    ] {
        t.border = name.to_string();
        assert_eq!(t.border_type(), b, "{name}");
    }
}

#[test]
fn labels_read_back_and_default() {
    let mut t = Theme::default();
    assert_eq!(t.lbl("brand", "wargamezr"), "wargamezr");
    t.insert_label("brand".to_string(), "fsociety".to_string());
    t.insert_label("word_target".to_string(), "node".to_string());
    assert_eq!(t.lbl("brand", "wargamezr"), "fsociety");
    assert_eq!(t.lbl("word_target", "level"), "node");
    t.insert_label("brand".to_string(), "ecorp".to_string());
    assert_eq!(t.lbl("brand", "wargamezr"), "ecorp");
    assert_eq!(t.lbl("missing", "fallback"), "fallback");
    let mut pairs = t.labels.into_pairs();
    pairs.sort();
    assert_eq!(
        pairs,
        vec![("brand".to_string(), "ecorp".to_string()), ("word_target".to_string(), "node".to_string())]
    );
}

#[test]
fn gold_follows_the_accent_when_omitted() {
    let mut t = Theme::default();
    assert_eq!(t.gold(), t.accent());
    t.palette.accent = "#00ff00".to_string();
    t.palette.gold = "not a colour".to_string();
    assert_eq!(t.gold(), t.accent());
    assert_eq!(t.gold(), Rgb { r: 0, g: 255, b: 0 });
}

/// The colour reading done with std's own string functions.
fn std_hex(s: &str, fb: Rgb) -> Rgb {
    let s = s.trim().trim_start_matches('#');
    if s.len() == 6 {
        if let (Ok(r), Ok(g), Ok(b)) = (
            u8::from_str_radix(&s[0..2], 16),
            u8::from_str_radix(&s[2..4], 16),
            u8::from_str_radix(&s[4..6], 16),
        ) {
            return Rgb { r, g, b };
        }
    }
    fb
}

#[test]
fn hex_colours_agree_with_std_parsing() {
    for s in [
        "#D9A521", "d9a521", "  #d9a521  ", "###123456", "+1+2+3", "-1-2-3", "++1234", "1+2345",
        "12345", "1234567", "", "#", "GG0000", "éaaaa", "ab cd ", "\u{3000}#0a0B0c\u{3000}",
    ] {
        assert_eq!(hex_or(s, FB), std_hex(s, FB), "{s:?}");
    }
}
