//! Per-campaign configuration and theme: identity, world coordinates,
//! palette, chrome labels and the glitch effect. Anything a theme omits
//! falls back to neutral defaults.
use vstd::prelude::*;
use crate::text::{chars_of, same_text, string_of, trim_chars, trim_end, trim_start, trimmed};


verus! {

// ---- campaign -------------------------------------------------------------

/// Identity and world coordinates of a campaign (`campaign.toml`).
pub struct CampaignConfig {
    pub name: String,
    pub story: String,
    pub user_prefix: String,
    /// Where the per-user passwords live; empty means the default place.
    pub pass_dir: String,
    /// The world container's name; empty means the default name.
    pub container: String,
    /// The world image's name; empty means the default name.
    pub image: String,
    pub max_level: u32,
}

/// The highest level a world provisions when the campaign does not say.
pub fn default_max() -> (n: u32)
    ensures
        n == 11,
{
    11
}

/// `s`, or `fallback` when `s` is empty.
pub open spec fn or_default(s: Seq<char>, fallback: Seq<char>) -> Seq<char> {
    if s.len() == 0 {
        fallback
    } else {
        s
    }
}

impl CampaignConfig {
    /// The directory that holds the per-user passwords:
    /// `/etc/<prefix>_pass` unless the campaign names one.
    pub fn pass_dir(&self) -> (r: String)
        ensures
            r@ == or_default(self.pass_dir@, "/etc/"@ + self.user_prefix@ + "_pass"@),
    {
        if self.pass_dir.as_str().is_empty() {
            let mut s = "/etc/".to_owned();
            s.append(self.user_prefix.as_str());
            s.append("_pass");
            s
        } else {
            self.pass_dir.clone()
        }
    }

    /// The world container: `wargamezr-<name>` unless the campaign names one.
    pub fn container(&self) -> (r: String)
        ensures
            r@ == or_default(self.container@, "wargamezr-"@ + self.name@),
    {
        if self.container.as_str().is_empty() {
            let mut s = "wargamezr-".to_owned();
            s.append(self.name.as_str());
            s
        } else {
            self.container.clone()
        }
    }

    /// The world image: `wargamezr-<name>:slice` unless the campaign names one.
    pub fn image(&self) -> (r: String)
        ensures
            r@ == or_default(self.image@, "wargamezr-"@ + self.name@ + ":slice"@),
    {
        if self.image.as_str().is_empty() {
            let mut s = "wargamezr-".to_owned();
            s.append(self.name.as_str());
            s.append(":slice");
            s
        } else {
            self.image.clone()
        }
    }
}


// ---- colours --------------------------------------------------------------

/// A 24-bit colour.
#[derive(Clone, Copy, Debug, PartialEq, Eq, Structural)]
pub struct Rgb {
    pub r: u8,
    pub g: u8,
    pub b: u8,
}

/// Whether `c` is a hexadecimal digit, in either case.
pub open spec fn is_hex_digit(c: char) -> bool {
    ||| '0' <= c <= '9'
    ||| 'a' <= c <= 'f'
    ||| 'A' <= c <= 'F'
}

/// The value of the hexadecimal digit `c`.
pub open spec fn hex_value(c: char) -> nat {
    if '0' <= c <= '9' {
        (c as nat - 48) as nat
    } else if 'a' <= c <= 'f' {
        (c as nat - 87) as nat
    } else {
        (c as nat - 55) as nat
    }
}

/// What `u8::from_str_radix` gives for the two-character text `a b` in base
/// 16: an optional `+` sign followed by hexadecimal digits.
pub open spec fn hex_byte(a: char, b: char) -> Option<u8> {
    if a == '+' && is_hex_digit(b) {
        Some(hex_value(b) as u8)
    } else if is_hex_digit(a) && is_hex_digit(b) {
        Some((16 * hex_value(a) + hex_value(b)) as u8)
    } else {
        None
    }
}

/// The colour written as six hex digits (`rrggbb`), if `t` is that.
pub open spec fn hex_rgb(t: Seq<char>) -> Option<Rgb> {
    if t.len() == 6 {
        match (hex_byte(t[0], t[1]), hex_byte(t[2], t[3]), hex_byte(t[4], t[5])) {
            (Some(r), Some(g), Some(b)) => Some(Rgb { r, g, b }),
            _ => None,
        }
    } else {
        None
    }
}

/// `s` without its leading `#` characters.
pub open spec fn strip_hashes(s: Seq<char>) -> Seq<char>
    decreases s.len(),
{
    if s.len() > 0 && s[0] == '#' {
        strip_hashes(s.drop_first())
    } else {
        s
    }
}

/// The text of a palette entry once trimmed and stripped of leading `#`.
pub open spec fn color_text(s: Seq<char>) -> Seq<char> {
    strip_hashes(trimmed(s))
}

/// The colour a palette entry names, or `fallback` when it names none.
pub open spec fn color_or(s: Seq<char>, fallback: Rgb) -> Rgb {
    match hex_rgb(color_text(s)) {
        Some(c) => c,
        None => fallback,
    }
}

/// Bytes that the UTF-8 encoding of `c` takes.
pub open spec fn utf8_width(c: char) -> nat {
    let u = c as u32;
    if u < 0x80 {
        1
    } else if u < 0x800 {
        2
    } else if u < 0x10000 {
        3
    } else {
        4
    }
}

/// Bytes that the UTF-8 encoding of `s` takes.
pub open spec fn utf8_len(s: Seq<char>) -> nat
    decreases s.len(),
{
    if s.len() == 0 {
        0
    } else {
        utf8_len(s.drop_last()) + utf8_width(s.last())
    }
}

/// Whether byte offset `k` of the UTF-8 encoding of `s` starts a character.
pub open spec fn is_boundary(s: Seq<char>, k: nat) -> bool {
    exists|j: int| 0 <= j <= s.len() && #[trigger] utf8_len(s.take(j)) == k
}

/// Whether reading a palette entry slices a character in two: its text is
/// six bytes long, split at bytes 2 and 4, and one of them falls inside a
/// character.
pub open spec fn color_slicing_fails(s: Seq<char>) -> bool {
    let t = color_text(s);
    utf8_len(t) == 6 && !(is_boundary(t, 2) && is_boundary(t, 4))
}

pub(crate) proof fn lemma_utf8_len_prefix(s: Seq<char>, j: int)
    requires
        0 <= j <= s.len(),
    ensures
        utf8_len(s.take(j)) <= utf8_len(s),
    decreases s.len(),
{
    if j < s.len() {
        assert(s.drop_last().take(j) =~= s.take(j));
        lemma_utf8_len_prefix(s.drop_last(), j);
    } else {
        assert(s.take(j) =~= s);
    }
}

/// A palette entry the theme leaves empty (omits) reads without trouble and
/// gives the fallback colour.
pub proof fn lemma_omitted_entry_falls_back(fallback: Rgb)
    ensures
        !color_slicing_fails(Seq::<char>::empty()),
        color_or(Seq::<char>::empty(), fallback) == fallback,
{
    let e = Seq::<char>::empty();
    assert(trim_start(e) == e);
    assert(trim_end(e) == e);
    assert(strip_hashes(e) == e);
    assert(color_text(e) == e);
    assert(utf8_len(e) == 0);
}

/// When the gold entry names no colour, gold is the accent colour (itself
/// amber when the accent entry names none either).
pub proof fn lemma_gold_follows_accent(p: Palette)
    ensures
        hex_rgb(color_text(p.gold@)) is None ==> color_or(
            p.gold@,
            color_or(p.accent@, Rgb { r: 217, g: 165, b: 33 }),
        ) == color_or(p.accent@, Rgb { r: 217, g: 165, b: 33 }),
        hex_rgb(color_text(p.accent@)) is None ==> color_or(
            p.accent@,
            Rgb { r: 217, g: 165, b: 33 },
        ) == (Rgb { r: 217, g: 165, b: 33 }),
{
}

pub(crate) fn width(c: char) -> (w: usize)
    ensures
        w == utf8_width(c),
{
    let u = c as u32;
    if u < 0x80 {
        1
    } else if u < 0x800 {
        2
    } else if u < 0x10000 {
        3
    } else {
        4
    }
}

fn strip_hash_chars(s: &Vec<char>) -> (t: Vec<char>)
    ensures
        t@ == strip_hashes(s@),
{
    let n = s.len();
    let mut lo: usize = 0;
    assert(s@.skip(0) =~= s@);
    while lo < n && s[lo] == '#'
        invariant
            n == s@.len(),
            lo <= n,
            strip_hashes(s@) == strip_hashes(s@.skip(lo as int)),
        decreases n - lo,
    {
        assert(s@.skip(lo as int).drop_first() =~= s@.skip(lo + 1));
        lo = lo + 1;
    }
    let mut t: Vec<char> = Vec::new();
    for i in lo..n
        invariant
            n == s@.len(),
            lo <= n,
            t@ == s@.subrange(lo as int, i as int),
    {
        t.push(s[i]);
        assert(s@.subrange(lo as int, i + 1) =~= s@.subrange(lo as int, i as int).push(
            s@[i as int],
        ));
    }
    assert(s@.skip(lo as int) =~= s@.subrange(lo as int, n as int));
    t
}

fn color_chars(s: &str) -> (t: Vec<char>)
    ensures
        t@ == color_text(s@),
{
    let v = chars_of(s);
    let w = trim_chars(&v);
    strip_hash_chars(&w)
}

/// Whether reading the palette entry `s` slices a character in two.
pub fn slicing_fails(s: &str) -> (r: bool)
    ensures
        r == color_slicing_fails(s@),
{
    let t = color_chars(s);
    let n = t.len();
    let mut sum: usize = 0;
    let mut at2 = false;
    let mut at4 = false;
    assert(t@.take(0) =~= Seq::<char>::empty());
    for i in 0..n
        invariant
            n == t@.len(),
            t@ == color_text(s@),
            sum <= 6,
            sum == utf8_len(t@.take(i as int)),
            at2 == (exists|j: int| 0 <= j <= i && #[trigger] utf8_len(t@.take(j)) == 2),
            at4 == (exists|j: int| 0 <= j <= i && #[trigger] utf8_len(t@.take(j)) == 4),
    {
        assert(t@.take(i + 1).drop_last() =~= t@.take(i as int));
        assert(t@.take(i + 1).last() == t@[i as int]);
        assert(utf8_len(t@.take(i + 1)) == sum + utf8_width(t@[i as int]));
        let w = width(t[i]);
        if sum + w > 6 {
            proof {
                lemma_utf8_len_prefix(t@, i + 1);
            }
            return false;
        }
        sum = sum + w;
        if sum == 2 {
            at2 = true;
        }
        if sum == 4 {
            at4 = true;
        }
        assert(at2 == (exists|j: int| 0 <= j <= i + 1 && #[trigger] utf8_len(t@.take(j)) == 2))
            by {
            if utf8_len(t@.take(i + 1)) == 2 {
            }
        }
        assert(at4 == (exists|j: int| 0 <= j <= i + 1 && #[trigger] utf8_len(t@.take(j)) == 4))
            by {
            if utf8_len(t@.take(i + 1)) == 4 {
            }
        }
    }
    assert(t@.take(n as int) =~= t@);
    sum == 6 && !(at2 && at4)
}

fn hex_digit(c: char) -> (r: Option<u8>)
    ensures
        is_hex_digit(c) ==> r == Some(hex_value(c) as u8),
        !is_hex_digit(c) ==> r is None,
{
    if '0' <= c && c <= '9' {
        Some((c as u8) - 48)
    } else if 'a' <= c && c <= 'f' {
        Some((c as u8) - 87)
    } else if 'A' <= c && c <= 'F' {
        Some((c as u8) - 55)
    } else {
        None
    }
}

fn parse_hex_byte(a: char, b: char) -> (r: Option<u8>)
    ensures
        r == hex_byte(a, b),
{
    match (hex_digit(a), hex_digit(b)) {
        (_, Some(lo)) if a == '+' => Some(lo),
        (Some(hi), Some(lo)) => Some(16 * hi + lo),
        _ => None,
    }
}

/// The colour that the palette entry `s` names (six hex digits, with any
/// surrounding whitespace and leading `#` ignored), or `fallback`.
pub fn hex_or(s: &str, fallback: Rgb) -> (c: Rgb)
    requires
        !color_slicing_fails(s@),
    ensures
        c == color_or(s@, fallback),
{
    let t = color_chars(s);
    if t.len() == 6 {
        match (parse_hex_byte(t[0], t[1]), parse_hex_byte(t[2], t[3]), parse_hex_byte(t[4], t[5])) {
            (Some(r), Some(g), Some(b)) => Rgb { r, g, b },
            _ => fallback,
        }
    } else {
        fallback
    }
}


// ---- theme ----------------------------------------------------------------

/// Colour overrides of a theme, each `rrggbb` hex text or empty.
pub struct Palette {
    pub accent: String,
    pub gold: String,
    pub green: String,
    pub red: String,
    pub fg: String,
    pub dim: String,
    pub hilite: String,
    pub bg: String,
}

impl Default for Palette {
    fn default() -> (p: Self)
        ensures
            p.accent@.len() == 0,
            p.gold@.len() == 0,
            p.green@.len() == 0,
            p.red@.len() == 0,
            p.fg@.len() == 0,
            p.dim@.len() == 0,
            p.hilite@.len() == 0,
            p.bg@.len() == 0,
    {
        Palette {
            accent: String::new(),
            gold: String::new(),
            green: String::new(),
            red: String::new(),
            fg: String::new(),
            dim: String::new(),
            hilite: String::new(),
            bg: String::new(),
        }
    }
}

impl Palette {
    /// Whether every entry can be read without slicing a character in two.
    pub open spec fn readable(&self) -> bool {
        &&& !color_slicing_fails(self.accent@)
        &&& !color_slicing_fails(self.gold@)
        &&& !color_slicing_fails(self.green@)
        &&& !color_slicing_fails(self.red@)
        &&& !color_slicing_fails(self.fg@)
        &&& !color_slicing_fails(self.dim@)
        &&& !color_slicing_fails(self.hilite@)
        &&& !color_slicing_fails(self.bg@)
    }

    /// Tests `readable`.
    pub fn is_readable(&self) -> (r: bool)
        ensures
            r == self.readable(),
    {
        !slicing_fails(self.accent.as_str()) && !slicing_fails(self.gold.as_str())
            && !slicing_fails(self.green.as_str()) && !slicing_fails(self.red.as_str())
            && !slicing_fails(self.fg.as_str()) && !slicing_fails(self.dim.as_str())
            && !slicing_fails(self.hilite.as_str()) && !slicing_fails(self.bg.as_str())
    }
}

/// The occasional glitch burst over titles.
pub struct Glitch {
    pub enabled: bool,
    /// Percent chance that a character is garbled during a burst.
    pub prob: u64,
    /// Ticks between the starts of two bursts.
    pub period: u64,
    /// Ticks a burst lasts.
    pub burst: u64,
}

/// Default garbling chance of a glitch burst, in percent.
pub fn g_prob() -> (p: u64)
    ensures
        p == 40,
{
    40
}

/// Default ticks between glitch bursts.
pub fn g_period() -> (p: u64)
    ensures
        p == 37,
{
    37
}

/// Default length of a glitch burst, in ticks.
pub fn g_burst() -> (b: u64)
    ensures
        b == 2,
{
    2
}

impl Default for Glitch {
    fn default() -> (g: Self)
        ensures
            !g.enabled,
            g.prob == 40,
            g.period == 37,
            g.burst == 2,
    {
        Glitch { enabled: false, prob: g_prob(), period: g_period(), burst: g_burst() }
    }
}

/// The boot splash.
pub struct Splash {
    pub enabled: bool,
    pub hello: String,
    pub mask: String,
    pub wordmark: String,
    pub tagline: String,
    pub steps: Vec<String>,
    pub final_line: String,
}

impl Default for Splash {
    fn default() -> (s: Self)
        ensures
            !s.enabled,
            s.hello@.len() == 0,
            s.mask@.len() == 0,
            s.wordmark@.len() == 0,
            s.tagline@.len() == 0,
            s.steps@.len() == 0,
            s.final_line@.len() == 0,
    {
        Splash {
            enabled: false,
            hello: String::new(),
            mask: String::new(),
            wordmark: String::new(),
            tagline: String::new(),
            steps: Vec::new(),
            final_line: String::new(),
        }
    }
}

/// The handler's voice: name, opening lines, narration.
pub struct Comms {
    pub handler: String,
    pub opening: Vec<String>,
    pub narration: Vec<String>,
}

impl Default for Comms {
    fn default() -> (c: Self)
        ensures
            c.handler@.len() == 0,
            c.opening@.len() == 0,
            c.narration@.len() == 0,
    {
        Comms { handler: String::new(), opening: Vec::new(), narration: Vec::new() }
    }
}

impl Comms {
    /// The handler's name, `handler` when the theme gives none.
    pub fn handler_name(&self) -> (r: String)
        ensures
            r@ == or_default(self.handler@, "handler"@),
    {
        if self.handler.as_str().is_empty() {
            "handler".to_owned()
        } else {
            self.handler.clone()
        }
    }
}

/// The frame style around panels.
#[derive(Clone, Copy, Debug, PartialEq, Eq, Structural)]
pub enum Border {
    Plain,
    Double,
    Thick,
    Rounded,
}

/// `c` in lower case when it is an ASCII capital, else `c`.
pub open spec fn ascii_lower(c: char) -> char {
    if 'A' <= c <= 'Z' {
        ((c as u32 + 32) as u8) as char
    } else {
        c
    }
}

/// `s` with its ASCII capitals lowered (`str::to_ascii_lowercase`).
pub open spec fn ascii_lowercase(s: Seq<char>) -> Seq<char> {
    s.map_values(|c: char| ascii_lower(c))
}

/// The frame style that the theme's `border` names, rounded by default.
pub open spec fn border_named(s: Seq<char>) -> Border {
    let l = ascii_lowercase(s);
    if l == "plain"@ || l == "square"@ {
        Border::Plain
    } else if l == "double"@ {
        Border::Double
    } else if l == "thick"@ {
        Border::Thick
    } else {
        Border::Rounded
    }
}

fn lower_chars(s: &str) -> (v: Vec<char>)
    ensures
        v@ == ascii_lowercase(s@),
{
    let cs = chars_of(s);
    let mut v: Vec<char> = Vec::new();
    for i in 0..cs.len()
        invariant
            cs@ == s@,
            v@ == ascii_lowercase(s@).take(i as int),
    {
        let c = cs[i];
        let l = if 'A' <= c && c <= 'Z' {
            ((c as u8) + 32) as char
        } else {
            c
        };
        v.push(l);
        assert(ascii_lowercase(s@).take(i + 1) =~= ascii_lowercase(s@).take(i as int).push(l));
    }
    assert(ascii_lowercase(s@).take(cs.len() as int) =~= ascii_lowercase(s@));
    v
}

/// Whether every key occurs once among the labels.
pub open spec fn distinct_keys(labels: Seq<(String, String)>) -> bool {
    forall|i: int, j: int|
        0 <= i < j < labels.len() ==> #[trigger] labels[i].0@ != #[trigger] labels[j].0@
}

/// Whether some label has the key `k`.
pub open spec fn has_key(labels: Seq<(String, String)>, k: Seq<char>) -> bool {
    exists|i: int| 0 <= i < labels.len() && #[trigger] labels[i].0@ == k
}

/// The labels as a map from key to text.
pub open spec fn label_map(labels: Seq<(String, String)>) -> Map<Seq<char>, Seq<char>> {
    Map::new(
        |k: Seq<char>| has_key(labels, k),
        |k: Seq<char>| labels[choose|i: int| 0 <= i < labels.len() && #[trigger] labels[i].0@ == k].1@,
    )
}

/// With distinct keys, the label at `i` is what the map gives for its key.
proof fn lemma_label_at(labels: Seq<(String, String)>, i: int)
    requires
        distinct_keys(labels),
        0 <= i < labels.len(),
    ensures
        label_map(labels).contains_key(labels[i].0@),
        label_map(labels)[labels[i].0@] == labels[i].1@,
{
    let k = labels[i].0@;
    assert(has_key(labels, k));
    let j = choose|j: int| 0 <= j < labels.len() && #[trigger] labels[j].0@ == k;
    if j != i {
        if j < i {
            assert(labels[j].0@ != labels[i].0@);
        } else {
            assert(labels[i].0@ != labels[j].0@);
        }
    }
}

/// Chrome strings by key, each key once.
pub struct Labels {
    entries: Vec<(String, String)>,
}

impl View for Labels {
    type V = Map<Seq<char>, Seq<char>>;

    closed spec fn view(&self) -> Map<Seq<char>, Seq<char>> {
        label_map(self.entries@)
    }
}

/// A theme: frame style, palette, glitch, splash, handler voice and chrome
/// labels.
pub struct Theme {
    pub border: String,
    pub palette: Palette,
    pub glitch: Glitch,
    pub splash: Splash,
    pub comms: Comms,
    /// Chrome strings by key.
    pub labels: Labels,
}

/// The frame style when the theme names none.
pub fn default_border() -> (s: String)
    ensures
        s@ == "rounded"@,
{
    "rounded".to_owned()
}

impl Default for Theme {
    fn default() -> (t: Self)
        ensures
            t.border@ == "rounded"@,
            t.palette.accent@.len() == 0,
            t.palette.gold@.len() == 0,
            t.palette.green@.len() == 0,
            t.palette.red@.len() == 0,
            t.palette.fg@.len() == 0,
            t.palette.dim@.len() == 0,
            t.palette.hilite@.len() == 0,
            t.palette.bg@.len() == 0,
            !t.glitch.enabled,
            t.glitch.prob == 40,
            t.glitch.period == 37,
            t.glitch.burst == 2,
            !t.splash.enabled,
            t.splash.hello@.len() == 0,
            t.splash.mask@.len() == 0,
            t.splash.wordmark@.len() == 0,
            t.splash.tagline@.len() == 0,
            t.splash.steps@.len() == 0,
            t.splash.final_line@.len() == 0,
            t.comms.handler@.len() == 0,
            t.comms.opening@.len() == 0,
            t.comms.narration@.len() == 0,
            t.labels@ == Map::<Seq<char>, Seq<char>>::empty(),
    {
        Theme {
            border: default_border(),
            palette: Palette::default(),
            glitch: Glitch::default(),
            splash: Splash::default(),
            comms: Comms::default(),
            labels: Labels::new(),
        }
    }
}

impl Theme {
    /// The chrome labels as a map from key to text.
    pub open spec fn label_view(&self) -> Map<Seq<char>, Seq<char>> {
        self.labels@
    }

    /// The accent colour, amber unless the palette names one.
    pub fn accent(&self) -> (c: Rgb)
        requires
            !color_slicing_fails(self.palette.accent@),
        ensures
            c == color_or(self.palette.accent@, Rgb { r: 217, g: 165, b: 33 }),
    {
        hex_or(self.palette.accent.as_str(), Rgb { r: 217, g: 165, b: 33 })
    }

    /// The gold colour, the accent colour unless the palette names one.
    pub fn gold(&self) -> (c: Rgb)
        requires
            !color_slicing_fails(self.palette.gold@),
            !color_slicing_fails(self.palette.accent@),
        ensures
            c == color_or(
                self.palette.gold@,
                color_or(self.palette.accent@, Rgb { r: 217, g: 165, b: 33 }),
            ),
    {
        let fallback = self.accent();
        hex_or(self.palette.gold.as_str(), fallback)
    }

    /// The green colour.
    pub fn green(&self) -> (c: Rgb)
        requires
            !color_slicing_fails(self.palette.green@),
        ensures
            c == color_or(self.palette.green@, Rgb { r: 74, g: 222, b: 128 }),
    {
        hex_or(self.palette.green.as_str(), Rgb { r: 74, g: 222, b: 128 })
    }

    /// The red colour.
    pub fn red(&self) -> (c: Rgb)
        requires
            !color_slicing_fails(self.palette.red@),
        ensures
            c == color_or(self.palette.red@, Rgb { r: 248, g: 113, b: 113 }),
    {
        hex_or(self.palette.red.as_str(), Rgb { r: 248, g: 113, b: 113 })
    }

    /// The foreground colour.
    pub fn fg(&self) -> (c: Rgb)
        requires
            !color_slicing_fails(self.palette.fg@),
        ensures
            c == color_or(self.palette.fg@, Rgb { r: 226, g: 232, b: 240 }),
    {
        hex_or(self.palette.fg.as_str(), Rgb { r: 226, g: 232, b: 240 })
    }

    /// The dimmed colour.
    pub fn dim(&self) -> (c: Rgb)
        requires
            !color_slicing_fails(self.palette.dim@),
        ensures
            c == color_or(self.palette.dim@, Rgb { r: 120, g: 133, b: 150 }),
    {
        hex_or(self.palette.dim.as_str(), Rgb { r: 120, g: 133, b: 150 })
    }

    /// The highlight background colour.
    pub fn hilite(&self) -> (c: Rgb)
        requires
            !color_slicing_fails(self.palette.hilite@),
        ensures
            c == color_or(self.palette.hilite@, Rgb { r: 30, g: 41, b: 59 }),
    {
        hex_or(self.palette.hilite.as_str(), Rgb { r: 30, g: 41, b: 59 })
    }

    /// The background colour.
    pub fn bg(&self) -> (c: Rgb)
        requires
            !color_slicing_fails(self.palette.bg@),
        ensures
            c == color_or(self.palette.bg@, Rgb { r: 10, g: 10, b: 10 }),
    {
        hex_or(self.palette.bg.as_str(), Rgb { r: 10, g: 10, b: 10 })
    }

    /// The frame style: `plain` or `square`, `double`, `thick`, in any
    /// ASCII case; rounded otherwise.
    pub fn border_type(&self) -> (b: Border)
        ensures
            b == border_named(self.border@),
    {
        let l = string_of(&lower_chars(self.border.as_str()));
        let l = l.as_str();
        if same_text(l, "plain") || same_text(l, "square") {
            Border::Plain
        } else if same_text(l, "double") {
            Border::Double
        } else if same_text(l, "thick") {
            Border::Thick
        } else {
            Border::Rounded
        }
    }

    /// The chrome string for `key`, or `default` when the theme has none.
    pub fn lbl(&self, key: &str, default: &str) -> (r: String)
        ensures
            r@ == (if self.label_view().contains_key(key@) {
                self.label_view()[key@]
            } else {
                default@
            }),
    {
        self.labels.get(key, default)
    }

    /// Sets the chrome string for `key` to `value`.
    pub fn insert_label(&mut self, key: String, value: String)
        ensures
            final(self).label_view() == old(self).label_view().insert(key@, value@),
            final(self).border == old(self).border,
            final(self).palette == old(self).palette,
            final(self).glitch == old(self).glitch,
            final(self).splash == old(self).splash,
            final(self).comms == old(self).comms,
    {
        self.labels.insert(key, value);
    }
}

impl Labels {
    #[verifier::type_invariant]
    spec fn keys_distinct(self) -> bool {
        distinct_keys(self.entries@)
    }

    /// No labels.
    pub fn new() -> (l: Labels)
        ensures
            l@ == Map::<Seq<char>, Seq<char>>::empty(),
    {
        let l = Labels { entries: Vec::new() };
        assert(label_map(l.entries@) =~= Map::<Seq<char>, Seq<char>>::empty());
        l
    }

    /// The text for `key`, or `default` when there is none.
    pub fn get(&self, key: &str, default: &str) -> (r: String)
        ensures
            r@ == (if self@.contains_key(key@) {
                self@[key@]
            } else {
                default@
            }),
    {
        proof {
            use_type_invariant(self);
        }
        let k = key.to_owned();
        for i in 0..self.entries.len()
            invariant
                k@ == key@,
                distinct_keys(self.entries@),
                forall|j: int| 0 <= j < i ==> self.entries@[j].0@ != key@,
        {
            if self.entries[i].0 == k {
                proof {
                    lemma_label_at(self.entries@, i as int);
                }
                return self.entries[i].1.clone();
            }
        }
        default.to_owned()
    }

    /// Sets the text for `key` to `value`.
    pub fn insert(&mut self, key: String, value: String)
        ensures
            final(self)@ == old(self)@.insert(key@, value@),
    {
        proof {
            use_type_invariant(&*self);
        }
        let mut e: Vec<(String, String)> = Vec::new();
        std::mem::swap(&mut e, &mut self.entries);
        let ghost before = e@;
        let n = e.len();
        let mut found: usize = 0;
        while found < n && !(e[found].0 == key)
            invariant
                n == e.len(),
                e@ == before,
                found <= n,
                forall|j: int| 0 <= j < found ==> before[j].0@ != key@,
            decreases n - found,
        {
            found = found + 1;
        }
        if found < n {
            e.set(found, (key, value));
            let ghost after = e@;
            assert(distinct_keys(after)) by {
                assert forall|i: int, j: int| 0 <= i < j < after.len() implies #[trigger] after[i].0@
                    != #[trigger] after[j].0@ by {
                    assert(before[i].0@ == after[i].0@);
                    assert(before[j].0@ == after[j].0@);
                    assert(before[i].0@ != before[j].0@);
                }
            }
            assert(label_map(after) =~= label_map(before).insert(key@, value@)) by {
                assert forall|k: Seq<char>| has_key(after, k) == (has_key(before, k) || k == key@) by {
                    if has_key(after, k) {
                        let i = choose|i: int| 0 <= i < after.len() && #[trigger] after[i].0@ == k;
                        assert(before[i].0@ == k);
                    }
                    if has_key(before, k) {
                        let i = choose|i: int| 0 <= i < before.len() && #[trigger] before[i].0@ == k;
                        assert(after[i].0@ == k);
                    }
                    if k == key@ {
                        assert(after[found as int].0@ == k);
                    }
                }
                assert forall|k: Seq<char>| #[trigger] has_key(after, k) implies label_map(after)[k]
                    == label_map(before).insert(key@, value@)[k] by {
                    let i = choose|i: int| 0 <= i < after.len() && #[trigger] after[i].0@ == k;
                    lemma_label_at(after, i);
                    if i != found {
                        assert(before[i] == after[i]);
                        lemma_label_at(before, i);
                    }
                }
            }
        } else {
            e.push((key, value));
            let ghost after = e@;
            assert(distinct_keys(after)) by {
                assert forall|i: int, j: int| 0 <= i < j < after.len() implies #[trigger] after[i].0@
                    != #[trigger] after[j].0@ by {
                    if j < n {
                        assert(before[i].0@ != before[j].0@);
                    } else {
                        assert(before[i].0@ != key@);
                    }
                }
            }
            assert(label_map(after) =~= label_map(before).insert(key@, value@)) by {
                assert forall|k: Seq<char>| has_key(after, k) == (has_key(before, k) || k == key@) by {
                    if has_key(after, k) {
                        let i = choose|i: int| 0 <= i < after.len() && #[trigger] after[i].0@ == k;
                        if i < n {
                            assert(before[i].0@ == k);
                        }
                    }
                    if has_key(before, k) {
                        let i = choose|i: int| 0 <= i < before.len() && #[trigger] before[i].0@ == k;
                        assert(after[i].0@ == k);
                    }
                    if k == key@ {
                        assert(after[n as int].0@ == k);
                    }
                }
                assert forall|k: Seq<char>| #[trigger] has_key(after, k) implies label_map(after)[k]
                    == label_map(before).insert(key@, value@)[k] by {
                    let i = choose|i: int| 0 <= i < after.len() && #[trigger] after[i].0@ == k;
                    lemma_label_at(after, i);
                    if i != n {
                        assert(before[i] == after[i]);
                        lemma_label_at(before, i);
                    }
                }
            }
        }
        self.entries = e;
    }

    /// The labels as (key, text) pairs, each key once.
    pub fn into_pairs(self) -> (v: Vec<(String, String)>)
        ensures
            distinct_keys(v@),
            label_map(v@) == self@,
    {
        proof {
            use_type_invariant(&self);
        }
        self.entries
    }
}

} // verus!
