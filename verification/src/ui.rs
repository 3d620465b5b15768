//! What the front-end decides and writes: the glitch effect, list
//! movement, key bindings, labels and status lines.
use vstd::prelude::*;
use crate::config::Glitch;
use crate::config::{Rgb, Splash, Theme};
use crate::model::{Campaign, Level};
use crate::save::{hints_of, Save, unlocked};
use crate::session::{Session, SessionView};
use crate::text::{
    chars_of, decimal, push_char, push_decimal, replace, replaced, starts_with, string_of, strip_prefix,
    trim, trimmed,
};

verus! {

// ---- glitch ---------------------------------------------------------------

/// The 64-bit mixing function that seeds the glitch (the SplitMix64
/// finaliser).
pub open spec fn mix(seed: u64) -> u64 {
    let x = seed.wrapping_add(0x9E37_79B9_7F4A_7C15);
    let x = (x ^ (x >> 30u64)).wrapping_mul(0xBF58_476D_1CE4_E5B9);
    let x = (x ^ (x >> 27u64)).wrapping_mul(0x94D0_49BB_1331_11EB);
    x ^ (x >> 31u64)
}

/// Mixes `seed` into a pseudo-random 64-bit value.
pub fn rng(seed: u64) -> (r: u64)
    ensures
        r == mix(seed),
{
    let mut x = seed.wrapping_add(0x9E37_79B9_7F4A_7C15);
    x = (x ^ (x >> 30u64)).wrapping_mul(0xBF58_476D_1CE4_E5B9);
    x = (x ^ (x >> 27u64)).wrapping_mul(0x94D0_49BB_1331_11EB);
    x ^ (x >> 31u64)
}

/// The characters a glitch garbles text with.
pub open spec fn glyphs() -> Seq<char> {
    seq!['!', '@', '#', '$', '%', '&', '*', '<', '>', '/', '\\', '|', '=', '+', '~', '^']
}

/// The pseudo-random value that decides the character at position `i`.
pub open spec fn glitch_roll(seed: u64, i: int) -> u64 {
    mix(seed ^ (i as u64).wrapping_mul(0x0100_0000_01B3))
}

/// The character at position `i` of a glitched text whose own
/// character there is `c`: spaces stay; any other character is replaced,
/// with chance `prob` percent, by a glyph.
pub open spec fn glitched_char(c: char, i: int, seed: u64, prob: u64) -> char {
    let r = glitch_roll(seed, i);
    if c == ' ' {
        c
    } else if r % 100 < prob {
        glyphs()[((r as usize / 7) % 16) as int]
    } else {
        c
    }
}

/// `s` garbled by the glitch seeded with `seed`.
pub open spec fn glitched(s: Seq<char>, seed: u64, prob: u64) -> Seq<char> {
    Seq::new(s.len(), |i: int| glitched_char(s[i], i, seed, prob))
}

fn glyph(j: usize) -> (c: char)
    requires
        j < 16,
    ensures
        c == glyphs()[j as int],
{
    let g: [char; 16] = ['!', '@', '#', '$', '%', '&', '*', '<', '>', '/', '\\', '|', '=', '+', '~', '^'];
    assert(g@ =~= glyphs());
    g[j]
}

/// `s` garbled by a glitch burst: every non-space character is, with chance
/// `prob` percent, replaced by a glyph, the roll depending on `seed` and the
/// character's position.
pub fn glitch(s: &str, seed: u64, prob: u64) -> (r: String)
    ensures
        r@ == glitched(s@, seed, prob),
{
    let cs = chars_of(s);
    let mut out = String::new();
    for i in 0..cs.len()
        invariant
            cs@ == s@,
            out@ == glitched(s@, seed, prob).take(i as int),
    {
        let c = cs[i];
        let r = rng(seed ^ (i as u64).wrapping_mul(0x0100_0000_01B3));
        let g = if c == ' ' {
            c
        } else if r % 100 < prob {
            glyph((r as usize / 7) % 16)
        } else {
            c
        };
        push_char(&mut out, g);
        assert(glitched(s@, seed, prob).take(i + 1) =~= glitched(s@, seed, prob).take(
            i as int,
        ).push(g));
    }
    assert(glitched(s@, seed, prob).take(cs.len() as int) =~= glitched(s@, seed, prob));
    out
}

/// A glitch keeps the text's length and its spaces, changes nothing when its
/// chance is zero, and puts only glyphs where it changes a character.
pub proof fn lemma_glitch_shape(s: Seq<char>, seed: u64, prob: u64)
    ensures
        glitched(s, seed, prob).len() == s.len(),
        forall|i: int| 0 <= i < s.len() && s[i] == ' ' ==> #[trigger] glitched(s, seed, prob)[i]
            == ' ',
        forall|i: int|
            0 <= i < s.len() && #[trigger] glitched(s, seed, prob)[i] != s[i] ==> glyphs().contains(
                glitched(s, seed, prob)[i],
            ),
        prob == 0 ==> glitched(s, seed, prob) == s,
{
    assert forall|i: int|
        0 <= i < s.len() && #[trigger] glitched(s, seed, prob)[i] != s[i] implies glyphs().contains(
        glitched(s, seed, prob)[i],
    ) by {
        let r = glitch_roll(seed, i);
        let j = ((r as usize / 7) % 16) as int;
        assert(glyphs()[j] == glitched(s, seed, prob)[i]);
    }
    if prob == 0 {
        assert(glitched(s, seed, prob) =~= s);
    }
}

/// Whether a glitch burst is on at `tick`: the glitch is enabled and the
/// tick falls in the first `burst` ticks of a `period`.
pub open spec fn burst_on(g: Glitch, tick: u64) -> bool {
    g.enabled && g.period > 0 && tick % g.period < g.burst
}

/// `s` as the screen shows it at `tick`: glitched (seeded by the tick)
/// while a burst is on, unchanged otherwise.
pub fn maybe_glitch(g: &Glitch, tick: u64, s: &str) -> (r: String)
    ensures
        r@ == (if burst_on(*g, tick) {
            glitched(s@, tick, g.prob)
        } else {
            s@
        }),
{
    if g.enabled && g.period > 0 && tick % g.period < g.burst {
        glitch(s, tick, g.prob)
    } else {
        s.to_owned()
    }
}


// ---- titles ---------------------------------------------------------------

/// The separator between a level title's prefix and its short name.
pub open spec fn dash() -> Seq<char> {
    seq![' ', '-', ' ']
}

/// What follows the last ` - ` in `s`; all of `s` when there is none.
pub open spec fn after_last_dash(s: Seq<char>) -> Seq<char>
    decreases s.len(),
{
    if s.len() < 3 {
        s
    } else if s.skip(s.len() - 3) == dash() {
        Seq::empty()
    } else {
        after_last_dash(s.drop_last()).push(s.last())
    }
}

/// Whether ` - ` starts at position `k` of `s`.
pub open spec fn dash_at(s: Seq<char>, k: int) -> bool {
    0 <= k && k + 3 <= s.len() && s.subrange(k, k + 3) == dash()
}

/// The short name of a title is what follows its last ` - ` (the one that
/// starts furthest right), or the whole title when it has none.
pub proof fn lemma_after_last_dash(s: Seq<char>, k: int)
    requires
        -1 <= k,
        k == -1 || dash_at(s, k),
        forall|j: int| k < j ==> !#[trigger] dash_at(s, j),
    ensures
        after_last_dash(s) == (if k == -1 {
            s
        } else {
            s.skip(k + 3)
        }),
    decreases s.len(),
{
    if s.len() < 3 {
    } else if s.skip(s.len() - 3) == dash() {
        assert(s.subrange(s.len() - 3, s.len() as int) =~= s.skip(s.len() - 3));
        assert(dash_at(s, s.len() - 3));
        assert(k == s.len() - 3);
        assert(s.skip(k + 3) =~= Seq::<char>::empty());
    } else {
        let t = s.drop_last();
        assert(s.subrange(s.len() - 3, s.len() as int) =~= s.skip(s.len() - 3));
        assert(!dash_at(s, s.len() - 3));
        assert forall|j: int| k < j implies !#[trigger] dash_at(t, j) by {
            if dash_at(t, j) {
                assert(t.subrange(j, j + 3) =~= s.subrange(j, j + 3));
                assert(dash_at(s, j));
            }
        }
        if k != -1 {
            assert(k + 3 <= t.len());
            assert(t.subrange(k, k + 3) =~= s.subrange(k, k + 3));
        }
        lemma_after_last_dash(t, k);
        if k == -1 {
            assert(t.push(s.last()) =~= s);
        } else {
            assert(t.skip(k + 3).push(s.last()) =~= s.skip(k + 3));
        }
    }
}

/// The short name of a level title: what follows its last ` - `.
pub fn short_title(t: &str) -> (r: String)
    ensures
        r@ == after_last_dash(t@),
{
    let cs = chars_of(t);
    let n = cs.len();
    let mut k: usize = n;
    // k counts down over the candidate start positions + 3.
    while k >= 3 && !(cs[k - 3] == ' ' && cs[k - 2] == '-' && cs[k - 1] == ' ')
        invariant
            cs@ == t@,
            n == cs.len(),
            k <= n,
            forall|j: int| k - 3 < j ==> !#[trigger] dash_at(t@, j),
        decreases k,
    {
        assert(!dash_at(t@, k - 3)) by {
            if dash_at(t@, k - 3) {
                assert(t@.subrange(k - 3, k as int)[0] == ' ');
                assert(t@.subrange(k - 3, k as int)[1] == '-');
                assert(t@.subrange(k - 3, k as int)[2] == ' ');
            }
        }
        k = k - 1;
    }
    if k >= 3 {
        assert(t@.subrange(k - 3, k as int) =~= dash());
        proof {
            lemma_after_last_dash(t@, k - 3);
        }
        let mut out = String::new();
        for i in k..n
            invariant
                cs@ == t@,
                n == cs.len(),
                k <= n,
                out@ == t@.subrange(k as int, i as int),
        {
            push_char(&mut out, cs[i]);
            assert(t@.subrange(k as int, i + 1) =~= t@.subrange(k as int, i as int).push(
                t@[i as int],
            ));
        }
        assert(t@.skip(k as int) =~= t@.subrange(k as int, n as int));
        out
    } else {
        proof {
            assert forall|j: int| -1 < j implies !#[trigger] dash_at(t@, j) by {
                if j > k - 3 {
                } else {
                    assert(j + 3 > t@.len() || j + 3 > k);
                }
            }
            lemma_after_last_dash(t@, -1);
        }
        string_of(&cs)
    }
}

// ---- list movement --------------------------------------------------------

/// The selection after moving `delta` rows from `selected` in a list of
/// `len` rows: clamped to the first and last rows (to `usize::MAX` in an
/// empty list, one before the first row).
pub open spec fn moved(selected: usize, delta: isize, len: usize) -> usize {
    let i = (selected as isize) + delta;
    let i = if i < 0 {
        0
    } else {
        i
    };
    if len == 0 {
        usize::MAX
    } else if i >= len {
        (len - 1) as usize
    } else {
        i as usize
    }
}

/// Moves the selection `delta` rows within a list of `len` rows.
pub fn move_selection(selected: usize, delta: isize, len: usize) -> (r: usize)
    requires
        len <= isize::MAX,
        isize::MIN <= (selected as isize) + delta <= isize::MAX,
    ensures
        r == moved(selected, delta, len),
        len > 0 ==> r < len,
{
    let len_i = len as isize;
    let mut i = selected as isize + delta;
    if i < 0 {
        i = 0;
    }
    if i >= len_i {
        i = len_i - 1;
    }
    if len == 0 {
        usize::MAX
    } else {
        i as usize
    }
}

// ---- labels ---------------------------------------------------------------

/// Who the player logs in as for level `n`.
pub open spec fn who_text(prefix: Seq<char>, word: Seq<char>, n: u32) -> Seq<char> {
    if n == 0 {
        prefix + "0 over ssh (password: "@ + prefix + "0)"@
    } else {
        prefix + decimal((n - 1) as nat) + " ("@ + word + " "@ + decimal(n as nat) + ")"@
    }
}

/// Who the player logs in as for level `n`, for the banner shown on entry:
/// `<prefix>0` over SSH for the intro, `<prefix>(n-1)` otherwise.
pub fn who(prefix: &str, word_target: &str, n: u32) -> (r: String)
    ensures
        r@ == who_text(prefix@, word_target@, n),
{
    let mut s = prefix.to_owned();
    if n == 0 {
        s.append("0 over ssh (password: ");
        s.append(prefix);
        s.append("0)");
    } else {
        push_decimal(&mut s, (n - 1) as u64);
        s.append(" (");
        s.append(word_target);
        s.append(" ");
        push_decimal(&mut s, n as u64);
        s.append(")");
    }
    s
}

/// `n` in decimal, padded with a zero to two digits.
pub open spec fn two_digits(n: nat) -> Seq<char> {
    if n < 10 {
        seq!['0'] + decimal(n)
    } else {
        decimal(n)
    }
}

/// The row for a level in the level list.
pub open spec fn level_label_text(word: Seq<char>, get_in: Seq<char>, n: u32, title: Seq<char>) -> Seq<
    char,
> {
    if n == 0 {
        word + " 00 - "@ + get_in
    } else {
        word + " "@ + two_digits(n as nat) + " - "@ + after_last_dash(title)
    }
}

/// The row for level `n` in the level list: `<word> 00 - <get_in>` for the
/// intro, `<word> NN - <short title>` otherwise.
pub fn level_label(word: &str, get_in: &str, n: u32, title: &str) -> (r: String)
    ensures
        r@ == level_label_text(word@, get_in@, n, title@),
{
    let mut s = word.to_owned();
    if n == 0 {
        s.append(" 00 - ");
        s.append(get_in);
    } else {
        s.append(" ");
        if n < 10 {
            push_char(&mut s, '0');
        }
        push_decimal(&mut s, n as u64);
        s.append(" - ");
        let short = short_title(title);
        s.append(short.as_str());
    }
    s
}

/// Every level row after the intro reads `<word> NN - <short title>`: the
/// number in two digits (a leading zero below 10) and the title's short
/// name, for one-digit and longer numbers alike.
pub proof fn lemma_level_row_shape(word: Seq<char>, get_in: Seq<char>, n: u32, title: Seq<char>)
    ensures
        n == 0 ==> level_label_text(word, get_in, n, title) == word + " 00 - "@ + get_in,
        1 <= n < 10 ==> level_label_text(word, get_in, n, title) == word + " "@ + seq!['0']
            + decimal(n as nat) + " - "@ + after_last_dash(title),
        n >= 10 ==> level_label_text(word, get_in, n, title) == word + " "@ + decimal(n as nat)
            + " - "@ + after_last_dash(title),
{
}

/// The ANSI escape that sets the foreground to `c`.
pub open spec fn ansi_fg_text(c: Rgb) -> Seq<char> {
    seq!['\x1b'] + "[38;2;"@ + decimal(c.r as nat) + ";"@ + decimal(c.g as nat) + ";"@ + decimal(
        c.b as nat,
    ) + "m"@
}

/// The ANSI escape that sets the terminal's foreground to `c`.
pub fn ansi_fg(c: Rgb) -> (r: String)
    ensures
        r@ == ansi_fg_text(c),
{
    let mut s = String::new();
    push_char(&mut s, '\x1b');
    s.append("[38;2;");
    push_decimal(&mut s, c.r as u64);
    s.append(";");
    push_decimal(&mut s, c.g as u64);
    s.append(";");
    push_decimal(&mut s, c.b as u64);
    s.append("m");
    s
}


// ---- campaign selection ---------------------------------------------------

/// The campaign named on the command line from argument `i` on: the
/// argument after the first `--campaign` that has one, or what follows
/// `--campaign=`, whichever comes first.
pub open spec fn campaign_flag(args: Seq<Seq<char>>, i: int) -> Option<Seq<char>>
    decreases args.len() - i,
{
    if i < 0 || i >= args.len() {
        None
    } else if args[i] == "--campaign"@ && i + 1 < args.len() {
        Some(args[i + 1])
    } else if starts_with(args[i], "--campaign="@) {
        Some(args[i].skip("--campaign="@.len() as int))
    } else {
        campaign_flag(args, i + 1)
    }
}

/// The campaign to play: named on the command line, else by the
/// environment, else `fsociety`.
pub open spec fn chosen_campaign(args: Seq<Seq<char>>, env_value: Option<Seq<char>>) -> Seq<char> {
    match campaign_flag(args, 0) {
        Some(name) => name,
        None => match env_value {
            Some(name) => name,
            None => "fsociety"@,
        },
    }
}

/// The campaign to play, from the program's arguments (`--campaign NAME` or
/// `--campaign=NAME`) or else the value of the campaign environment
/// variable (when set), else `fsociety`.
pub fn campaign_name(args: &Vec<String>, env_value: Option<String>) -> (r: String)
    ensures
        r@ == chosen_campaign(
            args.deep_view(),
            match env_value {
                Some(v) => Some(v@),
                None => None,
            },
        ),
{
    let ghost a = args.deep_view();
    let mut i: usize = 0;
    while i < args.len()
        invariant
            a == args.deep_view(),
            i <= args.len(),
            campaign_flag(a, 0) == campaign_flag(a, i as int),
        decreases args.len() - i,
    {
        assert(a[i as int] == args@[i as int]@);
        if args[i] == "--campaign".to_owned() && i + 1 < args.len() {
            assert(a[i + 1] == args@[i + 1]@);
            return args[i + 1].clone();
        }
        match strip_prefix(args[i].as_str(), "--campaign=") {
            Some(v) => {
                return v;
            },
            None => {},
        }
        i = i + 1;
    }
    match env_value {
        Some(v) => v,
        None => "fsociety".to_owned(),
    }
}

/// Where a campaign's folder may be, in the order they are tried.
pub open spec fn campaign_paths(name: Seq<char>, manifest_dir: Seq<char>) -> Seq<Seq<char>> {
    seq![
        "campaigns/"@ + name,
        "../campaigns/"@ + name,
        manifest_dir + "/../campaigns/"@ + name,
    ]
}

/// The folders that may hold the campaign `name`, in the order they are
/// tried: under the working directory, under its parent, and beside the
/// front-end's source tree (`manifest_dir`).
pub fn campaign_candidates(name: &str, manifest_dir: &str) -> (r: Vec<String>)
    ensures
        r.deep_view() == campaign_paths(name@, manifest_dir@),
{
    let mut a = "campaigns/".to_owned();
    a.append(name);
    let mut b = "../campaigns/".to_owned();
    b.append(name);
    let mut c = manifest_dir.to_owned();
    c.append("/../campaigns/");
    c.append(name);
    let mut v: Vec<String> = Vec::new();
    v.push(a);
    v.push(b);
    v.push(c);
    assert(v.deep_view() =~= campaign_paths(name@, manifest_dir@));
    v
}

// ---- keys -----------------------------------------------------------------

/// A key press, as far as the front-end tells keys apart.
#[derive(Clone, Copy, Debug, PartialEq, Eq, Structural)]
pub enum Key {
    Enter,
    Esc,
    Backspace,
    Up,
    Down,
    /// The F1 function key.
    F1,
    /// Control held with `g`.
    CtrlG,
    Char(char),
    Other,
}

/// What a key press asks the front-end to do.
#[derive(Clone, Copy, Debug, PartialEq, Eq, Structural)]
pub enum Action {
    /// Check the typed password.
    Submit,
    /// Drop the typed password and leave password entry.
    CancelInput,
    /// Delete the last typed character.
    DeleteChar,
    /// Type a character.
    TypeChar(char),
    Quit,
    /// Move the selection down (+1) or up (-1).
    Move(isize),
    RevealHint,
    ToggleSolution,
    RefreshWorld,
    /// Start typing a password.
    StartInput,
    /// Open the selected level's shell.
    EnterLevel,
    Nothing,
}

/// The key bindings: while a password is typed, Enter submits, Esc cancels,
/// Backspace deletes and characters are typed (Ctrl-G types `g`); otherwise `q` or Ctrl-G
/// quits, `j` or Down and `k` or Up move, `h` or F1 reveals a hint, `s`
/// toggles the solution, `r` refreshes the world, `p` starts password entry
/// and Enter opens the level.
pub open spec fn binding(input_mode: bool, key: Key) -> Action {
    if input_mode {
        match key {
            Key::Enter => Action::Submit,
            Key::Esc => Action::CancelInput,
            Key::Backspace => Action::DeleteChar,
            Key::Char(c) => Action::TypeChar(c),
            Key::CtrlG => Action::TypeChar('g'),
            _ => Action::Nothing,
        }
    } else {
        match key {
            Key::Char('q') | Key::CtrlG => Action::Quit,
            Key::Down | Key::Char('j') => Action::Move(1isize),
            Key::Up | Key::Char('k') => Action::Move(-1isize),
            Key::Char('h') | Key::F1 => Action::RevealHint,
            Key::Char('s') => Action::ToggleSolution,
            Key::Char('r') => Action::RefreshWorld,
            Key::Char('p') => Action::StartInput,
            Key::Enter => Action::EnterLevel,
            _ => Action::Nothing,
        }
    }
}

/// While a password is typed, every character key types that very
/// character (case and all).
pub proof fn lemma_typing_keeps_characters(c: char)
    ensures
        binding(true, Key::Char(c)) == Action::TypeChar(c),
{
}

/// What the key press `key` asks for.
pub fn key_action(input_mode: bool, key: Key) -> (a: Action)
    ensures
        a == binding(input_mode, key),
{
    if input_mode {
        match key {
            Key::Enter => Action::Submit,
            Key::Esc => Action::CancelInput,
            Key::Backspace => Action::DeleteChar,
            Key::Char(c) => Action::TypeChar(c),
            Key::CtrlG => Action::TypeChar('g'),
            _ => Action::Nothing,
        }
    } else {
        match key {
            Key::Char('q') | Key::CtrlG => Action::Quit,
            Key::Down | Key::Char('j') => Action::Move(1),
            Key::Up | Key::Char('k') => Action::Move(-1),
            Key::Char('h') | Key::F1 => Action::RevealHint,
            Key::Char('s') => Action::ToggleSolution,
            Key::Char('r') => Action::RefreshWorld,
            Key::Char('p') => Action::StartInput,
            Key::Enter => Action::EnterLevel,
            _ => Action::Nothing,
        }
    }
}

// ---- status lines ---------------------------------------------------------

/// The theme's label for `key`, or `default`.
pub open spec fn label_or(theme: Theme, key: Seq<char>, default: Seq<char>) -> Seq<char> {
    if theme.label_view().contains_key(key) {
        theme.label_view()[key]
    } else {
        default
    }
}

/// A label set in the theme is what the theme then gives for its key, and
/// the other keys give what they gave before.
pub proof fn lemma_label_read_back(
    before: Theme,
    after: Theme,
    key: Seq<char>,
    value: Seq<char>,
    other: Seq<char>,
    default: Seq<char>,
)
    requires
        after.label_view() == before.label_view().insert(key, value),
    ensures
        label_or(after, key, default) == value,
        other != key ==> label_or(after, other, default) == label_or(before, other, default),
{
}

/// What submitting a typed password leads to, before the world is asked.
#[derive(Clone, Copy, Debug, PartialEq, Eq, Structural)]
pub enum SubmitStep {
    /// The intro has no password: just log in.
    NoPassword,
    /// The world is down, so nothing can be checked.
    CannotVerify,
    /// Ask the world for the level's password and compare.
    Check,
}

/// The first step of submitting a password for level `n`: level 0 has no
/// password, a world that is down cannot check one, otherwise check it.
pub fn submit_step(n: u32, world_running: bool) -> (s: SubmitStep)
    ensures
        s == (if n == 0 {
            SubmitStep::NoPassword
        } else if !world_running {
            SubmitStep::CannotVerify
        } else {
            SubmitStep::Check
        }),
{
    if n == 0 {
        SubmitStep::NoPassword
    } else if !world_running {
        SubmitStep::CannotVerify
    } else {
        SubmitStep::Check
    }
}

/// What asking to open level `n` leads to.
#[derive(Clone, Copy, Debug, PartialEq, Eq, Structural)]
pub enum EnterStep {
    /// The level is locked: clear the previous one first.
    Locked,
    /// The world is down, so there is no shell to open.
    WorldDown,
    /// Open the level's shell.
    Enter,
}

/// Whether level `n` can be opened: it must be unlocked and the world up.
pub fn enter_step(save: &Save, n: u32, world_running: bool) -> (s: EnterStep)
    ensures
        s == (if !unlocked(save.solved@, n) {
            EnterStep::Locked
        } else if !world_running {
            EnterStep::WorldDown
        } else {
            EnterStep::Enter
        }),
{
    if !save.is_unlocked(n) {
        EnterStep::Locked
    } else if !world_running {
        EnterStep::WorldDown
    } else {
        EnterStep::Enter
    }
}

/// The status line after the world answered a password check for level
/// `n`.
pub open spec fn verdict_text(theme: Theme, prefix: Seq<char>, n: u32, outcome: Result<bool, Seq<char>>) -> Seq<char> {
    match outcome {
        Ok(true) => replaced(
            label_or(theme, "status_correct"@, "[ok] correct. {user} cleared."@),
            "{user}"@,
            prefix + decimal(n as nat),
        ),
        Ok(false) => label_or(theme, "status_wrong"@, "wrong password. keep digging."@),
        Err(e) => "verify error: "@ + e,
    }
}

/// The status line after the world answered a password check for level
/// `n`: cleared (naming the level's user), wrong, or the error the check
/// ran into.
pub fn verdict_status(theme: &Theme, prefix: &str, n: u32, outcome: &Result<bool, String>) -> (r: String)
    ensures
        r@ == verdict_text(
            *theme,
            prefix@,
            n,
            match outcome {
                Ok(b) => Ok(*b),
                Err(e) => Err(e@),
            },
        ),
{
    match outcome {
        Ok(true) => {
            let template = theme.lbl("status_correct", "[ok] correct. {user} cleared.");
            let mut user = prefix.to_owned();
            push_decimal(&mut user, n as u64);
            replace(template.as_str(), "{user}", user.as_str())
        },
        Ok(false) => theme.lbl("status_wrong", "wrong password. keep digging."),
        Err(e) => {
            let mut s = "verify error: ".to_owned();
            s.append(e.as_str());
            s
        },
    }
}

/// A label of the theme with `{who}` filled in (the banner on entering a
/// level and the status line on coming back).
pub fn who_label(theme: &Theme, key: &str, default: &str, who: &str) -> (r: String)
    ensures
        r@ == replaced(label_or(*theme, key@, default@), "{who}"@, who@),
{
    let template = theme.lbl(key, default);
    replace(template.as_str(), "{who}", who)
}

/// The header over the revealed hints, with `{used}` and `{total}` filled
/// in.
pub open spec fn hints_header_text(theme: Theme, used: nat, total: nat) -> Seq<char> {
    replaced(
        replaced(
            label_or(theme, "leaks_header"@, "hints ({used}/{total} revealed - press h for more)"@),
            "{used}"@,
            decimal(used),
        ),
        "{total}"@,
        decimal(total),
    )
}

/// The header over the revealed hints: how many of the level's hints are
/// out.
pub fn hints_header(theme: &Theme, used: usize, total: usize) -> (r: String)
    ensures
        r@ == hints_header_text(*theme, used as nat, total as nat),
{
    let template = theme.lbl("leaks_header", "hints ({used}/{total} revealed - press h for more)");
    let mut u = String::new();
    push_decimal(&mut u, used as u64);
    let mut t = String::new();
    push_decimal(&mut t, total as u64);
    let once = replace(template.as_str(), "{used}", u.as_str());
    replace(once.as_str(), "{total}", t.as_str())
}


// ---- the detail panel -----------------------------------------------------

/// The palette colour a piece of text is drawn in.
#[derive(Clone, Copy, Debug, PartialEq, Eq, Structural)]
pub enum Tone {
    Gold,
    Fg,
    Dim,
    Accent,
    Green,
    Red,
}

/// A run of text drawn in one tone, bold or not.
pub struct Piece {
    pub text: String,
    pub tone: Tone,
    pub bold: bool,
}

/// A row of pieces as plain values.
pub open spec fn row_view(row: Seq<Piece>) -> Seq<(Seq<char>, Tone, bool)> {
    row.map_values(|p: Piece| (p.text@, p.tone, p.bold))
}

/// Rows of pieces as plain values.
pub open spec fn rows_view(rows: Seq<Vec<Piece>>) -> Seq<Seq<(Seq<char>, Tone, bool)>> {
    rows.map_values(|r: Vec<Piece>| row_view(r@))
}

/// `l` without one trailing carriage return.
pub open spec fn strip_cr(l: Seq<char>) -> Seq<char> {
    if l.len() > 0 && l.last() == '\r' {
        l.drop_last()
    } else {
        l
    }
}

/// The lines of `cur + s`, where `cur` is the line begun so far.
pub open spec fn lines_from(s: Seq<char>, cur: Seq<char>) -> Seq<Seq<char>>
    decreases s.len(),
{
    if s.len() == 0 {
        if cur.len() == 0 {
            Seq::empty()
        } else {
            seq![cur]
        }
    } else if s[0] == '\n' {
        seq![strip_cr(cur)] + lines_from(s.drop_first(), Seq::empty())
    } else {
        lines_from(s.drop_first(), cur.push(s[0]))
    }
}

/// The lines of `s` (`str::lines`): split at `\n` or `\r\n`, with no line
/// after a final line ending.
pub open spec fn text_lines(s: Seq<char>) -> Seq<Seq<char>> {
    lines_from(s, Seq::empty())
}

/// `parts` joined with `sep` between them (`join`).
/// (See `lemma_lines_rejoin` for how it undoes `text_lines`.)
pub open spec fn joined(parts: Seq<Seq<char>>, sep: Seq<char>) -> Seq<char>
    decreases parts.len(),
{
    if parts.len() == 0 {
        Seq::empty()
    } else if parts.len() == 1 {
        parts[0]
    } else {
        joined(parts.drop_last(), sep) + sep + parts.last()
    }
}

proof fn lemma_joined_prepend(x: Seq<char>, l: Seq<Seq<char>>, sep: Seq<char>)
    requires
        l.len() > 0,
    ensures
        joined(seq![x] + l, sep) == x + sep + joined(l, sep),
    decreases l.len(),
{
    let xl = seq![x] + l;
    if l.len() == 1 {
        assert(xl.drop_last() =~= seq![x]);
        assert(xl.last() == l[0]);
        assert(joined(seq![x], sep) == x);
        assert(joined(l, sep) == l[0]);
        assert(joined(xl, sep) == joined(xl.drop_last(), sep) + sep + xl.last());
    } else {
        assert(joined(xl, sep) == joined(xl.drop_last(), sep) + sep + xl.last());
        assert(joined(l, sep) == joined(l.drop_last(), sep) + sep + l.last());
        lemma_joined_prepend(x, l.drop_last(), sep);
        assert(xl.drop_last() =~= seq![x] + l.drop_last());
        assert(xl.last() == l.last());
        assert(x + sep + joined(l.drop_last(), sep) + sep + l.last() =~= x + sep + (joined(
            l.drop_last(),
            sep,
        ) + sep + l.last()));
    }
}

proof fn lemma_lines_from_rejoin(s: Seq<char>, cur: Seq<char>)
    requires
        forall|i: int| 0 <= i < s.len() ==> s[i] != '\r',
        forall|i: int| 0 <= i < cur.len() ==> cur[i] != '\r',
        s.len() > 0 ==> s.last() != '\n',
        cur.len() + s.len() > 0,
    ensures
        joined(lines_from(s, cur), "\n"@) == cur + s,
        lines_from(s, cur).len() > 0,
    decreases s.len(),
{
    if s.len() == 0 {
        assert(cur + s =~= cur);
    } else {
        let rest = s.drop_first();
        if s[0] == '\n' {
            assert(rest.len() > 0);
            assert(rest.last() == s.last());
            lemma_lines_from_rejoin(rest, Seq::empty());
            assert(strip_cr(cur) == cur);
            lemma_joined_prepend(cur, lines_from(rest, Seq::empty()), "\n"@);
            assert(Seq::<char>::empty() + rest =~= rest);
            assert(cur + "\n"@ + rest =~= cur + s) by {
                reveal_strlit("\n");
            }
        } else {
            if rest.len() > 0 {
                assert(rest.last() == s.last());
            }
            lemma_lines_from_rejoin(rest, cur.push(s[0]));
            assert(cur.push(s[0]) + rest =~= cur + s);
        }
    }
}

/// Splitting a text into lines and joining them back with line breaks
/// gives the text again, for a text without carriage returns that does not
/// end in a line break.
pub proof fn lemma_lines_rejoin(s: Seq<char>)
    requires
        forall|i: int| 0 <= i < s.len() ==> s[i] != '\r',
        s.len() > 0,
        s.last() != '\n',
    ensures
        joined(text_lines(s), "\n"@) == s,
{
    lemma_lines_from_rejoin(s, Seq::empty());
    assert(Seq::<char>::empty() + s =~= s);
}

/// Each line as a row of one piece in `tone`.
pub open spec fn plain_rows(lines: Seq<Seq<char>>, tone: Tone) -> Seq<Seq<(Seq<char>, Tone, bool)>> {
    lines.map_values(|l: Seq<char>| seq![(l, tone, false)])
}

/// The first `k` hints, numbered from 1, each followed by an empty row.
pub open spec fn hint_rows(hints: Seq<Seq<char>>, k: nat) -> Seq<Seq<(Seq<char>, Tone, bool)>>
    decreases k,
{
    if k == 0 {
        Seq::empty()
    } else {
        hint_rows(hints, (k - 1) as nat) + seq![
            seq![(decimal(k) + ". "@, Tone::Accent, false), (hints[k - 1], Tone::Fg, false)],
            Seq::empty(),
        ]
    }
}

/// The upper half of the detail panel: the (possibly glitched) title, the
/// goal's lines, the useful commands when there are any, and the level's
/// treasure when it has one.
pub open spec fn brief_rows(
    theme: Theme,
    n: u32,
    title: Seq<char>,
    goal: Seq<char>,
    commands: Seq<Seq<char>>,
    treasure: Map<u32, String>,
    tick: u64,
) -> Seq<Seq<(Seq<char>, Tone, bool)>> {
    let shown = if burst_on(theme.glitch, tick) {
        glitched(title, tick, theme.glitch.prob)
    } else {
        title
    };
    seq![seq![(shown, Tone::Gold, true)], Seq::empty()] + plain_rows(text_lines(trimmed(goal)), Tone::Fg)
        + (if commands.len() > 0 {
        seq![
            Seq::empty(),
            seq![
                (label_or(theme, "tools_label"@, "useful:"@) + " "@, Tone::Dim, false),
                (joined(commands, "  "@), Tone::Accent, false),
            ],
        ]
    } else {
        Seq::empty()
    }) + (if treasure.contains_key(n) {
        seq![
            Seq::empty(),
            seq![
                (label_or(theme, "creds_label"@, "treasure:"@) + " "@, Tone::Green, false),
                (treasure[n]@, Tone::Green, true),
            ],
        ]
    } else {
        Seq::empty()
    })
}

/// The lower half's title: the password prompt while typing, else the
/// spoiler when shown, else the hints.
pub open spec fn lower_title(theme: Theme, s: SessionView) -> Seq<char> {
    if s.input_mode {
        label_or(theme, "panel_creds"@, "password"@)
    } else if s.show_solution {
        label_or(theme, "panel_exploit"@, "solution"@)
    } else {
        label_or(theme, "panel_leaks"@, "hints"@)
    }
}

/// The lower half of the detail panel: the password prompt with a cursor
/// blinking on even ticks while typing; else the intended solution when it
/// is shown; else the hints header, the revealed hints (the first
/// `hints_used`), and a note when none is revealed yet.
pub open spec fn lower_rows(
    theme: Theme,
    n: u32,
    solution: Seq<char>,
    hints: Seq<Seq<char>>,
    hints_used: Map<u32, usize>,
    s: SessionView,
) -> Seq<Seq<(Seq<char>, Tone, bool)>> {
    if s.input_mode {
        seq![
            seq![(label_or(theme, "creds_prompt_hint"@, "enter the password you recovered:"@), Tone::Dim, false)],
            Seq::empty(),
            seq![
                (label_or(theme, "creds_prompt"@, "> "@), Tone::Red, false),
                (s.input, Tone::Fg, false),
                (if s.tick % 2 == 0 { "_"@ } else { " "@ }, Tone::Accent, false),
            ],
        ]
    } else if s.show_solution {
        seq![
            seq![(label_or(theme, "exploit_header"@, "SPOILER - intended solution:"@), Tone::Red, true)],
            Seq::empty(),
        ] + plain_rows(text_lines(trimmed(solution)), Tone::Fg)
    } else {
        let used = hints_of(hints_used, n);
        let shown: nat = if used < hints.len() { used as nat } else { hints.len() };
        seq![seq![(hints_header_text(theme, used as nat, hints.len()), Tone::Dim, false)], Seq::empty()]
            + hint_rows(hints, shown) + (if used == 0 {
            seq![seq![(label_or(theme, "leaks_empty"@, "(no hints revealed yet)"@), Tone::Dim, false)]]
        } else {
            Seq::empty()
        })
    }
}

/// The detail panel for a level: brief title, brief rows, lower title and
/// lower rows.
pub open spec fn detail_spec(
    theme: Theme,
    n: u32,
    title: Seq<char>,
    goal: Seq<char>,
    commands: Seq<Seq<char>>,
    solution: Seq<char>,
    hints: Seq<Seq<char>>,
    treasure: Map<u32, String>,
    hints_used: Map<u32, usize>,
    s: SessionView,
) -> (Seq<char>, Seq<Seq<(Seq<char>, Tone, bool)>>, Seq<char>, Seq<Seq<(Seq<char>, Tone, bool)>>) {
    (
        label_or(theme, "panel_job"@, "brief"@),
        brief_rows(theme, n, title, goal, commands, treasure, s.tick),
        lower_title(theme, s),
        lower_rows(theme, n, solution, hints, hints_used, s),
    )
}

/// With the spoiler shown (and no password being typed), the lower half is
/// the spoiler header, an empty row, then every line of the trimmed
/// solution, one row each, in order.
pub proof fn lemma_spoiler_shows_every_line(
    theme: Theme,
    n: u32,
    solution: Seq<char>,
    hints: Seq<Seq<char>>,
    hints_used: Map<u32, usize>,
    s: SessionView,
)
    requires
        !s.input_mode,
        s.show_solution,
    ensures
        lower_rows(theme, n, solution, hints, hints_used, s).len() == 2 + text_lines(
            trimmed(solution),
        ).len(),
        lower_rows(theme, n, solution, hints, hints_used, s)[0] == seq![
            (label_or(theme, "exploit_header"@, "SPOILER - intended solution:"@), Tone::Red, true),
        ],
        lower_rows(theme, n, solution, hints, hints_used, s)[1] == Seq::<(Seq<char>, Tone, bool)>::empty(),
        forall|i: int|
            0 <= i < text_lines(trimmed(solution)).len() ==> #[trigger] lower_rows(
                theme,
                n,
                solution,
                hints,
                hints_used,
                s,
            )[i + 2] == seq![(text_lines(trimmed(solution))[i], Tone::Fg, false)],
        lower_title(theme, s) == label_or(theme, "panel_exploit"@, "solution"@),
{
}

proof fn lemma_hint_rows_shape(hints: Seq<Seq<char>>, k: nat)
    requires
        k <= hints.len(),
    ensures
        hint_rows(hints, k).len() == 2 * k,
        forall|i: int|
            0 <= i < k ==> #[trigger] hint_rows(hints, k)[2 * i] == seq![
                (decimal((i + 1) as nat) + ". "@, Tone::Accent, false),
                (hints[i], Tone::Fg, false),
            ] && hint_rows(hints, k)[2 * i + 1] == Seq::<(Seq<char>, Tone, bool)>::empty(),
    decreases k,
{
    if k > 0 {
        lemma_hint_rows_shape(hints, (k - 1) as nat);
        let prev = hint_rows(hints, (k - 1) as nat);
        assert forall|i: int| 0 <= i < k implies #[trigger] hint_rows(hints, k)[2 * i] == seq![
            (decimal((i + 1) as nat) + ". "@, Tone::Accent, false),
            (hints[i], Tone::Fg, false),
        ] && hint_rows(hints, k)[2 * i + 1] == Seq::<(Seq<char>, Tone, bool)>::empty() by {
            if i < k - 1 {
                assert(hint_rows(hints, k)[2 * i] == prev[2 * i]);
                assert(hint_rows(hints, k)[2 * i + 1] == prev[2 * i + 1]);
            }
        }
    }
}

/// The hint ladder (no password typed, no spoiler shown): the header, an
/// empty row, then each revealed hint numbered from 1 followed by an empty
/// row (as many as revealed, at most all of the level's hints), and a note
/// only when none is revealed.
pub proof fn lemma_hint_ladder(
    theme: Theme,
    n: u32,
    solution: Seq<char>,
    hints: Seq<Seq<char>>,
    hints_used: Map<u32, usize>,
    s: SessionView,
)
    requires
        !s.input_mode,
        !s.show_solution,
    ensures
        ({
            let used = hints_of(hints_used, n);
            let k: int = if used < hints.len() { used as int } else { hints.len() as int };
            let rows = lower_rows(theme, n, solution, hints, hints_used, s);
            &&& rows.len() == 2 + 2 * k + (if used == 0 { 1int } else { 0int })
            &&& rows[0] == seq![(hints_header_text(theme, used as nat, hints.len()), Tone::Dim, false)]
            &&& rows[1] == Seq::<(Seq<char>, Tone, bool)>::empty()
            &&& forall|i: int| 0 <= i < k ==> #[trigger] rows[2 + 2 * i] == seq![
                (decimal((i + 1) as nat) + ". "@, Tone::Accent, false),
                (hints[i], Tone::Fg, false),
            ] && rows[3 + 2 * i] == Seq::<(Seq<char>, Tone, bool)>::empty()
            &&& used == 0 ==> rows[rows.len() - 1] == seq![
                (label_or(theme, "leaks_empty"@, "(no hints revealed yet)"@), Tone::Dim, false),
            ]
        }),
        lower_title(theme, s) == label_or(theme, "panel_leaks"@, "hints"@),
{
    let used = hints_of(hints_used, n);
    let k: nat = if used < hints.len() { used as nat } else { hints.len() };
    lemma_hint_rows_shape(hints, k);
    let rows = lower_rows(theme, n, solution, hints, hints_used, s);
    let head = seq![seq![(hints_header_text(theme, used as nat, hints.len()), Tone::Dim, false)], Seq::<(Seq<char>, Tone, bool)>::empty()];
    assert forall|i: int| 0 <= i < k implies #[trigger] rows[2 + 2 * i] == seq![
        (decimal((i + 1) as nat) + ". "@, Tone::Accent, false),
        (hints[i], Tone::Fg, false),
    ] && rows[3 + 2 * i] == Seq::<(Seq<char>, Tone, bool)>::empty() by {
        assert(rows[2 + 2 * i] == hint_rows(hints, k)[2 * i]);
        assert(rows[3 + 2 * i] == hint_rows(hints, k)[2 * i + 1]);
    }
}

fn piece(text: String, tone: Tone, bold: bool) -> (p: Piece)
    ensures
        p.text == text,
        p.tone == tone,
        p.bold == bold,
{
    Piece { text, tone, bold }
}

fn push_row(rows: &mut Vec<Vec<Piece>>, row: Vec<Piece>)
    ensures
        rows_view(final(rows)@) == rows_view(old(rows)@).push(row_view(row@)),
{
    let ghost before = rows@;
    rows.push(row);
    assert(rows_view(rows@) =~= rows_view(before).push(row_view(row@)));
}

fn one(text: String, tone: Tone, bold: bool) -> (row: Vec<Piece>)
    ensures
        row_view(row@) == seq![(text@, tone, bold)],
{
    let mut row: Vec<Piece> = Vec::new();
    row.push(piece(text, tone, bold));
    assert(row_view(row@) =~= seq![(text@, tone, bold)]);
    row
}

fn two(a: String, ta: Tone, ba: bool, b: String, tb: Tone, bb: bool) -> (row: Vec<Piece>)
    ensures
        row_view(row@) == seq![(a@, ta, ba), (b@, tb, bb)],
{
    let mut row: Vec<Piece> = Vec::new();
    row.push(piece(a, ta, ba));
    row.push(piece(b, tb, bb));
    assert(row_view(row@) =~= seq![(a@, ta, ba), (b@, tb, bb)]);
    row
}

fn push_empty(rows: &mut Vec<Vec<Piece>>)
    ensures
        rows_view(final(rows)@) == rows_view(old(rows)@).push(Seq::empty()),
{
    let row: Vec<Piece> = Vec::new();
    assert(row_view(row@) =~= Seq::<(Seq<char>, Tone, bool)>::empty());
    push_row(rows, row);
}

/// The lines of `s`, as `s.lines()` gives them.
pub fn lines(s: &str) -> (r: Vec<String>)
    ensures
        r.deep_view() == text_lines(s@),
{
    let cs = chars_of(s);
    let n = cs.len();
    let mut out: Vec<String> = Vec::new();
    let mut cur: Vec<char> = Vec::new();
    assert(cs@.skip(0) =~= cs@);
    for i in 0..n
        invariant
            cs@ == s@,
            n == cs.len(),
            out.deep_view() + lines_from(cs@.skip(i as int), cur@) == text_lines(s@),
    {
        let ghost rest = cs@.skip(i as int);
        assert(rest.drop_first() =~= cs@.skip(i + 1));
        let c = cs[i];
        let ghost cur0 = cur@;
        if c == '\n' {
            let ghost before = out.deep_view();
            if cur.len() > 0 && cur[cur.len() - 1] == '\r' {
                cur.pop();
            }
            assert(cur@ =~= strip_cr(cur0));
            out.push(string_of(&cur));
            cur = Vec::new();
            assert(out.deep_view() =~= before.push(strip_cr(cur0)));
            assert(out.deep_view() + lines_from(cs@.skip(i + 1), cur@) =~= before + (seq![
                strip_cr(cur0),
            ] + lines_from(rest.drop_first(), Seq::empty())));
        } else {
            cur.push(c);
            assert(cur@ == cur0.push(rest[0]));
        }
    }
    assert(cs@.skip(n as int) =~= Seq::<char>::empty());
    if cur.len() > 0 {
        let ghost before = out.deep_view();
        out.push(string_of(&cur));
        assert(out.deep_view() =~= before + seq![cur@]);
    } else {
        assert(out.deep_view() + Seq::<Seq<char>>::empty() =~= out.deep_view());
    }
    out
}


/// The header line: the (possibly glitched) brand, the campaign, how many
/// of the levels after the intro are cleared, how much treasure is held,
/// and whether the box is up.
pub open spec fn header_spec(
    theme: Theme,
    campaign: Seq<char>,
    level_count: nat,
    solved: nat,
    treasure: nat,
    tick: u64,
    world_running: bool,
) -> Seq<(Seq<char>, Tone, bool)> {
    let brand = label_or(theme, "brand"@, "wargamezr"@);
    let shown = if burst_on(theme.glitch, tick) {
        glitched(brand, tick, theme.glitch.prob)
    } else {
        brand
    };
    let total: nat = if level_count > 0 { (level_count - 1) as nat } else { 0 };
    seq![
        ("  "@ + shown + " "@, Tone::Red, true),
        ("// "@ + campaign + " "@, Tone::Fg, false),
        ("| "@ + decimal(solved) + "/"@ + decimal(total) + " "@ + label_or(theme, "word_owned"@, "cleared"@)
            + " "@, Tone::Green, false),
        ("| "@ + decimal(treasure) + " "@ + label_or(theme, "word_creds"@, "treasure"@) + " "@, Tone::Gold, false),
        ("| box "@, Tone::Dim, false),
        (if world_running {
            label_or(theme, "box_live"@, "up"@)
        } else {
            label_or(theme, "box_dead"@, "down"@)
        }, if world_running {
            Tone::Green
        } else {
            Tone::Red
        }, false),
    ]
}

/// The pieces of the header line.
pub fn header_pieces(theme: &Theme, campaign: &Campaign, save: &Save, s: &Session, world_running: bool) -> (r: Vec<Piece>)
    ensures
        row_view(r@) == header_spec(
            *theme,
            campaign.campaign@,
            campaign.levels@.len(),
            save.solved@.len(),
            save.treasure@.len(),
            s.tick,
            world_running,
        ),
{
    broadcast use vstd::std_specs::btree::group_btree_axioms;

    let mut r: Vec<Piece> = Vec::new();
    let brand = theme.lbl("brand", "wargamezr");
    let shown = maybe_glitch(&theme.glitch, s.tick, brand.as_str());
    let mut a = "  ".to_owned();
    a.append(shown.as_str());
    a.append(" ");
    r.push(piece(a, Tone::Red, true));
    let mut b = "// ".to_owned();
    b.append(campaign.campaign.as_str());
    b.append(" ");
    r.push(piece(b, Tone::Fg, false));
    let count = campaign.levels.len();
    let total = if count > 0 {
        count - 1
    } else {
        0
    };
    let mut c = "| ".to_owned();
    push_decimal(&mut c, save.solved.len() as u64);
    c.append("/");
    push_decimal(&mut c, total as u64);
    c.append(" ");
    let owned = theme.lbl("word_owned", "cleared");
    c.append(owned.as_str());
    c.append(" ");
    r.push(piece(c, Tone::Green, false));
    let mut d = "| ".to_owned();
    push_decimal(&mut d, save.treasure.len() as u64);
    d.append(" ");
    let creds = theme.lbl("word_creds", "treasure");
    d.append(creds.as_str());
    d.append(" ");
    r.push(piece(d, Tone::Gold, false));
    r.push(piece("| box ".to_owned(), Tone::Dim, false));
    if world_running {
        r.push(piece(theme.lbl("box_live", "up"), Tone::Green, false));
    } else {
        r.push(piece(theme.lbl("box_dead", "down"), Tone::Red, false));
    }
    assert(row_view(r@) =~= header_spec(
        *theme,
        campaign.campaign@,
        campaign.levels@.len(),
        save.solved@.len(),
        save.treasure@.len(),
        s.tick,
        world_running,
    ));
    r
}

/// The marker of level `n` in the level list and its tone, and the tone of
/// its label: cleared levels are ticked in green, locked ones dashed and
/// dimmed, open ones pointed at in the accent colour.
pub open spec fn row_marks(solved: Seq<u32>, n: u32) -> (Seq<char>, Tone, Tone) {
    let label_tone = if unlocked(solved, n) {
        Tone::Fg
    } else {
        Tone::Dim
    };
    if solved.contains(n) {
        ("[x]"@, Tone::Green, label_tone)
    } else if !unlocked(solved, n) {
        ("[-]"@, Tone::Dim, label_tone)
    } else {
        ("[>]"@, Tone::Accent, label_tone)
    }
}

/// The marker, its tone and the label's tone for level `n` in the list.
pub fn level_marks(save: &Save, n: u32) -> (r: (String, Tone, Tone))
    ensures
        (r.0@, r.1, r.2) == row_marks(save.solved@, n),
{
    let open = save.is_unlocked(n);
    let label_tone = if open {
        Tone::Fg
    } else {
        Tone::Dim
    };
    if save.is_solved(n) {
        ("[x]".to_owned(), Tone::Green, label_tone)
    } else if !open {
        ("[-]".to_owned(), Tone::Dim, label_tone)
    } else {
        ("[>]".to_owned(), Tone::Accent, label_tone)
    }
}

/// `parts` joined with `sep` between them (what `parts.join(sep)` gives).
pub fn join(parts: &Vec<String>, sep: &str) -> (r: String)
    ensures
        r@ == joined(parts.deep_view(), sep@),
{
    let ghost d = parts.deep_view();
    let mut out = String::new();
    assert(d.take(0) =~= Seq::<Seq<char>>::empty());
    for i in 0..parts.len()
        invariant
            d == parts.deep_view(),
            out@ == joined(d.take(i as int), sep@),
    {
        assert(d.take(i + 1).drop_last() =~= d.take(i as int));
        assert(d.take(i + 1).last() == parts@[i as int]@);
        if i > 0 {
            out.append(sep);
        } else {
            assert(out@ =~= Seq::<char>::empty());
        }
        out.append(parts[i].as_str());
        assert(i == 0 ==> out@ =~= d.take(i + 1)[0]);
    }
    assert(d.take(parts.len() as int) =~= d);
    out
}

fn append_rows(rows: &mut Vec<Vec<Piece>>, more: Vec<Vec<Piece>>)
    ensures
        rows_view(final(rows)@) == rows_view(old(rows)@) + rows_view(more@),
{
    let ghost before = rows@;
    let mut more = more;
    let ghost m = more@;
    rows.append(&mut more);
    assert(rows_view(rows@) =~= rows_view(before) + rows_view(m));
}

fn plain(lines: &Vec<String>, tone: Tone) -> (r: Vec<Vec<Piece>>)
    ensures
        rows_view(r@) == plain_rows(lines.deep_view(), tone),
{
    let ghost d = lines.deep_view();
    let mut out: Vec<Vec<Piece>> = Vec::new();
    for i in 0..lines.len()
        invariant
            d == lines.deep_view(),
            rows_view(out@) == plain_rows(d.take(i as int), tone),
    {
        let row = one(lines[i].clone(), tone, false);
        push_row(&mut out, row);
        assert(plain_rows(d.take(i + 1), tone) =~= plain_rows(d.take(i as int), tone).push(
            seq![(d[i as int], tone, false)],
        ));
    }
    assert(d.take(lines.len() as int) =~= d);
    out
}

fn hint_list(hints: &Vec<String>, k: usize) -> (r: Vec<Vec<Piece>>)
    requires
        k <= hints.len(),
    ensures
        rows_view(r@) == hint_rows(hints.deep_view(), k as nat),
{
    let ghost d = hints.deep_view();
    let mut out: Vec<Vec<Piece>> = Vec::new();
    for i in 0..k
        invariant
            k <= hints.len(),
            d == hints.deep_view(),
            rows_view(out@) == hint_rows(d, i as nat),
    {
        let mut num = String::new();
        push_decimal(&mut num, (i + 1) as u64);
        num.append(". ");
        let row = two(num, Tone::Accent, false, hints[i].clone(), Tone::Fg, false);
        push_row(&mut out, row);
        push_empty(&mut out);
        assert(hint_rows(d, (i + 1) as nat) =~= hint_rows(d, i as nat).push(
            seq![(decimal((i + 1) as nat) + ". "@, Tone::Accent, false), (d[i as int], Tone::Fg, false)],
        ).push(Seq::empty()));
    }
    out
}

/// What the detail panel shows for `level`: the brief (title, goal,
/// useful commands, treasure) and, below it, the password prompt, the
/// spoiler or the hint ladder.
pub fn detail_panel(theme: &Theme, level: &Level, save: &Save, s: &Session) -> (r: (
    String,
    Vec<Vec<Piece>>,
    String,
    Vec<Vec<Piece>>,
))
    ensures
        (r.0@, rows_view(r.1@), r.2@, rows_view(r.3@)) == detail_spec(
            *theme,
            level.n,
            level.title@,
            level.goal@,
            level.commands.deep_view(),
            level.solution@,
            level.hints.deep_view(),
            save.treasure@,
            save.hints_used@,
            s@,
        ),
{
    let n = level.n;
    // --- the brief ---
    let mut brief: Vec<Vec<Piece>> = Vec::new();
    let shown = maybe_glitch(&theme.glitch, s.tick, level.title.as_str());
    push_row(&mut brief, one(shown, Tone::Gold, true));
    push_empty(&mut brief);
    let goal = trim(level.goal.as_str());
    let goal_lines = lines(goal.as_str());
    append_rows(&mut brief, plain(&goal_lines, Tone::Fg));
    let ghost mid = rows_view(brief@);
    if level.commands.len() > 0 {
        push_empty(&mut brief);
        let mut label = theme.lbl("tools_label", "useful:");
        label.append(" ");
        let cmds = join(&level.commands, "  ");
        push_row(&mut brief, two(label, Tone::Dim, false, cmds, Tone::Accent, false));
    }
    let ghost mid2 = rows_view(brief@);
    match save.treasure.get(&n) {
        Some(pw) => {
            push_empty(&mut brief);
            let mut label = theme.lbl("creds_label", "treasure:");
            label.append(" ");
            push_row(&mut brief, two(label, Tone::Green, false, pw.clone(), Tone::Green, true));
        },
        None => {},
    }
    assert(rows_view(brief@) =~= brief_rows(
        *theme,
        n,
        level.title@,
        level.goal@,
        level.commands.deep_view(),
        save.treasure@,
        s.tick,
    ));
    // --- the lower half ---
    let mut lower: Vec<Vec<Piece>> = Vec::new();
    let title;
    if s.input_mode {
        push_row(
            &mut lower,
            one(theme.lbl("creds_prompt_hint", "enter the password you recovered:"), Tone::Dim, false),
        );
        push_empty(&mut lower);
        let mut row: Vec<Piece> = Vec::new();
        row.push(piece(theme.lbl("creds_prompt", "> "), Tone::Red, false));
        row.push(piece(s.input.clone(), Tone::Fg, false));
        let cursor = if s.tick % 2 == 0 {
            "_".to_owned()
        } else {
            " ".to_owned()
        };
        row.push(piece(cursor, Tone::Accent, false));
        assert(row_view(row@) =~= seq![
            (label_or(*theme, "creds_prompt"@, "> "@), Tone::Red, false),
            (s@.input, Tone::Fg, false),
            (if s@.tick % 2 == 0 { "_"@ } else { " "@ }, Tone::Accent, false),
        ]);
        push_row(&mut lower, row);
        title = theme.lbl("panel_creds", "password");
        assert(rows_view(lower@) =~= lower_rows(
            *theme,
            n,
            level.solution@,
            level.hints.deep_view(),
            save.hints_used@,
            s@,
        ));
    } else if s.show_solution {
        push_row(
            &mut lower,
            one(theme.lbl("exploit_header", "SPOILER - intended solution:"), Tone::Red, true),
        );
        push_empty(&mut lower);
        let sol = trim(level.solution.as_str());
        let sol_lines = lines(sol.as_str());
        append_rows(&mut lower, plain(&sol_lines, Tone::Fg));
        title = theme.lbl("panel_exploit", "solution");
        assert(rows_view(lower@) =~= lower_rows(
            *theme,
            n,
            level.solution@,
            level.hints.deep_view(),
            save.hints_used@,
            s@,
        ));
    } else {
        let used = save.hints_used(n);
        let total = level.hints.len();
        push_row(&mut lower, one(hints_header(theme, used, total), Tone::Dim, false));
        push_empty(&mut lower);
        let shown_hints = if used < total {
            used
        } else {
            total
        };
        append_rows(&mut lower, hint_list(&level.hints, shown_hints));
        if used == 0 {
            push_row(&mut lower, one(theme.lbl("leaks_empty", "(no hints revealed yet)"), Tone::Dim, false));
        }
        title = theme.lbl("panel_leaks", "hints");
        assert(used == hints_of(save.hints_used@, n));
        assert(rows_view(lower@) =~= lower_rows(
            *theme,
            n,
            level.solution@,
            level.hints.deep_view(),
            save.hints_used@,
            s@,
        ));
    }
    assert(rows_view(lower@) =~= lower_rows(
        *theme,
        n,
        level.solution@,
        level.hints.deep_view(),
        save.hints_used@,
        s@,
    ));
    (theme.lbl("panel_job", "brief"), brief, title, lower)
}


// ---- the boot splash ------------------------------------------------------

/// A script as plain values: text to print, then milliseconds to pause.
pub open spec fn script_view(v: Seq<(String, u64)>) -> Seq<(Seq<char>, u64)> {
    v.map_values(|e: (String, u64)| (e.0@, e.1))
}

/// The text `s` typed out one character at a time, `ms` after each.
pub open spec fn typed(s: Seq<char>, ms: u64) -> Seq<(Seq<char>, u64)> {
    s.map_values(|c: char| (seq![c], ms))
}

/// The escape that resets the terminal's colours.
pub open spec fn reset() -> Seq<char> {
    "\x1b[0m"@
}

/// Eight dots drawn 70 ms apart.
pub open spec fn dots() -> Seq<(Seq<char>, u64)> {
    Seq::new(8, |i: int| ("."@, 70u64))
}

/// One step row: the step's name, eight dots drawn slowly, then a green ok.
pub open spec fn step_block(step: Seq<char>, dim: Rgb, green: Rgb) -> Seq<(Seq<char>, u64)> {
    seq![(ansi_fg_text(dim) + " > "@ + step, 0u64)] + dots() + seq![
        (" "@ + ansi_fg_text(green) + "ok"@ + reset() + "\n"@, 120u64),
    ]
}

/// The step rows of all `steps`, in order.
pub open spec fn steps_script(steps: Seq<Seq<char>>, dim: Rgb, green: Rgb) -> Seq<(Seq<char>, u64)>
    decreases steps.len(),
{
    if steps.len() == 0 {
        Seq::empty()
    } else {
        steps_script(steps.drop_last(), dim, green) + step_block(steps.last(), dim, green)
    }
}

/// The hello, typed out, then a pause.
pub open spec fn hello_part(hello: Seq<char>, amber: Rgb) -> Seq<(Seq<char>, u64)> {
    if hello.len() > 0 {
        typed(ansi_fg_text(amber) + hello + reset() + "\n"@, 55) + seq![(Seq::<char>::empty(), 500u64)]
    } else {
        Seq::empty()
    }
}

/// The mask, one red line at a time.
pub open spec fn mask_part(mask: Seq<char>, red: Rgb) -> Seq<(Seq<char>, u64)> {
    text_lines(mask).map_values(|l: Seq<char>| (ansi_fg_text(red) + l + reset() + "\n"@, 35u64))
}

/// The word mark after an empty line, bold in amber.
pub open spec fn wordmark_part(wordmark: Seq<char>, amber: Rgb) -> Seq<(Seq<char>, u64)> {
    if wordmark.len() > 0 {
        seq![("\n"@, 0u64), (ansi_fg_text(amber) + "\x1b[1m"@ + wordmark + reset() + "\n"@, 0u64)]
    } else {
        Seq::empty()
    }
}

/// The tag line, dimmed.
pub open spec fn tagline_part(tagline: Seq<char>, dim: Rgb) -> Seq<(Seq<char>, u64)> {
    if tagline.len() > 0 {
        seq![(ansi_fg_text(dim) + tagline + reset() + "\n"@, 0u64)]
    } else {
        Seq::empty()
    }
}

/// The final line after an empty line, typed out in red, then a pause.
pub open spec fn final_part(final_line: Seq<char>, red: Rgb) -> Seq<(Seq<char>, u64)> {
    if final_line.len() > 0 {
        seq![("\n"@, 0u64)] + typed(ansi_fg_text(red) + final_line + reset() + "\n"@, 55) + seq![
            (Seq::<char>::empty(), 700u64),
        ]
    } else {
        Seq::empty()
    }
}

/// The boot splash as a script: nothing unless the theme enables it;
/// otherwise clear the screen and hide the cursor, type out the hello,
/// draw the mask line by line, the word mark and the tag line, the steps
/// with their dots, type out the final line, and show the cursor again.
pub open spec fn splash_spec(
    enabled: bool,
    hello: Seq<char>,
    mask: Seq<char>,
    wordmark: Seq<char>,
    tagline: Seq<char>,
    steps: Seq<Seq<char>>,
    final_line: Seq<char>,
    amber: Rgb,
    red: Rgb,
    green: Rgb,
    dim: Rgb,
) -> Seq<(Seq<char>, u64)> {
    if !enabled {
        Seq::empty()
    } else {
        seq![("\x1b[2J\x1b[H\x1b[?25l"@, 0u64)] + hello_part(hello, amber) + mask_part(mask, red)
            + wordmark_part(wordmark, amber) + tagline_part(tagline, dim) + seq![("\n"@, 0u64)]
            + steps_script(steps, dim, green) + final_part(final_line, red) + seq![("\x1b[?25h"@, 0u64)]
    }
}

fn push_entry(v: &mut Vec<(String, u64)>, text: String, ms: u64)
    ensures
        script_view(final(v)@) == script_view(old(v)@).push((text@, ms)),
{
    let ghost before = v@;
    v.push((text, ms));
    assert(script_view(v@) =~= script_view(before).push((text@, ms)));
}

fn type_out(v: &mut Vec<(String, u64)>, text: &str, ms: u64)
    ensures
        script_view(final(v)@) == script_view(old(v)@) + typed(text@, ms),
{
    let ghost before = script_view(v@);
    let cs = chars_of(text);
    for i in 0..cs.len()
        invariant
            cs@ == text@,
            script_view(v@) == before + typed(text@, ms).take(i as int),
    {
        let mut one = String::new();
        push_char(&mut one, cs[i]);
        push_entry(v, one, ms);
        assert(typed(text@, ms).take(i + 1) =~= typed(text@, ms).take(i as int).push(
            (seq![cs@[i as int]], ms),
        ));
    }
    assert(typed(text@, ms).take(cs.len() as int) =~= typed(text@, ms));
}

fn colored(c: Rgb, body: &str, tail: &str) -> (r: String)
    ensures
        r@ == ansi_fg_text(c) + body@ + reset() + tail@,
{
    let mut s = ansi_fg(c);
    s.append(body);
    s.append("\x1b[0m");
    s.append(tail);
    s
}

fn push_hello(v: &mut Vec<(String, u64)>, hello: &String, amber: Rgb)
    ensures
        script_view(final(v)@) == script_view(old(v)@) + hello_part(hello@, amber),
{
    let ghost p0 = script_view(v@);
    if !hello.as_str().is_empty() {
        let text = colored(amber, hello.as_str(), "\n");
        type_out(v, text.as_str(), 55);
        push_entry(v, String::new(), 500);
        assert(script_view(v@) =~= p0 + hello_part(hello@, amber));
    } else {
        assert(script_view(v@) =~= p0 + hello_part(hello@, amber));
    }
}

fn push_mask(v: &mut Vec<(String, u64)>, mask: &String, red: Rgb)
    ensures
        script_view(final(v)@) == script_view(old(v)@) + mask_part(mask@, red),
{
    let ghost p1 = script_view(v@);
    let ls = lines(mask.as_str());
    let ghost md = ls.deep_view();
    assert(md.take(0).map_values(
        |l: Seq<char>| (ansi_fg_text(red) + l + reset() + "\n"@, 35u64),
    ) =~= Seq::<(Seq<char>, u64)>::empty());
    for i in 0..ls.len()
        invariant
            md == ls.deep_view(),
            script_view(v@) == p1 + md.take(i as int).map_values(
                |l: Seq<char>| (ansi_fg_text(red) + l + reset() + "\n"@, 35u64),
            ),
    {
        let line = colored(red, ls[i].as_str(), "\n");
        push_entry(v, line, 35);
        assert(md.take(i + 1).map_values(
            |l: Seq<char>| (ansi_fg_text(red) + l + reset() + "\n"@, 35u64),
        ) =~= md.take(i as int).map_values(
            |l: Seq<char>| (ansi_fg_text(red) + l + reset() + "\n"@, 35u64),
        ).push((ansi_fg_text(red) + md[i as int] + reset() + "\n"@, 35u64)));
    }
    assert(md.take(ls.len() as int) =~= md);
}

fn push_wordmark(v: &mut Vec<(String, u64)>, wordmark: &String, amber: Rgb)
    ensures
        script_view(final(v)@) == script_view(old(v)@) + wordmark_part(wordmark@, amber),
{
    let ghost p = script_view(v@);
    if !wordmark.as_str().is_empty() {
        push_entry(v, "\n".to_owned(), 0);
        let mut body = "\x1b[1m".to_owned();
        body.append(wordmark.as_str());
        let text = colored(amber, body.as_str(), "\n");
        assert(text@ =~= ansi_fg_text(amber) + "\x1b[1m"@ + wordmark@ + reset() + "\n"@);
        push_entry(v, text, 0);
    }
    assert(script_view(v@) =~= p + wordmark_part(wordmark@, amber));
}

fn push_tagline(v: &mut Vec<(String, u64)>, tagline: &String, dim: Rgb)
    ensures
        script_view(final(v)@) == script_view(old(v)@) + tagline_part(tagline@, dim),
{
    let ghost p = script_view(v@);
    if !tagline.as_str().is_empty() {
        push_entry(v, colored(dim, tagline.as_str(), "\n"), 0);
    }
    assert(script_view(v@) =~= p + tagline_part(tagline@, dim));
}

fn push_step(v: &mut Vec<(String, u64)>, step: &String, dim: Rgb, green: Rgb)
    ensures
        script_view(final(v)@) == script_view(old(v)@) + step_block(step@, dim, green),
{
    let ghost q0 = script_view(v@);
    let mut head = ansi_fg(dim);
    head.append(" > ");
    head.append(step.as_str());
    push_entry(v, head, 0);
    let ghost q1 = script_view(v@);
    assert(dots().take(0) =~= Seq::<(Seq<char>, u64)>::empty());
    for j in 0..8u64
        invariant
            script_view(v@) == q1 + dots().take(j as int),
    {
        push_entry(v, ".".to_owned(), 70);
        assert(dots().take(j + 1) =~= dots().take(j as int).push(("."@, 70u64)));
    }
    assert(dots().take(8) =~= dots());
    let ghost q2 = script_view(v@);
    let mut tail = " ".to_owned();
    let ok = colored(green, "ok", "\n");
    tail.append(ok.as_str());
    assert(tail@ =~= " "@ + ansi_fg_text(green) + "ok"@ + reset() + "\n"@);
    push_entry(v, tail, 120);
    assert(script_view(v@) =~= q0 + step_block(step@, dim, green));
}

fn push_steps(v: &mut Vec<(String, u64)>, steps: &Vec<String>, dim: Rgb, green: Rgb)
    ensures
        script_view(final(v)@) == script_view(old(v)@) + steps_script(steps.deep_view(), dim, green),
{
    let ghost p4 = script_view(v@);
    let ghost sd = steps.deep_view();
    assert(sd.take(0) =~= Seq::<Seq<char>>::empty());
    assert(p4 + steps_script(sd.take(0), dim, green) =~= p4);
    for i in 0..steps.len()
        invariant
            sd == steps.deep_view(),
            script_view(v@) == p4 + steps_script(sd.take(i as int), dim, green),
    {
        assert(sd[i as int] == steps@[i as int]@);
        push_step(v, &steps[i], dim, green);
        assert(sd.take(i + 1).drop_last() =~= sd.take(i as int));
        assert(sd.take(i + 1).last() == sd[i as int]);
        assert(script_view(v@) =~= p4 + steps_script(sd.take(i + 1), dim, green));
    }
    assert(sd.take(steps.len() as int) =~= sd);
}

fn push_final(v: &mut Vec<(String, u64)>, final_line: &String, red: Rgb)
    ensures
        script_view(final(v)@) == script_view(old(v)@) + final_part(final_line@, red),
{
    let ghost p = script_view(v@);
    if !final_line.as_str().is_empty() {
        push_entry(v, "\n".to_owned(), 0);
        let text = colored(red, final_line.as_str(), "\n");
        type_out(v, text.as_str(), 55);
        push_entry(v, String::new(), 700);
    }
    assert(script_view(v@) =~= p + final_part(final_line@, red));
}

/// What the boot splash prints and how long it pauses after each part, in
/// the theme's accent, red, green and dimmed colours.
pub fn splash_script(sp: &Splash, amber: Rgb, red: Rgb, green: Rgb, dim: Rgb) -> (r: Vec<(String, u64)>)
    ensures
        script_view(r@) == splash_spec(
            sp.enabled,
            sp.hello@,
            sp.mask@,
            sp.wordmark@,
            sp.tagline@,
            sp.steps.deep_view(),
            sp.final_line@,
            amber,
            red,
            green,
            dim,
        ),
{
    let mut v: Vec<(String, u64)> = Vec::new();
    if !sp.enabled {
        assert(script_view(v@) =~= Seq::<(Seq<char>, u64)>::empty());
        return v;
    }
    push_entry(&mut v, "\x1b[2J\x1b[H\x1b[?25l".to_owned(), 0);
    push_hello(&mut v, &sp.hello, amber);
    push_mask(&mut v, &sp.mask, red);
    push_wordmark(&mut v, &sp.wordmark, amber);
    push_tagline(&mut v, &sp.tagline, dim);
    push_entry(&mut v, "\n".to_owned(), 0);
    push_steps(&mut v, &sp.steps, dim, green);
    push_final(&mut v, &sp.final_line, red);
    push_entry(&mut v, "\x1b[?25h".to_owned(), 0);
    v
}

/// Where the campaign is: the first candidate folder found to hold the
/// campaign's levels file, if any.
pub fn first_campaign_dir(candidates: &Vec<String>, has_levels: &Vec<bool>) -> (r: Option<String>)
    requires
        candidates.len() == has_levels.len(),
    ensures
        r is None <==> forall|i: int| 0 <= i < has_levels.len() ==> !has_levels@[i],
        r matches Some(dir) ==> exists|i: int|
            0 <= i < has_levels.len() && has_levels@[i] && dir@ == candidates@[i]@ && forall|j: int|
                0 <= j < i ==> !has_levels@[j],
{
    for i in 0..candidates.len()
        invariant
            candidates.len() == has_levels.len(),
            forall|j: int| 0 <= j < i ==> !has_levels@[j],
    {
        if has_levels[i] {
            return Some(candidates[i].clone());
        }
    }
    None
}

} // verus!
