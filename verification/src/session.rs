//! The front-end's interactive state and how key presses and world answers
//! change it: the selected level, password entry, the solution toggle and
//! the status line.
use vstd::prelude::*;
use crate::config::Theme;
use crate::save::{marked, unlocked, Save};
use crate::text::{chars_of, push_char, replaced, string_of, trim, trimmed};
use crate::ui::{
    binding, enter_step, key_action, label_or, move_selection, moved, submit_step, verdict_status,
    verdict_text, who_label, Action, EnterStep, Key, SubmitStep,
};

verus! {

/// What a key press leaves for the front-end to do outside the session.
#[derive(Clone, Copy, Debug, PartialEq, Eq, Structural)]
pub enum Effect {
    /// Nothing more.
    Nothing,
    /// Leave the program.
    Quit,
    /// Check the typed password against the world.
    Submit,
    /// Open the selected level's shell.
    EnterLevel,
    /// Ask the world whether it is up.
    RefreshWorld,
    /// Reveal one more hint of the selected level.
    RevealHint,
}

/// The interactive state of the front-end.
pub struct Session {
    /// Index of the selected level in the campaign's level list.
    pub selected: usize,
    /// Whether a password is being typed.
    pub input_mode: bool,
    /// The password typed so far.
    pub input: String,
    pub show_solution: bool,
    pub status: String,
    /// Frames drawn so far (wrapping), which drives the glitch.
    pub tick: u64,
}

/// A session as plain values.
pub struct SessionView {
    pub selected: usize,
    pub input_mode: bool,
    pub input: Seq<char>,
    pub show_solution: bool,
    pub status: Seq<char>,
    pub tick: u64,
}

impl View for Session {
    type V = SessionView;

    open spec fn view(&self) -> SessionView {
        SessionView {
            selected: self.selected,
            input_mode: self.input_mode,
            input: self.input@,
            show_solution: self.show_solution,
            status: self.status@,
            tick: self.tick,
        }
    }
}

/// The session after the key press `key`, and what is left to do outside
/// it, in a campaign of `level_count` levels.
pub open spec fn after_key(s: SessionView, theme: Theme, level_count: usize, key: Key) -> (
    SessionView,
    Effect,
) {
    match binding(s.input_mode, key) {
        Action::Submit => (s, Effect::Submit),
        Action::CancelInput => (SessionView { input_mode: false, input: Seq::empty(), ..s }, Effect::Nothing),
        Action::DeleteChar => (
            SessionView {
                input: if s.input.len() > 0 {
                    s.input.drop_last()
                } else {
                    s.input
                },
                ..s
            },
            Effect::Nothing,
        ),
        Action::TypeChar(c) => (SessionView { input: s.input.push(c), ..s }, Effect::Nothing),
        Action::Quit => (s, Effect::Quit),
        Action::Move(d) => (
            SessionView { selected: moved(s.selected, d, level_count), show_solution: false, ..s },
            Effect::Nothing,
        ),
        Action::RevealHint => (s, Effect::RevealHint),
        Action::ToggleSolution => (SessionView { show_solution: !s.show_solution, ..s }, Effect::Nothing),
        Action::RefreshWorld => (s, Effect::RefreshWorld),
        Action::StartInput => (
            SessionView {
                input_mode: true,
                status: label_or(
                    theme,
                    "status_enter_creds"@,
                    "type the password, enter to submit, esc to cancel."@,
                ),
                ..s
            },
            Effect::Nothing,
        ),
        Action::EnterLevel => (s, Effect::EnterLevel),
        Action::Nothing => (s, Effect::Nothing),
    }
}

/// While a password is typed, typing a character and then deleting one
/// gives back the session as it was.
pub proof fn lemma_type_then_delete(s: SessionView, theme: Theme, level_count: usize, c: char)
    requires
        s.input_mode,
    ensures
        after_key(after_key(s, theme, level_count, Key::Char(c)).0, theme, level_count, Key::Backspace).0
            == s,
{
    let t = after_key(s, theme, level_count, Key::Char(c)).0;
    assert(t.input.drop_last() =~= s.input);
}

/// While a password is typed, a character key appends exactly that
/// character to the typed text and changes nothing else.
pub proof fn lemma_typing_appends(s: SessionView, theme: Theme, level_count: usize, c: char)
    requires
        s.input_mode,
    ensures
        after_key(s, theme, level_count, Key::Char(c)).0.input == s.input.push(c),
        after_key(s, theme, level_count, Key::Char(c)).0.input_mode,
        after_key(s, theme, level_count, Key::Char(c)).0.selected == s.selected,
        after_key(s, theme, level_count, Key::Char(c)).0.status == s.status,
        after_key(s, theme, level_count, Key::Char(c)).1 == Effect::Nothing,
{
}

/// Moving the selection always hides the spoiler, and lands inside the
/// list: one row up or down from where it was, clamped to the first and
/// last rows.
pub proof fn lemma_moving_hides_spoiler(s: SessionView, theme: Theme, level_count: usize, key: Key)
    requires
        binding(s.input_mode, key) is Move,
        0 < level_count <= isize::MAX,
        s.selected < level_count,
    ensures
        !after_key(s, theme, level_count, key).0.show_solution,
        after_key(s, theme, level_count, key).0.selected < level_count,
        key == Key::Up ==> after_key(s, theme, level_count, key).0.selected == (if s.selected
            == 0 {
            0
        } else {
            (s.selected - 1) as usize
        }),
        key == Key::Down ==> after_key(s, theme, level_count, key).0.selected == (if s.selected + 1
            == level_count {
            s.selected
        } else {
            (s.selected + 1) as usize
        }),
        after_key(s, theme, level_count, key).0.input == s.input,
        after_key(s, theme, level_count, key).1 == Effect::Nothing,
{
}

/// `s` without its last character, if it has one (`String::pop`).
pub fn pop_char(s: &mut String) -> (c: Option<char>)
    ensures
        old(s)@.len() == 0 ==> c is None && final(s)@ == old(s)@,
        old(s)@.len() > 0 ==> c == Some(old(s)@.last()) && final(s)@ == old(s)@.drop_last(),
{
    let v = chars_of(s.as_str());
    if v.len() == 0 {
        return None;
    }
    let last = v[v.len() - 1];
    let mut w: Vec<char> = Vec::new();
    for i in 0..v.len() - 1
        invariant
            v@ == old(s)@,
            v.len() > 0,
            w@ == v@.take(i as int),
    {
        w.push(v[i]);
        assert(v@.take(i + 1) == v@.take(i as int).push(v@[i as int]));
    }
    assert(w@ =~= v@.drop_last());
    *s = string_of(&w);
    Some(last)
}

impl Session {
    /// The state on start-up: the first level selected, nothing typed, and
    /// a status line that says whether the world is up.
    pub fn new(theme: &Theme, world_running: bool) -> (s: Session)
        ensures
            s@ == (SessionView {
                selected: 0,
                input_mode: false,
                input: Seq::empty(),
                show_solution: false,
                status: if world_running {
                    label_or(*theme, "status_up"@, "world is up. pick a level, press enter."@)
                } else {
                    label_or(*theme, "status_down"@, "world not running. `make world-up`, then r."@)
                },
                tick: 0,
            }),
    {
        let status = if world_running {
            theme.lbl("status_up", "world is up. pick a level, press enter.")
        } else {
            theme.lbl("status_down", "world not running. `make world-up`, then r.")
        };
        Session {
            selected: 0,
            input_mode: false,
            input: String::new(),
            show_solution: false,
            status,
            tick: 0,
        }
    }

    /// Advances the frame counter.
    pub fn next_tick(&mut self)
        ensures
            final(self)@ == (SessionView { tick: old(self).tick.wrapping_add(1), ..old(self)@ }),
    {
        self.tick = self.tick.wrapping_add(1);
    }

    /// Applies a key press in a campaign of `level_count` levels: moves the
    /// selection (hiding the solution), edits the typed password, toggles
    /// the solution or starts password entry, and hands back what is left
    /// to do outside the session.
    pub fn handle_key(&mut self, theme: &Theme, level_count: usize, key: Key) -> (e: Effect)
        requires
            level_count <= isize::MAX,
            binding(old(self).input_mode, key) matches Action::Move(d) ==> isize::MIN <= (
            old(self).selected as isize) + d <= isize::MAX,
        ensures
            (final(self)@, e) == after_key(old(self)@, *theme, level_count, key),
    {
        match key_action(self.input_mode, key) {
            Action::Submit => Effect::Submit,
            Action::CancelInput => {
                self.input = String::new();
                self.input_mode = false;
                Effect::Nothing
            },
            Action::DeleteChar => {
                let _ = pop_char(&mut self.input);
                Effect::Nothing
            },
            Action::TypeChar(c) => {
                push_char(&mut self.input, c);
                Effect::Nothing
            },
            Action::Quit => Effect::Quit,
            Action::Move(d) => {
                self.selected = move_selection(self.selected, d, level_count);
                self.show_solution = false;
                Effect::Nothing
            },
            Action::RevealHint => Effect::RevealHint,
            Action::ToggleSolution => {
                self.show_solution = !self.show_solution;
                Effect::Nothing
            },
            Action::RefreshWorld => Effect::RefreshWorld,
            Action::StartInput => {
                self.input_mode = true;
                self.status = theme.lbl(
                    "status_enter_creds",
                    "type the password, enter to submit, esc to cancel.",
                );
                Effect::Nothing
            },
            Action::EnterLevel => Effect::EnterLevel,
            Action::Nothing => Effect::Nothing,
        }
    }

    /// Sets the status line after asking the world whether it is up.
    pub fn world_checked(&mut self, theme: &Theme, world_running: bool)
        ensures
            final(self)@ == (SessionView {
                status: if world_running {
                    label_or(*theme, "status_up"@, "world is up."@)
                } else {
                    label_or(*theme, "status_down"@, "world not running. `make world-up`."@)
                },
                ..old(self)@
            }),
    {
        self.status = if world_running {
            theme.lbl("status_up", "world is up.")
        } else {
            theme.lbl("status_down", "world not running. `make world-up`.")
        };
    }

    /// Starts submitting the typed password for level `n`; tells whether the
    /// world must now be asked. Level 0 has no password (the typed text is
    /// dropped); a world that is down cannot check one (the typed text is
    /// kept). Either way password entry ends.
    pub fn begin_submit(&mut self, theme: &Theme, n: u32, world_running: bool) -> (check: bool)
        ensures
            check == (n != 0 && world_running),
            final(self)@ == (if n == 0 {
                SessionView {
                    input_mode: false,
                    input: Seq::empty(),
                    status: label_or(
                        *theme,
                        "status_level0"@,
                        "level 0 has no password - just log in (enter)."@,
                    ),
                    ..old(self)@
                }
            } else if !world_running {
                SessionView {
                    input_mode: false,
                    status: label_or(
                        *theme,
                        "status_no_verify"@,
                        "world not running - can't verify."@,
                    ),
                    ..old(self)@
                }
            } else {
                old(self)@
            }),
    {
        match submit_step(n, world_running) {
            SubmitStep::NoPassword => {
                self.status = theme.lbl(
                    "status_level0",
                    "level 0 has no password - just log in (enter).",
                );
                self.input = String::new();
                self.input_mode = false;
                false
            },
            SubmitStep::CannotVerify => {
                self.status = theme.lbl("status_no_verify", "world not running - can't verify.");
                self.input_mode = false;
                false
            },
            SubmitStep::Check => true,
        }
    }

    /// Finishes submitting the typed password for level `n` once the world
    /// answered: a match records the level as solved with the typed password
    /// (trimmed) as its treasure; the status line tells the outcome; the
    /// typed text is dropped and password entry ends.
    pub fn finish_submit(
        &mut self,
        save: &mut Save,
        theme: &Theme,
        prefix: &str,
        n: u32,
        outcome: &Result<bool, String>,
    )
        ensures
            outcome matches Ok(true) ==> marked(old(save).solved@, final(save).solved@, n)
                && final(save).treasure@.dom() == old(save).treasure@.dom().insert(n)
                && final(save).treasure@[n]@ == trimmed(old(self).input@)
                && (forall|m: u32| m != n && #[trigger] old(save).treasure@.contains_key(m)
                ==> final(save).treasure@[m] == old(save).treasure@[m]),
            !(outcome matches Ok(true)) ==> final(save).solved@ == old(save).solved@
                && final(save).treasure@ == old(save).treasure@,
            final(save).hints_used@ == old(save).hints_used@,
            final(self)@ == (SessionView {
                input_mode: false,
                input: Seq::empty(),
                status: verdict_text(
                    *theme,
                    prefix@,
                    n,
                    match outcome {
                        Ok(b) => Ok(*b),
                        Err(e) => Err(e@),
                    },
                ),
                ..old(self)@
            }),
    {
        if let Ok(true) = outcome {
            let password = trim(self.input.as_str());
            save.mark_solved(n, password);
        }
        self.status = verdict_status(theme, prefix, n, outcome);
        self.input = String::new();
        self.input_mode = false;
    }

    /// Starts opening level `n`; tells whether its shell can now be run. A
    /// locked level or a world that is down only sets the status line.
    pub fn begin_enter(&mut self, theme: &Theme, save: &Save, n: u32, world_running: bool) -> (go: bool)
        ensures
            go == (unlocked(save.solved@, n) && world_running),
            final(self)@ == (if !unlocked(save.solved@, n) {
                SessionView {
                    status: label_or(*theme, "status_locked"@, "locked. clear the previous one first."@),
                    ..old(self)@
                }
            } else if !world_running {
                SessionView {
                    status: label_or(
                        *theme,
                        "status_no_verify"@,
                        "world not running - run `make world-up`."@,
                    ),
                    ..old(self)@
                }
            } else {
                old(self)@
            }),
    {
        match enter_step(save, n, world_running) {
            EnterStep::Locked => {
                self.status = theme.lbl("status_locked", "locked. clear the previous one first.");
                false
            },
            EnterStep::WorldDown => {
                self.status = theme.lbl(
                    "status_no_verify",
                    "world not running - run `make world-up`.",
                );
                false
            },
            EnterStep::Enter => true,
        }
    }

    /// Sets the status line on coming back from a level's shell, naming who
    /// the player was logged in as.
    pub fn returned(&mut self, theme: &Theme, who: &str)
        ensures
            final(self)@ == (SessionView {
                status: replaced(
                    label_or(
                        *theme,
                        "status_back"@,
                        "back. press p to enter the password you found."@,
                    ),
                    "{who}"@,
                    who@,
                ),
                ..old(self)@
            }),
    {
        self.status = who_label(
            theme,
            "status_back",
            "back. press p to enter the password you found.",
            who,
        );
    }
}

} // verus!
