//! The game-world container: its per-level users (named by the campaign's
//! prefix), where their passwords live, and the commands that drop the
//! player into a level's shell.
use vstd::prelude::*;
use crate::text::{decimal, push_decimal, trim, trimmed, same_text};

verus! {

/// A game-world container.
pub struct World {
    pub container: String,
    pub prefix: String,
    pub pass_dir: String,
}

/// The login name of level `n`'s user: the prefix followed by `n`.
pub open spec fn user_name(prefix: Seq<char>, n: u32) -> Seq<char> {
    prefix + decimal(n as nat)
}

/// The program and arguments that open level `n`'s shell.
pub open spec fn shell_argv(container: Seq<char>, prefix: Seq<char>, n: u32) -> (
    Seq<char>,
    Seq<Seq<char>>,
) {
    if n == 0 {
        (
            "ssh"@,
            seq![
                "-o"@,
                "StrictHostKeyChecking=no"@,
                "-o"@,
                "UserKnownHostsFile=/dev/null"@,
                "-p"@,
                "2220"@,
                user_name(prefix, 0) + "@localhost"@,
            ],
        )
    } else {
        let user = user_name(prefix, (n - 1) as u32);
        (
            "docker"@,
            seq![
                "exec"@,
                "-it"@,
                "-u"@,
                user,
                "-w"@,
                "/home/"@ + user,
                container,
                "bash"@,
                "-l"@,
            ],
        )
    }
}

/// Level `n >= 1` is played as the previous level's user, in that user's
/// home, while its goal is the password of user `n`; level 0 logs in over
/// SSH as user 0.
pub proof fn lemma_level_user(container: Seq<char>, prefix: Seq<char>, n: u32)
    ensures
        n >= 1 ==> shell_argv(container, prefix, n).1[3] == user_name(prefix, (n - 1) as u32),
        n >= 1 ==> shell_argv(container, prefix, n).1[5] == "/home/"@ + user_name(
            prefix,
            (n - 1) as u32,
        ),
        n >= 1 ==> shell_argv(container, prefix, n).1[6] == container,
        n == 0 ==> shell_argv(container, prefix, n).1[6] == user_name(prefix, 0) + "@localhost"@,
{
}

impl World {
    /// A world in `container` whose users are `<prefix>N` and whose
    /// passwords live in `pass_dir`.
    pub fn new(container: String, prefix: String, pass_dir: String) -> (w: World)
        ensures
            w.container == container,
            w.prefix == prefix,
            w.pass_dir == pass_dir,
    {
        World { container, prefix, pass_dir }
    }

    /// The login name of level `n`'s user.
    pub fn user(&self, n: u32) -> (u: String)
        ensures
            u@ == user_name(self.prefix@, n),
    {
        let mut u = self.prefix.clone();
        push_decimal(&mut u, n as u64);
        u
    }

    /// The file that holds level `n`'s password inside the world.
    pub fn password_path(&self, n: u32) -> (p: String)
        ensures
            p@ == self.pass_dir@ + "/"@ + user_name(self.prefix@, n),
    {
        let mut p = self.pass_dir.clone();
        p.append("/");
        let u = self.user(n);
        p.append(u.as_str());
        p
    }

    /// The password read from the world: the reader's output without
    /// surrounding whitespace.
    pub fn password_from_output(output: &str) -> (p: String)
        ensures
            p@ == trimmed(output@),
    {
        trim(output)
    }

    /// Whether the container's reported running state (`docker inspect`
    /// output) says it is up.
    pub fn running_from_output(output: &str) -> (r: bool)
        ensures
            r == (trimmed(output@) == "true"@),
    {
        let t = trim(output);
        same_text(t.as_str(), "true")
    }

    /// Whether a candidate answer matches the stored password, surrounding
    /// whitespace ignored on both sides.
    pub fn verify(&self, stored: &str, candidate: &str) -> (r: bool)
        ensures
            r == (trimmed(stored@) == trimmed(candidate@)),
    {
        let a = trim(stored);
        let b = trim(candidate);
        a == b
    }

    /// The program and arguments that drop the player into the shell for
    /// level `n`. Level `n >= 1` is solved while logged in as `<prefix>(n-1)`,
    /// whose goal is to recover `<prefix>n`'s password; level 0 is the
    /// "get in over SSH" tutorial, a real SSH session as `<prefix>0`.
    pub fn shell_command(&self, n: u32) -> (r: (String, Vec<String>))
        ensures
            r.0@ == shell_argv(self.container@, self.prefix@, n).0,
            r.1.deep_view() == shell_argv(self.container@, self.prefix@, n).1,
    {
        if n == 0 {
            let mut login = self.user(0);
            login.append("@localhost");
            let mut args: Vec<String> = Vec::new();
            args.push("-o".to_owned());
            args.push("StrictHostKeyChecking=no".to_owned());
            args.push("-o".to_owned());
            args.push("UserKnownHostsFile=/dev/null".to_owned());
            args.push("-p".to_owned());
            args.push("2220".to_owned());
            args.push(login);
            assert(args.deep_view() =~= shell_argv(self.container@, self.prefix@, n).1);
            ("ssh".to_owned(), args)
        } else {
            let user = self.user(n - 1);
            let mut home = "/home/".to_owned();
            home.append(user.as_str());
            let mut args: Vec<String> = Vec::new();
            args.push("exec".to_owned());
            args.push("-it".to_owned());
            args.push("-u".to_owned());
            args.push(user);
            args.push("-w".to_owned());
            args.push(home);
            args.push(self.container.clone());
            args.push("bash".to_owned());
            args.push("-l".to_owned());
            assert(args.deep_view() =~= shell_argv(self.container@, self.prefix@, n).1);
            ("docker".to_owned(), args)
        }
    }
}

} // verus!
