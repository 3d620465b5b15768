//! The headless doctor: which levels it probes, how it reads each answer of
//! the world, the line it prints per level and the count it reports.
use vstd::prelude::*;
use crate::config::{is_boundary, lemma_utf8_len_prefix, utf8_len, utf8_width, width};
use crate::model::Level;
use crate::text::{chars_of, decimal, push_char, push_decimal};

verus! {

/// The level numbers the doctor asks the world about: every level but the
/// intro, in the campaign's order.
pub fn levels_to_probe(levels: &Vec<Level>) -> (r: Vec<u32>)
    ensures
        r@ == levels@.filter(|l: Level| l.n != 0).map_values(|l: Level| l.n),
{
    let mut r: Vec<u32> = Vec::new();
    assert(levels@.take(0) =~= Seq::<Level>::empty());
    for i in 0..levels.len()
        invariant
            r@ == levels@.take(i as int).filter(|l: Level| l.n != 0).map_values(|l: Level| l.n),
    {
        let ghost before = r@;
        assert(levels@.take(i + 1) =~= levels@.take(i as int).push(levels@[i as int]));
        proof {
            levels@.take(i as int).lemma_filter_push(levels@[i as int], |l: Level| l.n != 0);
        }
        if levels[i].n != 0 {
            r.push(levels[i].n);
            assert(r@ =~= levels@.take(i + 1).filter(|l: Level| l.n != 0).map_values(|l: Level| l.n));
        }
    }
    assert(levels@.take(levels.len() as int) =~= levels@);
    r
}

/// How the world answered the doctor's request for a level's password.
#[derive(Clone, Copy, Debug, PartialEq, Eq, Structural)]
pub enum Probe {
    /// A password of at least 8 bytes came back.
    Reachable,
    /// A password came back, but shorter than 8 bytes.
    TooShort,
    /// The password could not be read: the user is not provisioned.
    Missing,
}

/// The reading of one answer.
pub open spec fn probe_of(answer: Result<Seq<char>, Seq<char>>) -> Probe {
    match answer {
        Ok(pw) => if utf8_len(pw) >= 8 {
            Probe::Reachable
        } else {
            Probe::TooShort
        },
        Err(_) => Probe::Missing,
    }
}

/// Whether the UTF-8 encoding of `s` takes at least `k` bytes.
fn bytes_at_least(s: &str, k: usize) -> (r: bool)
    ensures
        r == (utf8_len(s@) >= k),
{
    let cs = chars_of(s);
    let mut sum: usize = 0;
    assert(cs@.take(0) =~= Seq::<char>::empty());
    for i in 0..cs.len()
        invariant
            cs@ == s@,
            sum < k || k == 0,
            sum == utf8_len(cs@.take(i as int)),
    {
        if k == 0 {
            return true;
        }
        assert(cs@.take(i + 1).drop_last() =~= cs@.take(i as int));
        assert(cs@.take(i + 1).last() == cs@[i as int]);
        let w = width(cs[i]);
        if w >= k - sum {
            proof {
                lemma_utf8_len_prefix(s@, i + 1);
            }
            return true;
        }
        sum = sum + w;
    }
    assert(cs@.take(cs.len() as int) =~= s@);
    k == 0 || sum >= k
}

/// Reads the world's answer for a level: a password of at least 8 bytes is
/// reachable, a shorter one is suspect, an error means not provisioned.
pub fn probe(answer: &Result<String, String>) -> (p: Probe)
    ensures
        p == probe_of(
            match answer {
                Ok(pw) => Ok(pw@),
                Err(e) => Err(e@),
            },
        ),
{
    match answer {
        Ok(pw) => if bytes_at_least(pw.as_str(), 8) {
            Probe::Reachable
        } else {
            Probe::TooShort
        },
        Err(_) => Probe::Missing,
    }
}

/// How many levels the doctor found provisioned and verifiable.
pub fn provisioned(ps: &Vec<Probe>) -> (n: usize)
    ensures
        n == ps@.filter(|p: Probe| p == Probe::Reachable).len(),
{
    let mut n: usize = 0;
    assert(ps@.take(0) =~= Seq::<Probe>::empty());
    for i in 0..ps.len()
        invariant
            n == ps@.take(i as int).filter(|p: Probe| p == Probe::Reachable).len(),
            n <= i,
    {
        assert(ps@.take(i + 1) =~= ps@.take(i as int).push(ps@[i as int]));
        proof {
            ps@.take(i as int).lemma_filter_push(ps@[i as int], |p: Probe| p == Probe::Reachable);
        }
        if ps[i] == Probe::Reachable {
            n = n + 1;
        }
    }
    assert(ps@.take(ps.len() as int) =~= ps@);
    n
}

/// The longest start of `s` whose UTF-8 encoding fits in `k` bytes; when
/// byte `k` starts a character, the first `k` bytes of `s`.
pub open spec fn within_bytes(s: Seq<char>, k: nat) -> Seq<char>
    decreases s.len(),
{
    if s.len() == 0 || utf8_width(s[0]) > k {
        Seq::empty()
    } else {
        seq![s[0]] + within_bytes(s.drop_first(), (k - utf8_width(s[0])) as nat)
    }
}

/// `n` in decimal, padded with a space on the right to two characters.
pub open spec fn left_aligned2(n: nat) -> Seq<char> {
    if n < 10 {
        decimal(n) + " "@
    } else {
        decimal(n)
    }
}

/// The doctor's line for level `n` of the users named by `prefix`.
pub open spec fn probe_line_text(prefix: Seq<char>, n: u32, answer: Result<Seq<char>, Seq<char>>) -> Seq<char> {
    let head = "  "@ + prefix + left_aligned2(n as nat);
    match probe_of(answer) {
        Probe::Reachable => head + "  password reachable ("@ + within_bytes(answer->Ok_0, 4) + "...)"@,
        Probe::TooShort => head + "  password too short?"@,
        Probe::Missing => head + "  not provisioned in this world build"@,
    }
}

fn first_bytes(s: &str, k: usize) -> (r: String)
    ensures
        r@ == within_bytes(s@, k as nat),
{
    let cs = chars_of(s);
    let mut out = String::new();
    let mut left: usize = k;
    let mut i: usize = 0;
    assert(cs@.skip(0) =~= cs@);
    while i < cs.len() && width(cs[i]) <= left
        invariant
            cs@ == s@,
            i <= cs.len(),
            out@ + within_bytes(cs@.skip(i as int), left as nat) == within_bytes(s@, k as nat),
        decreases cs.len() - i,
    {
        let ghost rest = cs@.skip(i as int);
        assert(rest.drop_first() =~= cs@.skip(i + 1));
        let w = width(cs[i]);
        push_char(&mut out, cs[i]);
        left = left - w;
        i = i + 1;
        assert(out@ + within_bytes(cs@.skip(i as int), left as nat) =~= within_bytes(s@, k as nat));
    }
    assert(out@ + Seq::<char>::empty() =~= out@);
    out
}

/// The line the doctor prints for level `n`: reachable (with the first 4
/// bytes of the password), too short, or not provisioned.
pub fn probe_line(prefix: &str, n: u32, answer: &Result<String, String>) -> (r: String)
    requires
        answer matches Ok(pw) ==> (utf8_len(pw@) >= 8 ==> is_boundary(pw@, 4)),
    ensures
        r@ == probe_line_text(
            prefix@,
            n,
            match answer {
                Ok(pw) => Ok(pw@),
                Err(e) => Err(e@),
            },
        ),
{
    let mut s = "  ".to_owned();
    s.append(prefix);
    push_decimal(&mut s, n as u64);
    if n < 10 {
        s.append(" ");
    }
    match probe(answer) {
        Probe::Reachable => {
            s.append("  password reachable (");
            match answer {
                Ok(pw) => {
                    let head = first_bytes(pw.as_str(), 4);
                    s.append(head.as_str());
                },
                Err(_) => {},
            }
            s.append("...)");
        },
        Probe::TooShort => {
            s.append("  password too short?");
        },
        Probe::Missing => {
            s.append("  not provisioned in this world build");
        },
    }
    s
}

/// The doctor's closing line.
pub fn doctor_summary(count: usize) -> (r: String)
    ensures
        r@ == "ok: "@ + decimal(count as nat) + " users provisioned and verifiable"@,
{
    let mut s = "ok: ".to_owned();
    push_decimal(&mut s, count as u64);
    s.append(" users provisioned and verifiable");
    s
}

} // verus!
