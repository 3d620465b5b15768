//! Character-level string helpers with exact contracts: building strings,
//! decimal numbers, whitespace trimming and pattern replacement.
use vstd::prelude::*;

verus! {

/// Appends one character to a string by `String::push`. Trusted: the
/// contract claims, as std documents, that the string afterwards holds its
/// old characters followed by `c`.
#[verifier::external_body]
pub(crate) fn push_char(s: &mut String, c: char)
    ensures
        final(s)@ == old(s)@.push(c),
{
    s.push(c);
}

/// The characters of `s`, in order.
pub fn chars_of(s: &str) -> (v: Vec<char>)
    ensures
        v@ == s@,
{
    let mut v: Vec<char> = Vec::new();
    for c in it: s.chars()
        invariant
            v@ == it.seq().take(it.index() as int),
            it.seq() == s@,
    {
        v.push(c);
    }
    v
}

/// Appends the characters of `v` to `s`.
pub(crate) fn push_chars(s: &mut String, v: &Vec<char>)
    ensures
        final(s)@ == old(s)@ + v@,
{
    let ghost start = s@;
    for i in 0..v.len()
        invariant
            s@ == start + v@.take(i as int),
    {
        push_char(s, v[i]);
        assert(v@.take(i + 1) == v@.take(i as int).push(v@[i as int]));
    }
    assert(v@.take(v.len() as int) == v@);
}

/// The string made of the characters of `v`.
pub fn string_of(v: &Vec<char>) -> (s: String)
    ensures
        s@ == v@,
{
    let mut s = String::new();
    push_chars(&mut s, v);
    s
}

/// Whether `p` starts `s`.
pub open spec fn starts_with(s: Seq<char>, p: Seq<char>) -> bool {
    p.len() <= s.len() && s.take(p.len() as int) == p
}

/// `s` without the prefix `p`, if `s` starts with it (`str::strip_prefix`).
pub fn strip_prefix(s: &str, p: &str) -> (r: Option<String>)
    ensures
        r is Some <==> starts_with(s@, p@),
        r matches Some(rest) ==> rest@ == s@.skip(p@.len() as int),
{
    let sv = chars_of(s);
    let pv = chars_of(p);
    if pv.len() > sv.len() {
        return None;
    }
    for i in 0..pv.len()
        invariant
            sv@ == s@,
            pv@ == p@,
            pv.len() <= sv.len(),
            forall|j: int| 0 <= j < i ==> sv@[j] == pv@[j],
    {
        if sv[i] != pv[i] {
            assert(s@.take(p@.len() as int)[i as int] != p@[i as int]);
            return None;
        }
    }
    assert(s@.take(p@.len() as int) =~= p@);
    let mut out = String::new();
    for i in pv.len()..sv.len()
        invariant
            sv@ == s@,
            pv@ == p@,
            pv.len() <= sv.len(),
            out@ == s@.subrange(p@.len() as int, i as int),
    {
        push_char(&mut out, sv[i]);
        assert(s@.subrange(p@.len() as int, i + 1) =~= s@.subrange(p@.len() as int, i as int).push(
            s@[i as int],
        ));
    }
    assert(s@.skip(p@.len() as int) =~= s@.subrange(p@.len() as int, sv.len() as int));
    Some(out)
}

/// Whether `a` and `b` hold the same characters.
pub fn same_text(a: &str, b: &str) -> (r: bool)
    ensures
        r == (a@ == b@),
{
    let x = chars_of(a);
    let y = chars_of(b);
    if x.len() != y.len() {
        return false;
    }
    for i in 0..x.len()
        invariant
            x@ == a@,
            y@ == b@,
            x.len() == y.len(),
            forall|j: int| 0 <= j < i ==> x@[j] == y@[j],
    {
        if x[i] != y[i] {
            return false;
        }
    }
    assert(x@ =~= y@);
    true
}

// ---- decimal numbers ------------------------------------------------------

/// The ASCII digit for `d`, for `d < 10`.
pub open spec fn digit_char(d: nat) -> char {
    ((d + 48) as u8) as char
}

/// The decimal representation of `n`, without sign or leading zeros.
pub open spec fn decimal(n: nat) -> Seq<char>
    decreases n,
{
    if n < 10 {
        seq![digit_char(n)]
    } else {
        decimal(n / 10).push(digit_char(n % 10))
    }
}

/// The number that the decimal digits `s` write.
pub open spec fn digits_value(s: Seq<char>) -> int
    decreases s.len(),
{
    if s.len() == 0 {
        0
    } else {
        digits_value(s.drop_last()) * 10 + (s.last() as int - 48)
    }
}

/// The decimal text of `n` is a non-empty run of digits, without a leading
/// zero unless `n` is 0, that reads back as `n`.
pub proof fn lemma_decimal_reads_back(n: nat)
    ensures
        decimal(n).len() >= 1,
        forall|i: int| 0 <= i < decimal(n).len() ==> '0' <= #[trigger] decimal(n)[i] <= '9',
        digits_value(decimal(n)) == n,
        n >= 10 ==> decimal(n)[0] != '0',
        n < 10 ==> decimal(n).len() == 1,
    decreases n,
{
    let d = (n % 10) as nat;
    assert(digit_char(d) as int == d + 48);
    if n >= 10 {
        lemma_decimal_reads_back(n / 10);
        let t = decimal(n / 10);
        assert(decimal(n).drop_last() =~= t);
        assert(decimal(n)[0] == t[0]);
        assert(decimal(n).last() == digit_char(d));
        assert(digits_value(decimal(n)) == digits_value(t) * 10 + d);
        assert((n / 10) * 10 + d == n);
    } else {
        assert(decimal(n).drop_last() =~= Seq::<char>::empty());
        assert(digits_value(decimal(n)) == digits_value(Seq::<char>::empty()) * 10 + d);
    }
}

fn digit(d: u64) -> (c: char)
    requires
        d < 10,
    ensures
        c == digit_char(d as nat),
{
    if d == 0 { '0' }
    else if d == 1 { '1' }
    else if d == 2 { '2' }
    else if d == 3 { '3' }
    else if d == 4 { '4' }
    else if d == 5 { '5' }
    else if d == 6 { '6' }
    else if d == 7 { '7' }
    else if d == 8 { '8' }
    else { '9' }
}

/// Appends the decimal representation of `n` to `s`.
pub(crate) fn push_decimal(s: &mut String, n: u64)
    ensures
        final(s)@ == old(s)@ + decimal(n as nat),
    decreases n,
{
    if n >= 10 {
        push_decimal(s, n / 10);
    }
    push_char(s, digit(n % 10));
}

/// The decimal representation of `n` (what `n.to_string()` gives).
pub fn decimal_string(n: u64) -> (s: String)
    ensures
        s@ == decimal(n as nat),
{
    let mut s = String::new();
    push_decimal(&mut s, n);
    s
}

// ---- whitespace -----------------------------------------------------------

/// Unicode `White_Space`, the property that `char::is_whitespace` and
/// `str::trim` go by.
pub open spec fn is_space(c: char) -> bool {
    let u = c as u32;
    ||| 0x09 <= u <= 0x0d
    ||| u == 0x20
    ||| u == 0x85
    ||| u == 0xa0
    ||| u == 0x1680
    ||| 0x2000 <= u <= 0x200a
    ||| u == 0x2028
    ||| u == 0x2029
    ||| u == 0x202f
    ||| u == 0x205f
    ||| u == 0x3000
}

fn space(c: char) -> (r: bool)
    ensures
        r == is_space(c),
{
    let u = c as u32;
    (0x09 <= u && u <= 0x0d) || u == 0x20 || u == 0x85 || u == 0xa0 || u == 0x1680 || (0x2000 <= u
        && u <= 0x200a) || u == 0x2028 || u == 0x2029 || u == 0x202f || u == 0x205f || u == 0x3000
}

/// `s` without its leading whitespace.
pub open spec fn trim_start(s: Seq<char>) -> Seq<char>
    decreases s.len(),
{
    if s.len() > 0 && is_space(s[0]) {
        trim_start(s.drop_first())
    } else {
        s
    }
}

/// `s` without its trailing whitespace.
pub open spec fn trim_end(s: Seq<char>) -> Seq<char>
    decreases s.len(),
{
    if s.len() > 0 && is_space(s.last()) {
        trim_end(s.drop_last())
    } else {
        s
    }
}

/// `s` without leading and trailing whitespace (`str::trim`).
pub open spec fn trimmed(s: Seq<char>) -> Seq<char> {
    trim_end(trim_start(s))
}

proof fn lemma_trim_start_suffix(s: Seq<char>)
    ensures
        exists|k: int|
            0 <= k <= s.len() && #[trigger] s.skip(k) == trim_start(s) && forall|m: int|
                0 <= m < k ==> is_space(s[m]),
        trim_start(s).len() == 0 || !is_space(trim_start(s)[0]),
    decreases s.len(),
{
    if s.len() > 0 && is_space(s[0]) {
        lemma_trim_start_suffix(s.drop_first());
        let k = choose|k: int|
            0 <= k <= s.drop_first().len() && #[trigger] s.drop_first().skip(k) == trim_start(
                s.drop_first(),
            ) && forall|m: int| 0 <= m < k ==> is_space(s.drop_first()[m]);
        assert(s.skip(k + 1) =~= s.drop_first().skip(k));
        assert forall|m: int| 0 <= m < k + 1 implies is_space(s[m]) by {
            if m > 0 {
                assert(s[m] == s.drop_first()[m - 1]);
            }
        }
    } else {
        assert(s.skip(0) =~= s);
    }
}

proof fn lemma_trim_end_prefix(s: Seq<char>)
    ensures
        exists|k: int|
            0 <= k <= s.len() && #[trigger] s.take(k) == trim_end(s) && forall|m: int|
                k <= m < s.len() ==> is_space(s[m]),
        trim_end(s).len() == 0 || !is_space(trim_end(s).last()),
    decreases s.len(),
{
    if s.len() > 0 && is_space(s.last()) {
        lemma_trim_end_prefix(s.drop_last());
        let k = choose|k: int|
            0 <= k <= s.drop_last().len() && #[trigger] s.drop_last().take(k) == trim_end(
                s.drop_last(),
            ) && forall|m: int| k <= m < s.drop_last().len() ==> is_space(s.drop_last()[m]);
        assert(s.take(k) =~= s.drop_last().take(k));
        assert forall|m: int| k <= m < s.len() implies is_space(s[m]) by {
            if m < s.len() - 1 {
                assert(s[m] == s.drop_last()[m]);
            }
        }
    } else {
        assert(s.take(s.len() as int) =~= s);
    }
}

/// Trimming keeps the text between its leading and trailing whitespace:
/// the text is whitespace, then the trimmed text, then whitespace.
pub proof fn lemma_trim_is_core(s: Seq<char>)
    ensures
        exists|i: int, j: int|
            #![trigger s.subrange(i, j)]
            0 <= i <= j <= s.len() && trimmed(s) == s.subrange(i, j) && (forall|m: int|
                0 <= m < i ==> is_space(s[m])) && (forall|m: int| j <= m < s.len() ==> is_space(s[m])),
{
    let u = trim_start(s);
    lemma_trim_start_suffix(s);
    let i = choose|k: int|
        0 <= k <= s.len() && #[trigger] s.skip(k) == trim_start(s) && forall|m: int|
            0 <= m < k ==> is_space(s[m]);
    lemma_trim_end_prefix(u);
    let k = choose|k: int|
        0 <= k <= u.len() && #[trigger] u.take(k) == trim_end(u) && forall|m: int|
            k <= m < u.len() ==> is_space(u[m]);
    let j = i + k;
    assert(trimmed(s) =~= s.subrange(i, j));
    assert forall|m: int| j <= m < s.len() implies is_space(s[m]) by {
        assert(s[m] == u[m - i]);
    }
}

/// Trimming twice is trimming once: a trimmed text has no surrounding
/// whitespace left.
pub proof fn lemma_trim_idempotent(s: Seq<char>)
    ensures
        trimmed(trimmed(s)) == trimmed(s),
        trimmed(s).len() == 0 || (!is_space(trimmed(s)[0]) && !is_space(trimmed(s).last())),
{
    let u = trim_start(s);
    lemma_trim_start_suffix(s);
    lemma_trim_end_prefix(u);
    let t = trim_end(u);
    let k = choose|k: int| 0 <= k <= u.len() && #[trigger] u.take(k) == t;
    if t.len() > 0 {
        assert(t[0] == u[0]);
    }
    assert(trim_start(t) == t);
    assert(trim_end(t) == t);
}

/// The characters of `s` without leading and trailing whitespace.
pub fn trim_chars(s: &Vec<char>) -> (t: Vec<char>)
    ensures
        t@ == trimmed(s@),
{
    let n = s.len();
    let mut lo: usize = 0;
    assert(s@.skip(0) =~= s@);
    while lo < n && space(s[lo])
        invariant
            n == s@.len(),
            lo <= n,
            trim_start(s@) == trim_start(s@.skip(lo as int)),
        decreases n - lo,
    {
        assert(s@.skip(lo as int).drop_first() =~= s@.skip(lo + 1));
        lo = lo + 1;
    }
    let ghost mid = s@.skip(lo as int);
    assert(trim_start(s@) == mid);
    let mut hi: usize = n;
    while hi > lo && space(s[hi - 1])
        invariant
            n == s@.len(),
            lo <= hi <= n,
            mid == s@.skip(lo as int),
            trim_end(mid) == trim_end(s@.subrange(lo as int, hi as int)),
        decreases hi - lo,
    {
        assert(s@.subrange(lo as int, hi as int).drop_last() =~= s@.subrange(
            lo as int,
            hi - 1,
        ));
        hi = hi - 1;
    }
    assert(mid =~= s@.subrange(lo as int, n as int));
    let mut t: Vec<char> = Vec::new();
    for i in lo..hi
        invariant
            lo <= hi <= n,
            n == s@.len(),
            t@ == s@.subrange(lo as int, i as int),
    {
        t.push(s[i]);
        assert(s@.subrange(lo as int, i + 1) =~= s@.subrange(lo as int, i as int).push(
            s@[i as int],
        ));
    }
    t
}

/// `s` without leading and trailing whitespace (what `s.trim()` gives).
pub fn trim(s: &str) -> (t: String)
    ensures
        t@ == trimmed(s@),
{
    let v = chars_of(s);
    let w = trim_chars(&v);
    string_of(&w)
}

// ---- replacement ----------------------------------------------------------

/// `s` with every match of `from` replaced by `to`, matches taken from the
/// left without overlap; an empty `from` matches before every character and
/// at the end (`str::replace`).
pub open spec fn replaced(s: Seq<char>, from: Seq<char>, to: Seq<char>) -> Seq<char>
    decreases s.len(),
{
    if from.len() == 0 {
        if s.len() == 0 {
            to
        } else {
            to + seq![s[0]] + replaced(s.drop_first(), from, to)
        }
    } else if s.len() < from.len() {
        s
    } else if s.take(from.len() as int) == from {
        to + replaced(s.skip(from.len() as int), from, to)
    } else {
        seq![s[0]] + replaced(s.drop_first(), from, to)
    }
}

/// Whether `pat` occurs in `s` at position `i`.
fn matches_at(s: &Vec<char>, i: usize, pat: &Vec<char>) -> (r: bool)
    requires
        i + pat.len() <= s.len(),
    ensures
        r == (s@.subrange(i as int, i + pat.len()) == pat@),
{
    for j in 0..pat.len()
        invariant
            i + pat.len() <= s.len(),
            forall|k: int| 0 <= k < j ==> s@[i + k] == pat@[k],
    {
        if s[i + j] != pat[j] {
            assert(s@.subrange(i as int, i + pat.len())[j as int] != pat@[j as int]);
            return false;
        }
    }
    assert(s@.subrange(i as int, i + pat.len()) =~= pat@);
    true
}

/// `s` with every match of `from` replaced by `to` (what
/// `s.replace(from, to)` gives).
pub fn replace(s: &str, from: &str, to: &str) -> (r: String)
    ensures
        r@ == replaced(s@, from@, to@),
{
    let sv = chars_of(s);
    let fv = chars_of(from);
    let tv = chars_of(to);
    let n = sv.len();
    let m = fv.len();
    let mut out = String::new();
    let mut i: usize = 0;
    assert(sv@.skip(0) =~= sv@);
    while i < n && (m == 0 || n - i >= m)
        invariant
            sv@ == s@,
            fv@ == from@,
            tv@ == to@,
            n == sv.len(),
            m == fv.len(),
            i <= n,
            out@ + replaced(sv@.skip(i as int), fv@, tv@) == replaced(sv@, fv@, tv@),
        decreases n - i,
    {
        let ghost rest = sv@.skip(i as int);
        if m == 0 {
            assert(rest.drop_first() =~= sv@.skip(i + 1));
            assert(seq![rest[0]] =~= seq![sv@[i as int]]);
            push_chars(&mut out, &tv);
            push_char(&mut out, sv[i]);
            i = i + 1;
            assert(out@ + replaced(sv@.skip(i as int), fv@, tv@) =~= replaced(sv@, fv@, tv@));
        } else if matches_at(&sv, i, &fv) {
            assert(rest.take(m as int) =~= sv@.subrange(i as int, i + m));
            assert(rest.skip(m as int) =~= sv@.skip(i + m));
            push_chars(&mut out, &tv);
            i = i + m;
            assert(out@ + replaced(sv@.skip(i as int), fv@, tv@) =~= replaced(sv@, fv@, tv@));
        } else {
            assert(rest.take(m as int) =~= sv@.subrange(i as int, i + m));
            assert(rest.drop_first() =~= sv@.skip(i + 1));
            push_char(&mut out, sv[i]);
            i = i + 1;
            assert(out@ + replaced(sv@.skip(i as int), fv@, tv@) =~= replaced(sv@, fv@, tv@));
        }
    }
    let ghost rest = sv@.skip(i as int);
    let ghost old_out = out@;
    if m == 0 {
        assert(rest.len() == 0);
        push_chars(&mut out, &tv);
    } else {
        assert(rest.len() < m);
        for k in i..n
            invariant
                i <= n,
                n == sv.len(),
                out@ == old_out + sv@.subrange(i as int, k as int),
        {
            push_char(&mut out, sv[k]);
            assert(sv@.subrange(i as int, k + 1) =~= sv@.subrange(i as int, k as int).push(
                sv@[k as int],
            ));
        }
        assert(rest =~= sv@.subrange(i as int, n as int));
    }
    out
}

} // verus!
