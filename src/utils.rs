//! Text helpers: random rids, tag lists, durations as text.

use vstd::prelude::*;

use rand::Rng;

verus! {

/// How many characters a timer's rid has.
pub const RID_LEN: usize = 12;

/// An ASCII letter or digit.
pub open spec fn is_alphanumeric(c: char) -> bool {
    ||| ('A' as int) <= (c as int) <= ('Z' as int)
    ||| ('a' as int) <= (c as int) <= ('z' as int)
    ||| ('0' as int) <= (c as int) <= ('9' as int)
}

/// Relies on rand's `Alphanumeric` distribution, drawn `len` times from the
/// thread-local generator: each draw is one of `A-Z`, `a-z`, `0-9`. (The
/// generator panics only where the system gives it no seed.)
#[verifier::external_body]
pub fn rand_string(len: usize) -> (r: String)
    ensures
        r@.len() == len,
        forall|i: int| 0 <= i < len ==> is_alphanumeric(#[trigger] r@[i]),
{
    rand::thread_rng().sample_iter(&rand::distributions::Alphanumeric).take(len).collect()
}

/// Relies on chrono's `Utc::now`, read as whole seconds since the Unix epoch.
/// Nothing is known of the value. (It panics only where the system clock is
/// set before 1970.)
#[verifier::external_body]
pub(crate) fn utc_now() -> (r: i64) {
    chrono::Utc::now().timestamp()
}

/// The text of each string, in order.
pub open spec fn string_views(v: Seq<String>) -> Seq<Seq<char>> {
    Seq::new(v.len(), |i: int| v[i]@)
}

/// The pieces of `s` between commas, as `str::split(",")` gives them: one
/// piece more than there are commas, empty pieces kept.
pub open spec fn split_commas(s: Seq<char>) -> Seq<Seq<char>>
    decreases s.len(),
{
    if s.len() == 0 {
        seq![Seq::empty()]
    } else if s.last() == ',' {
        split_commas(s.drop_last()).push(Seq::empty())
    } else {
        let r = split_commas(s.drop_last());
        r.update(r.len() - 1, r.last().push(s.last()))
    }
}

pub proof fn lemma_split_commas_len(s: Seq<char>)
    ensures
        split_commas(s).len() >= 1,
    decreases s.len(),
{
    if s.len() > 0 {
        lemma_split_commas_len(s.drop_last());
    }
}

/// The names of a comma-separated list, each piece kept as written.
pub fn parse_tags(tags: Option<&str>) -> (r: Option<Vec<String>>)
    ensures
        tags is None <==> r is None,
        r matches Some(v) ==> string_views(v@) == split_commas(tags->Some_0@),
{
    match tags {
        None => None,
        Some(s) => {
            let n = s.unicode_len();
            let mut out: Vec<String> = Vec::new();
            let mut start: usize = 0;
            let mut i: usize = 0;
            while i < n
                invariant
                    n == s@.len(),
                    start <= i <= n,
                    out@.len() + 1 == split_commas(s@.take(i as int)).len(),
                    forall|k: int| 0 <= k < out@.len() ==> (#[trigger] out@[k])@ == split_commas(s@.take(i as int))[k],
                    split_commas(s@.take(i as int)).last() == s@.subrange(start as int, i as int),
                decreases n - i,
            {
                let c = s.get_char(i);
                assert(s@.take(i as int + 1).drop_last() =~= s@.take(i as int));
                assert(s@.take(i as int + 1).last() == c);
                if c == ',' {
                    out.push(s.substring_char(start, i).to_string());
                    start = i + 1;
                    assert(s@.subrange(start as int, i as int + 1) =~= Seq::<char>::empty());
                } else {
                    proof {
                        lemma_split_commas_len(s@.take(i as int));
                    }
                    assert(s@.subrange(start as int, i as int + 1) =~= s@.subrange(start as int, i as int).push(c));
                }
                i += 1;
            }
            assert(s@.take(n as int) =~= s@);
            out.push(s.substring_char(start, n).to_string());
            assert(string_views(out@) =~= split_commas(s@));
            Some(out)
        },
    }
}

/// Relies on `String::push`: the character is added at the end.
#[verifier::external_body]
fn push_char(s: &mut String, c: char)
    ensures
        final(s)@ == old(s)@.push(c),
{
    s.push(c)
}

/// The decimal digit for `d` (below ten).
pub open spec fn digit_char(d: int) -> char {
    if d == 0 {
        '0'
    } else if d == 1 {
        '1'
    } else if d == 2 {
        '2'
    } else if d == 3 {
        '3'
    } else if d == 4 {
        '4'
    } else if d == 5 {
        '5'
    } else if d == 6 {
        '6'
    } else if d == 7 {
        '7'
    } else if d == 8 {
        '8'
    } else {
        '9'
    }
}

/// The decimal digits of `n`, without leading zeros.
pub open spec fn digits_of(n: nat) -> Seq<char>
    decreases n,
{
    if n < 10 {
        seq![digit_char(n as int)]
    } else {
        digits_of(n / 10).push(digit_char((n % 10) as int))
    }
}

/// An integer as Rust's `Display` writes it.
pub open spec fn int_text(i: int) -> Seq<char> {
    if i < 0 {
        seq!['-'] + digits_of((-i) as nat)
    } else {
        digits_of(i as nat)
    }
}

/// Division that rounds toward zero, as Rust's `/` on integers does.
pub open spec fn tdiv(a: int, b: int) -> int {
    if a >= 0 {
        a / b
    } else {
        -((-a) / b)
    }
}

/// The remainder that goes with `tdiv`, as Rust's `%` on integers gives it.
pub open spec fn trem(a: int, b: int) -> int {
    a - b * tdiv(a, b)
}

/// One part of a duration: the number, its unit, and a separator after all
/// but the last part.
pub open spec fn part_text(v: int, unit: char, last: bool) -> Seq<char> {
    if last {
        int_text(v).push(unit)
    } else {
        int_text(v) + seq![unit, ',', ' ']
    }
}

/// `secs` as weeks, days, hours, minutes and seconds:
/// `"{w}w, {d}d, {h}h, {m}m, {s}s"`.
pub open spec fn duration_text(secs: int) -> Seq<char> {
    let w = tdiv(secs, 604800);
    let r1 = trem(secs, 604800);
    let d = tdiv(r1, 86400);
    let r2 = trem(r1, 86400);
    let h = tdiv(r2, 3600);
    let r3 = trem(r2, 3600);
    let m = tdiv(r3, 60);
    let s = trem(r3, 60);
    part_text(w, 'w', false) + part_text(d, 'd', false) + part_text(h, 'h', false) + part_text(
        m,
        'm',
        false,
    ) + part_text(s, 's', true)
}

fn digit(d: u64) -> (c: char)
    requires
        d < 10,
    ensures
        c == digit_char(d as int),
{
    if d == 0 {
        '0'
    } else if d == 1 {
        '1'
    } else if d == 2 {
        '2'
    } else if d == 3 {
        '3'
    } else if d == 4 {
        '4'
    } else if d == 5 {
        '5'
    } else if d == 6 {
        '6'
    } else if d == 7 {
        '7'
    } else if d == 8 {
        '8'
    } else {
        '9'
    }
}

/// Writes the decimal digits of `n` at the end of `out`.
fn push_digits(out: &mut String, n: u64)
    ensures
        final(out)@ == old(out)@ + digits_of(n as nat),
    decreases n,
{
    if n >= 10 {
        push_digits(out, n / 10);
    }
    push_char(out, digit(n % 10));
    proof {
        if n >= 10 {
            assert(old(out)@ + digits_of(n as nat) =~= old(out)@ + digits_of((n / 10) as nat) + seq![
                digit_char((n % 10) as int),
            ]);
        }
    }
}

/// Writes `p`, negated where `neg` holds, as Rust's `Display` does.
fn push_part(out: &mut String, p: u64, neg: bool)
    ensures
        final(out)@ == old(out)@ + int_text(signed(p as int, neg)),
{
    if neg && p != 0 {
        push_char(out, '-');
    }
    push_digits(out, p);
    proof {
        if neg && p != 0 {
            assert(old(out)@.push('-') + digits_of(p as nat) =~= old(out)@ + (seq!['-'] + digits_of(p as nat)));
        }
    }
}

/// Writes one part of a duration.
fn push_unit(out: &mut String, p: u64, neg: bool, unit: char, last: bool)
    ensures
        final(out)@ == old(out)@ + part_text(signed(p as int, neg), unit, last),
{
    push_part(out, p, neg);
    push_char(out, unit);
    if !last {
        push_char(out, ',');
        push_char(out, ' ');
    }
    assert(out@ =~= old(out)@ + part_text(signed(p as int, neg), unit, last));
}

/// `x`, negated where `neg` holds.
pub open spec fn signed(x: int, neg: bool) -> int {
    if neg {
        -x
    } else {
        x
    }
}

proof fn lemma_tdiv_signed(a: int, mag: int, b: int, neg: bool)
    requires
        b > 0,
        mag >= 0,
        a == signed(mag, neg),
    ensures
        tdiv(a, b) == signed(mag / b, neg),
        trem(a, b) == signed(mag % b, neg),
{
    let q = mag / b;
    let r = mag % b;
    vstd::arithmetic::div_mod::lemma_fundamental_div_mod(mag, b);
    if neg {
        if mag == 0 {
            vstd::arithmetic::div_mod::lemma_div_of0(b);
        }
        assert(a - b * (-q) == -r) by (nonlinear_arith)
            requires
                a == -mag,
                mag == b * q + r,
        ;
    }
}

/// `secs` written as weeks, days, hours, minutes and seconds, each part
/// with the sign of `secs`: `"{w}w, {d}d, {h}h, {m}m, {s}s"`.
pub fn format_seconds(secs: i64) -> (r: String)
    ensures
        r@ == duration_text(secs as int),
{
    let neg = secs < 0;
    let mag: u64 = if neg {
        (-(secs as i128)) as u64
    } else {
        secs as u64
    };
    let w = mag / 604800;
    let r1 = mag % 604800;
    let d = r1 / 86400;
    let r2 = r1 % 86400;
    let h = r2 / 3600;
    let r3 = r2 % 3600;
    let m = r3 / 60;
    let sec = r3 % 60;
    proof {
        lemma_tdiv_signed(secs as int, mag as int, 604800, neg);
        lemma_tdiv_signed(signed(r1 as int, neg), r1 as int, 86400, neg);
        lemma_tdiv_signed(signed(r2 as int, neg), r2 as int, 3600, neg);
        lemma_tdiv_signed(signed(r3 as int, neg), r3 as int, 60, neg);
    }
    let mut out = String::new();
    push_unit(&mut out, w, neg, 'w', false);
    push_unit(&mut out, d, neg, 'd', false);
    push_unit(&mut out, h, neg, 'h', false);
    push_unit(&mut out, m, neg, 'm', false);
    push_unit(&mut out, sec, neg, 's', true);
    assert(out@ =~= duration_text(secs as int));
    out
}

/// The pieces joined with commas between them.
pub open spec fn join_commas(pieces: Seq<Seq<char>>) -> Seq<char>
    decreases pieces.len(),
{
    if pieces.len() == 0 {
        Seq::empty()
    } else if pieces.len() == 1 {
        pieces[0]
    } else {
        join_commas(pieces.drop_last()) + seq![','] + pieces.last()
    }
}

/// The names joined with commas between them.
pub fn join_names(names: &Vec<String>) -> (r: String)
    ensures
        r@ == join_commas(string_views(names@)),
{
    let mut out = String::new();
    let mut i: usize = 0;
    while i < names.len()
        invariant
            i <= names@.len(),
            out@ == join_commas(string_views(names@.take(i as int))),
        decreases names@.len() - i,
    {
        let ghost prev = string_views(names@.take(i as int));
        assert(string_views(names@.take(i as int + 1)).drop_last() =~= prev);
        if i > 0 {
            push_char(&mut out, ',');
        }
        out.append(names[i].as_str());
        proof {
            let next = string_views(names@.take(i as int + 1));
            assert(next.last() == names@[i as int]@);
            if i == 0 {
                assert(out@ =~= next[0]);
            } else {
                assert(out@ =~= join_commas(prev) + seq![','] + next.last());
            }
        }
        i += 1;
    }
    assert(names@.take(i as int) =~= names@);
    out
}

} // verus!
