//! Decimal text for integers, as the renderings of matrices and counters need it.
use vstd::prelude::*;
use vstd::string::*;

verus! {

/// The character for the digit `d`.
pub open spec fn digit_char(d: int) -> char {
    if d == 0 {
        '0'
    } else if d == 1 {
        '1'
    } else if d == 2 {
        '2'
    } else if d == 3 {
        '3'
    } else if d == 4 {
        '4'
    } else if d == 5 {
        '5'
    } else if d == 6 {
        '6'
    } else if d == 7 {
        '7'
    } else if d == 8 {
        '8'
    } else {
        '9'
    }
}

/// The decimal digits of `n`, most significant first, without leading zeros.
pub open spec fn digits(n: nat) -> Seq<char>
    decreases n,
{
    if n < 10 {
        seq![digit_char(n as int)]
    } else {
        digits(n / 10).push(digit_char((n % 10) as int))
    }
}

/// `v` in decimal, with a leading `-` where it is negative.
pub open spec fn decimal_text(v: int) -> Seq<char> {
    if v < 0 {
        seq!['-'] + digits((-v) as nat)
    } else {
        digits(v as nat)
    }
}

/// The parts one after another, with `sep` between each two neighbours.
pub open spec fn joined(parts: Seq<Seq<char>>, sep: Seq<char>) -> Seq<char>
    decreases parts.len(),
{
    if parts.len() == 0 {
        Seq::empty()
    } else if parts.len() == 1 {
        parts[0]
    } else {
        joined(parts.drop_last(), sep) + sep + parts.last()
    }
}

/// What has been written once the first `k` of `parts` are out: the parts
/// joined, and the separator already in place where more parts follow.
pub open spec fn joined_so_far(parts: Seq<Seq<char>>, sep: Seq<char>, k: int) -> Seq<char> {
    joined(parts.take(k), sep) + (if 0 < k < parts.len() {
        sep
    } else {
        Seq::empty()
    })
}

/// Writing part `k` after the first `k` parts, and the separator where it is
/// not the last, gives the first `k + 1` parts written.
pub proof fn lemma_joined_step(parts: Seq<Seq<char>>, sep: Seq<char>, k: int)
    requires
        0 <= k < parts.len(),
    ensures
        joined_so_far(parts, sep, k + 1) == joined_so_far(parts, sep, k) + parts[k] + (if k + 1
            < parts.len() {
            sep
        } else {
            Seq::empty()
        }),
{
    let next = parts.take(k + 1);
    assert(next.drop_last() =~= parts.take(k));
    assert(next.last() == parts[k]);
    if k == 0 {
        assert(parts.take(0).len() == 0);
        assert(joined(next, sep) =~= parts[0]);
        assert(joined_so_far(parts, sep, 0) =~= Seq::<char>::empty());
    } else {
        assert(joined(next, sep) =~= joined(parts.take(k), sep) + sep + parts[k]);
    }
    assert(joined_so_far(parts, sep, k + 1) =~= joined_so_far(parts, sep, k) + parts[k] + (if k + 1
        < parts.len() {
        sep
    } else {
        Seq::empty()
    }));
}

fn digit_str(d: u64) -> (s: &'static str)
    requires
        d < 10,
    ensures
        s@ == seq![digit_char(d as int)],
{
    proof {
        reveal_strlit("0");
        reveal_strlit("1");
        reveal_strlit("2");
        reveal_strlit("3");
        reveal_strlit("4");
        reveal_strlit("5");
        reveal_strlit("6");
        reveal_strlit("7");
        reveal_strlit("8");
        reveal_strlit("9");
    }
    let s = if d == 0 {
        "0"
    } else if d == 1 {
        "1"
    } else if d == 2 {
        "2"
    } else if d == 3 {
        "3"
    } else if d == 4 {
        "4"
    } else if d == 5 {
        "5"
    } else if d == 6 {
        "6"
    } else if d == 7 {
        "7"
    } else if d == 8 {
        "8"
    } else {
        "9"
    };
    assert(s@ =~= seq![digit_char(d as int)]);
    s
}

/// Appends `n` in decimal to `out`.
pub fn push_natural(out: &mut String, n: u64)
    ensures
        final(out)@ == old(out)@ + digits(n as nat),
    decreases n,
{
    if n >= 10 {
        push_natural(out, n / 10);
    }
    out.append(digit_str(n % 10));
    assert(final(out)@ =~= old(out)@ + digits(n as nat));
}

/// Appends `v` in decimal to `out`.
pub fn push_decimal(out: &mut String, v: i64)
    ensures
        final(out)@ == old(out)@ + decimal_text(v as int),
{
    if v < 0 {
        proof {
            reveal_strlit("-");
        }
        out.append("-");
        let magnitude: u64 = (-(v as i128)) as u64;
        push_natural(out, magnitude);
        assert(final(out)@ =~= old(out)@ + decimal_text(v as int));
    } else {
        push_natural(out, v as u64);
    }
}

/// `v` in decimal.
pub fn decimal(v: i64) -> (s: String)
    ensures
        s@ == decimal_text(v as int),
{
    let mut out = String::new();
    push_decimal(&mut out, v);
    assert(out@ =~= decimal_text(v as int));
    out
}

} // verus!
