use vstd::prelude::*;
use vstd::std_specs::iter::IteratorSpec;

verus! {

/// The characters of `s`, in order.
pub(crate) fn chars_of(s: &str) -> (r: Vec<char>)
    ensures
        r@ == s@,
{
    broadcast use vstd::string::axiom_spec_iter, vstd::string::next_postcondition;

    let mut it = s.chars();
    let mut out: Vec<char> = Vec::new();
    loop
        invariant
            out@ + it.remaining() == s@,
            it.decrease() is Some,
        ensures
            out@ == s@,
        decreases it.decrease()->0,
    {
        match it.next() {
            Some(c) => {
                let ghost before = out@;
                out.push(c);
                assert(out@ + it.remaining() =~= before + seq![c] + it.remaining());
            },
            None => {
                assert(out@ =~= s@);
                break ;
            },
        }
    }
    out
}

/// Relies on collecting `char`s into a `String`: the string holds them in order.
#[verifier::external_body]
pub(crate) fn string_of(v: &Vec<char>) -> (r: String)
    ensures
        r@ == v@,
{
    v.iter().collect()
}

} // verus!

verus! {

/// The ASCII digit for `d` (0–9).
pub open spec fn digit_char(d: nat) -> char {
    (48 + d) as u32 as char
}

/// Whether `c` is an ASCII digit.
pub open spec fn is_digit(c: char) -> bool {
    '0' <= c <= '9'
}

/// The decimal numeral of `n`, without leading zeros.
pub open spec fn decimal(n: nat) -> Seq<char>
    decreases n,
{
    if n < 10 {
        seq![digit_char(n)]
    } else {
        decimal(n / 10).push(digit_char(n % 10))
    }
}

/// Whether `s` is a non-empty run of ASCII digits.
pub open spec fn all_digits(s: Seq<char>) -> bool {
    s.len() > 0 && forall|i: int| 0 <= i < s.len() ==> is_digit(#[trigger] s[i])
}

/// The number a run of ASCII digits stands for.
pub open spec fn digits_value(s: Seq<char>) -> nat
    decreases s.len(),
{
    if s.len() == 0 {
        0
    } else {
        10 * digits_value(s.drop_last()) + (s.last() as u32 as nat - 48) as nat
    }
}

fn push_decimal(out: &mut Vec<char>, n: u64)
    ensures
        final(out)@ == old(out)@ + decimal(n as nat),
    decreases n,
{
    if n >= 10 {
        push_decimal(out, n / 10);
    }
    let d: u8 = (n % 10) as u8;
    out.push((48 + d) as char);
    assert(final(out)@ =~= old(out)@ + decimal(n as nat));
}

/// The decimal numeral of `n`.
pub fn decimal_string(n: u64) -> (r: String)
    ensures
        r@ == decimal(n as nat),
{
    let mut out: Vec<char> = Vec::new();
    push_decimal(&mut out, n);
    assert(out@ =~= decimal(n as nat));
    string_of(&out)
}

/// `min(digits_value(s), u64::MAX)` when `s` is a non-empty run of ASCII digits.
pub fn parse_digits_saturating(s: &str) -> (r: Option<u64>)
    ensures
        all_digits(s@) ==> r == Some(
            if digits_value(s@) < u64::MAX {
                digits_value(s@) as u64
            } else {
                u64::MAX
            },
        ),
        !all_digits(s@) ==> r.is_none(),
{
    let chars = chars_of(s);
    if chars.len() == 0 {
        return None;
    }
    let mut acc: u64 = 0;
    let mut i: usize = 0;
    while i < chars.len()
        invariant
            chars@ == s@,
            i <= chars@.len(),
            forall|k: int| 0 <= k < i ==> is_digit(#[trigger] chars@[k]),
            acc as nat == if digits_value(chars@.take(i as int)) < u64::MAX {
                digits_value(chars@.take(i as int))
            } else {
                u64::MAX as nat
            },
        decreases chars.len() - i,
    {
        let c = chars[i];
        if !('0' <= c && c <= '9') {
            return None;
        }
        let d: u64 = (c as u32 - 48) as u64;
        let ghost prev = digits_value(chars@.take(i as int));
        assert(chars@.take(i + 1).drop_last() =~= chars@.take(i as int));
        assert(digits_value(chars@.take(i + 1)) == 10 * prev + d);
        if acc > (u64::MAX - d) / 10 {
            assert(10 * prev + d >= u64::MAX) by (nonlinear_arith)
                requires
                    acc > (u64::MAX - d) / 10,
                    prev >= acc,
                    d <= 9,
            ;
            acc = u64::MAX;
        } else {
            assert(prev < u64::MAX);
            assert(10 * acc + d <= u64::MAX) by (nonlinear_arith)
                requires
                    acc <= (u64::MAX - d) / 10,
                    d <= 9,
            ;
            acc = acc * 10 + d;
        }
        i = i + 1;
    }
    assert(chars@.take(chars@.len() as int) =~= chars@);
    Some(acc)
}

} // verus!

verus! {

/// `t` with a `,` between each group of three characters, counted from the right.
pub open spec fn group_thousands(t: Seq<char>) -> Seq<char>
    decreases t.len(),
{
    if t.len() <= 3 {
        t
    } else {
        group_thousands(t.subrange(0, t.len() - 3)) + seq![','] + t.subrange(
            t.len() - 3,
            t.len() as int,
        )
    }
}

/// A numeral grouped by thousands, keeping a leading `-` in front.
pub open spec fn readable_spec(s: Seq<char>) -> Seq<char> {
    if s.len() > 0 && s[0] == '-' {
        seq!['-'] + group_thousands(s.drop_first())
    } else {
        group_thousands(s)
    }
}

fn push_grouped(t: &Vec<char>, end: usize, out: &mut Vec<char>)
    requires
        end <= t@.len(),
    ensures
        final(out)@ == old(out)@ + group_thousands(t@.take(end as int)),
    decreases end,
{
    let ghost p = t@.take(end as int);
    if end > 3 {
        push_grouped(t, end - 3, out);
        out.push(',');
        let mut i: usize = end - 3;
        let ghost mid = out@;
        while i < end
            invariant
                3 < end <= t@.len(),
                end - 3 <= i <= end,
                out@ == mid + t@.subrange(end - 3, i as int),
            decreases end - i,
        {
            out.push(t[i]);
            i = i + 1;
            assert(out@ =~= mid + t@.subrange(end - 3, i as int));
        }
        assert(p.subrange(0, p.len() - 3) =~= t@.take(end - 3));
        assert(p.subrange(p.len() - 3, p.len() as int) =~= t@.subrange(end - 3, end as int));
        assert(final(out)@ =~= old(out)@ + group_thousands(p));
    } else {
        let mut i: usize = 0;
        while i < end
            invariant
                end <= 3,
                end <= t@.len(),
                i <= end,
                out@ == old(out)@ + t@.take(i as int),
            decreases end - i,
        {
            out.push(t[i]);
            i = i + 1;
            assert(out@ =~= old(out)@ + t@.take(i as int));
        }
    }
}

/// Groups a numeral by thousands with commas (`-1234567` becomes `-1,234,567`).
pub fn readable(s: String) -> (r: String)
    requires
        s@.len() > 0,
    ensures
        r@ == readable_spec(s@),
{
    let chars = chars_of(s.as_str());
    let mut out: Vec<char> = Vec::new();
    if chars[0] == '-' {
        let mut rest: Vec<char> = Vec::new();
        let mut i: usize = 1;
        while i < chars.len()
            invariant
                1 <= i <= chars@.len(),
                rest@ == chars@.subrange(1, i as int),
            decreases chars.len() - i,
        {
            rest.push(chars[i]);
            i = i + 1;
            assert(rest@ =~= chars@.subrange(1, i as int));
        }
        out.push('-');
        push_grouped(&rest, rest.len(), &mut out);
        assert(rest@.take(rest@.len() as int) =~= s@.drop_first());
        assert(out@ =~= seq!['-'] + group_thousands(s@.drop_first()));
    } else {
        push_grouped(&chars, chars.len(), &mut out);
        assert(chars@.take(chars@.len() as int) =~= s@);
        assert(out@ =~= group_thousands(s@));
    }
    string_of(&out)
}

} // verus!
