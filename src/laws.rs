//! Properties of the decoder and of reassembly, stated over the models that the
//! executable functions' contracts use.

use vstd::prelude::*;
use vstd::arithmetic::div_mod::{lemma_div_denominator, lemma_fundamental_div_mod, lemma_mod_breakdown};
use crate::reassembly::{
    after_fragment, completes, first_part_key, last_four, second_part_key, CacheView,
};
use crate::bits::{
    bit_value, lemma_unsigned_field_bound, raw_text, text_char, lemma_two_pow_grows, payload_bits, signed_field, sixbit, sixbit_bit, text_field,
    trim_trailing_blanks, two_pow, unsigned_field,
};

verus! {

/// `u` modulo `2^w` as `w` bits, most significant first.
pub open spec fn encode_unsigned(u: nat, w: nat) -> Seq<bool>
    decreases w,
{
    if w == 0 {
        Seq::empty()
    } else {
        encode_unsigned(u / 2, (w - 1) as nat).push(u % 2 == 1)
    }
}

/// `v` in two's complement, `w` bits wide, most significant first.
pub open spec fn encode_signed(v: int, w: nat) -> Seq<bool> {
    let u = if v < 0 { v + two_pow(w) } else { v };
    encode_unsigned(u as nat, w)
}

proof fn lemma_first_bits(p: Seq<char>, k: nat)
    requires
        p.len() >= 1,
        k <= 6,
    ensures
        unsigned_field(payload_bits(p), 0, k) == sixbit(p[0]) / two_pow((6 - k) as nat),
    decreases k,
{
    let v = sixbit(p[0]);
    reveal_with_fuel(two_pow, 7);
    if k == 0 {
        assert(v < 64);
        assert(two_pow(6) == 64);
        assert(v / 64 == 0);
    } else {
        lemma_first_bits(p, (k - 1) as nat);
        let m = two_pow((6 - k) as nat);
        lemma_two_pow_grows(0, (6 - k) as nat);
        assert(two_pow((7 - k) as nat) == m * 2);
        lemma_div_denominator(v as int, m as int, 2);
        let j = k - 1;
        let bits = payload_bits(p);
        assert(j / 6 == 0 && j % 6 == j);
        assert(0 <= j < bits.len());
        assert(bits[j] == sixbit_bit(v, j));
        let y = v / m;
        assert(sixbit_bit(v, j) == (y % 2 == 1));
        assert(bit_value(bits, j) == y % 2);
        assert(unsigned_field(bits, 0, (k - 1) as nat) == y / 2);
        lemma_fundamental_div_mod(y as int, 2);
        assert(unsigned_field(bits, 0, k) == 2 * unsigned_field(bits, 0, (k - 1) as nat)
            + bit_value(bits, j));
        assert(unsigned_field(bits, 0, k) == y);
    }
}

/// The message type read from an unpacked payload (its first six bits) is the
/// six-bit value of the payload's first character.
pub proof fn lemma_message_type_from_first_char(p: Seq<char>)
    requires
        p.len() >= 7,
    ensures
        unsigned_field(payload_bits(p), 0, 6) == sixbit(p[0]),
{
    lemma_first_bits(p, 6);
    let v = sixbit(p[0]);
    assert(two_pow(0) == 1);
    assert(v / 1 == v) by (nonlinear_arith);
}

proof fn lemma_unsigned_field_push(s: Seq<bool>, b: bool, off: int, len: nat)
    requires
        0 <= off,
        off + len <= s.len(),
    ensures
        unsigned_field(s.push(b), off, len) == unsigned_field(s, off, len),
    decreases len,
{
    if len > 0 {
        lemma_unsigned_field_push(s, b, off, (len - 1) as nat);
    }
}

proof fn lemma_encode_unsigned(u: nat, w: nat)
    ensures
        encode_unsigned(u, w).len() == w,
        unsigned_field(encode_unsigned(u, w), 0, w) == u % two_pow(w),
    decreases w,
{
    if w > 0 {
        let s = encode_unsigned(u / 2, (w - 1) as nat);
        lemma_encode_unsigned(u / 2, (w - 1) as nat);
        lemma_unsigned_field_push(s, u % 2 == 1, 0, (w - 1) as nat);
        lemma_two_pow_grows(0, (w - 1) as nat);
        lemma_mod_breakdown(u as int, 2, two_pow((w - 1) as nat) as int);
    }
}

/// Encoding any `v` in `[-2^(w-1), 2^(w-1))` into `w` bits and reading them back as a
/// signed field gives `v`.
pub proof fn lemma_signed_round_trip(v: int, w: nat)
    requires
        w >= 1,
        -(two_pow((w - 1) as nat) as int) <= v < two_pow((w - 1) as nat),
    ensures
        signed_field(encode_signed(v, w), 0, w) == v,
{
    let h = two_pow((w - 1) as nat);
    assert(two_pow(w) == 2 * h);
    let u = if v < 0 { v + two_pow(w) } else { v };
    lemma_encode_unsigned(u as nat, w);
    assert((u as nat) % two_pow(w) == u) by {
        vstd::arithmetic::div_mod::lemma_small_mod(u as nat, two_pow(w));
    }
}

proof fn lemma_trim_has_no_trailing_blank(s: Seq<char>)
    ensures
        trim_trailing_blanks(s).len() > 0 ==> trim_trailing_blanks(s).last() != ' ',
    decreases s.len(),
{
    if s.len() > 0 && s.last() == ' ' {
        lemma_trim_has_no_trailing_blank(s.drop_last());
    }
}

/// Trimming a decoded text field again changes nothing.
pub proof fn lemma_text_trim_idempotent(bits: Seq<bool>, off: int, n: nat)
    ensures
        trim_trailing_blanks(text_field(bits, off, n)) == text_field(bits, off, n),
{
    lemma_trim_has_no_trailing_blank(crate::bits::raw_text(bits, off, n));
}

/// The group tag `<part>-2-<x>`.
pub open spec fn part_tag(part: char, x: Seq<char>) -> Seq<char> {
    seq![part, '-', '2'] + seq!['-'] + x
}

/// A fragment as reassembly sees it: group tag, payload, acquisition time, source.
pub type FragmentFields = (Seq<char>, Seq<char>, Seq<char>, Seq<char>);

/// The caches after fragments arrive in order.
pub open spec fn after_all(v: CacheView, frags: Seq<FragmentFields>) -> CacheView
    decreases frags.len(),
{
    if frags.len() == 0 {
        v
    } else {
        let f = frags.last();
        after_fragment(after_all(v, frags.drop_last()), f.0, f.1, f.2, f.3)
    }
}

proof fn lemma_part_tag_keys(x: Seq<char>)
    requires
        x.len() == 4,
    ensures
        first_part_key(part_tag('1', x)) == part_tag('1', x),
        second_part_key(part_tag('1', x)) == part_tag('2', x),
        first_part_key(part_tag('2', x)) == part_tag('1', x),
        second_part_key(part_tag('2', x)) == part_tag('2', x),
        part_tag('1', x) != part_tag('2', x),
{
    assert(last_four(part_tag('1', x)) =~= x);
    assert(last_four(part_tag('2', x)) =~= x);
    assert(first_part_key(part_tag('1', x)) =~= part_tag('1', x));
    assert(second_part_key(part_tag('1', x)) =~= part_tag('2', x));
    assert(first_part_key(part_tag('2', x)) =~= part_tag('1', x));
    assert(second_part_key(part_tag('2', x)) =~= part_tag('2', x));
    assert(part_tag('1', x)[0] != part_tag('2', x)[0]);
}

/// The two parts of a group complete it exactly once, in either order: the first
/// to arrive completes nothing, the second completes the group and removes both
/// parts from every cache, and a later part with the same tag starts a new entry.
pub proof fn lemma_pair_completes_once(
    v: CacheView,
    x: Seq<char>,
    first: FragmentFields,
    second: FragmentFields,
    third: FragmentFields,
)
    requires
        x.len() == 4,
        !v.payloads.contains_key(part_tag('1', x)),
        !v.payloads.contains_key(part_tag('2', x)),
        ({
            ||| first.0 == part_tag('1', x) && second.0 == part_tag('2', x)
            ||| first.0 == part_tag('2', x) && second.0 == part_tag('1', x)
        }),
        third.0 == first.0 || third.0 == second.0,
    ensures
        !completes(v, first.0, first.1, first.2, first.3),
        completes(
            after_fragment(v, first.0, first.1, first.2, first.3),
            second.0,
            second.1,
            second.2,
            second.3,
        ),
        ({
            let done = after_all(v, seq![first, second]);
            let again = after_all(v, seq![first, second, third]);
            &&& !done.payloads.contains_key(part_tag('1', x))
            &&& !done.payloads.contains_key(part_tag('2', x))
            &&& !done.acquired.contains_key(part_tag('1', x))
            &&& !done.acquired.contains_key(part_tag('2', x))
            &&& !done.sources.contains_key(part_tag('1', x))
            &&& !done.sources.contains_key(part_tag('2', x))
            &&& !completes(done, third.0, third.1, third.2, third.3)
            &&& again.payloads.contains_key(third.0)
            &&& again.payloads[third.0] == third.1
        }),
{
    lemma_part_tag_keys(x);
    reveal_with_fuel(after_all, 4);
    let s1 = seq![first, second];
    let s2 = seq![first, second, third];
    assert(s1.drop_last() =~= seq![first]);
    assert(seq![first].drop_last() =~= Seq::<FragmentFields>::empty());
    assert(s2.drop_last() =~= s1);
    assert(after_all(v, seq![first]) == after_fragment(v, first.0, first.1, first.2, first.3));
}

/// A part whose partner never arrives never completes, and its entry stays through
/// any sequence of later fragments that does not hold the partner.
pub proof fn lemma_unmatched_fragment_stays(
    v: CacheView,
    x: Seq<char>,
    lone: FragmentFields,
    later: Seq<FragmentFields>,
)
    requires
        x.len() == 4,
        lone.0 == part_tag('1', x),
        !v.payloads.contains_key(part_tag('2', x)),
        forall|i: int| 0 <= i < later.len() ==> (#[trigger] later[i]).0 != part_tag('2', x),
    ensures
        !completes(v, lone.0, lone.1, lone.2, lone.3),
        after_all(v, seq![lone] + later).payloads.contains_key(part_tag('1', x)),
        !after_all(v, seq![lone] + later).payloads.contains_key(part_tag('2', x)),
    decreases later.len(),
{
    lemma_part_tag_keys(x);
    let k1 = part_tag('1', x);
    let k2 = part_tag('2', x);
    reveal_with_fuel(after_all, 2);
    if later.len() == 0 {
        assert(seq![lone] + later =~= seq![lone]);
        assert(seq![lone].drop_last() =~= Seq::<FragmentFields>::empty());
    } else {
        let front = later.drop_last();
        lemma_unmatched_fragment_stays(v, x, lone, front);
        assert((seq![lone] + later).drop_last() =~= seq![lone] + front);
        let u = after_all(v, seq![lone] + front);
        let f = later.last();
        assert(f == later[later.len() - 1]);
        assert(f.0 != k2);
        lemma_step_keeps_unmatched(u, x, f);
    }
}

proof fn lemma_step_keeps_unmatched(u: CacheView, x: Seq<char>, f: FragmentFields)
    requires
        x.len() == 4,
        u.payloads.contains_key(part_tag('1', x)),
        !u.payloads.contains_key(part_tag('2', x)),
        f.0 != part_tag('2', x),
    ensures
        after_fragment(u, f.0, f.1, f.2, f.3).payloads.contains_key(part_tag('1', x)),
        !after_fragment(u, f.0, f.1, f.2, f.3).payloads.contains_key(part_tag('2', x)),
{
    lemma_part_tag_keys(x);
    let k1 = part_tag('1', x);
    let k2 = part_tag('2', x);
    let g = f.0;
    if first_part_key(g) == k1 {
        assert(first_part_key(g).subrange(4, 8) =~= last_four(g));
        assert(k1.subrange(4, 8) =~= x);
        assert(second_part_key(g) =~= k2);
    }
    if second_part_key(g) == k1 {
        assert(second_part_key(g)[0] == '2');
        assert(k1[0] == '1');
    }
}

/// A group tag of three characters or fewer has the parts `1-2-` and `2-2-`, so it
/// completes nothing unless fragments tagged exactly `1-2-` and `2-2-` are both cached.
pub proof fn lemma_short_group_never_completes(v: CacheView, f: FragmentFields)
    requires
        f.0.len() <= 3,
        !(v.payloads.contains_key(seq!['1', '-', '2', '-']) && v.payloads.contains_key(
            seq!['2', '-', '2', '-'],
        )),
    ensures
        !completes(v, f.0, f.1, f.2, f.3),
{
    assert(first_part_key(f.0) =~= seq!['1', '-', '2', '-']);
    assert(second_part_key(f.0) =~= seq!['2', '-', '2', '-']);
    assert(f.0 != seq!['1', '-', '2', '-']);
    assert(f.0 != seq!['2', '-', '2', '-']);
}

/// The six-bit code of a text character: its code point less 64 from `@` on, else
/// the code point itself.
pub open spec fn text_code(c: char) -> nat {
    let u = c as u32 as nat;
    if u >= 64 {
        (u - 64) as nat
    } else {
        u
    }
}

/// `s` encoded as six-bit text, each character's code most significant bit first.
pub open spec fn encode_text(s: Seq<char>) -> Seq<bool> {
    Seq::new(6 * s.len(), |k: int| sixbit_bit(text_code(s[k / 6]), k % 6))
}

/// Every character of `s` is the text character of a non-zero six-bit code.
pub open spec fn is_decoded_text(s: Seq<char>) -> bool {
    forall|i: int|
        0 <= i < s.len() ==> 1 <= text_code(#[trigger] s[i]) < 64 && text_char(text_code(s[i]))
            == s[i]
}

proof fn lemma_chunk_value(s: Seq<char>, i: int, k: nat)
    requires
        0 <= i < s.len(),
        text_code(s[i]) < 64,
        k <= 6,
    ensures
        unsigned_field(encode_text(s), 6 * i, k) == text_code(s[i]) / two_pow((6 - k) as nat),
    decreases k,
{
    let v = text_code(s[i]);
    reveal_with_fuel(two_pow, 7);
    if k == 0 {
        assert(v / 64 == 0);
    } else {
        lemma_chunk_value(s, i, (k - 1) as nat);
        let m = two_pow((6 - k) as nat);
        lemma_two_pow_grows(0, (6 - k) as nat);
        assert(two_pow((7 - k) as nat) == m * 2);
        lemma_div_denominator(v as int, m as int, 2);
        let j = 6 * i + k - 1;
        let bits = encode_text(s);
        assert(j / 6 == i && j % 6 == k - 1) by (nonlinear_arith)
            requires
                j == 6 * i + k - 1,
                1 <= k <= 6,
        ;
        assert(0 <= j < bits.len()) by (nonlinear_arith)
            requires
                j == 6 * i + k - 1,
                1 <= k <= 6,
                0 <= i < s.len(),
                bits.len() == 6 * s.len(),
        ;
        assert(bits[j] == sixbit_bit(v, k - 1));
        let y = v / m;
        assert(bit_value(bits, j) == y % 2);
        lemma_fundamental_div_mod(y as int, 2);
        assert(unsigned_field(bits, 6 * i, k) == 2 * unsigned_field(bits, 6 * i, (k - 1) as nat)
            + bit_value(bits, j));
    }
}

proof fn lemma_field_past_end(bits: Seq<bool>, off: int, len: nat)
    requires
        off >= bits.len(),
    ensures
        unsigned_field(bits, off, len) == 0,
    decreases len,
{
    if len > 0 {
        lemma_field_past_end(bits, off, (len - 1) as nat);
    }
}

proof fn lemma_raw_text_decoded(bits: Seq<bool>, off: int, n: nat)
    ensures
        raw_text(bits, off, n).len() <= n,
        is_decoded_text(raw_text(bits, off, n)),
    decreases n,
{
    if n > 0 {
        let v = unsigned_field(bits, off, 6);
        lemma_unsigned_field_bound(bits, off, 6);
        reveal_with_fuel(two_pow, 7);
        lemma_raw_text_decoded(bits, off + 6, (n - 1) as nat);
        if v != 0 {
            let c = text_char(v);
            assert(text_code(c) == v);
            let r = raw_text(bits, off, n);
            let rest = raw_text(bits, off + 6, (n - 1) as nat);
            assert forall|i: int| 0 <= i < r.len() implies 1 <= text_code(#[trigger] r[i]) < 64
                && text_char(text_code(r[i])) == r[i] by {
                if i > 0 {
                    assert(r[i] == rest[i - 1]);
                }
            }
        }
    }
}

proof fn lemma_trim_is_prefix(s: Seq<char>)
    ensures
        trim_trailing_blanks(s).len() <= s.len(),
        trim_trailing_blanks(s) == s.subrange(0, trim_trailing_blanks(s).len() as int),
    decreases s.len(),
{
    if s.len() > 0 && s.last() == ' ' {
        lemma_trim_is_prefix(s.drop_last());
    } else {
        assert(s.subrange(0, s.len() as int) =~= s);
    }
}

proof fn lemma_decode_encoded(s: Seq<char>, i: int, m: nat)
    requires
        is_decoded_text(s),
        0 <= i <= s.len(),
        s.len() - i <= m,
    ensures
        raw_text(encode_text(s), 6 * i, m) == s.subrange(i, s.len() as int),
    decreases m,
{
    let bits = encode_text(s);
    if m > 0 {
        if i < s.len() {
            lemma_chunk_value(s, i, 6);
            assert(two_pow(0) == 1);
            let v = text_code(s[i]);
            assert(v / 1 == v) by (nonlinear_arith);
            lemma_decode_encoded(s, i + 1, (m - 1) as nat);
            assert(6 * i + 6 == 6 * (i + 1));
            assert(seq![s[i]] + s.subrange(i + 1, s.len() as int) =~= s.subrange(
                i,
                s.len() as int,
            ));
        } else {
            lemma_field_past_end(bits, 6 * i, 6);
            assert(s.subrange(i, s.len() as int) =~= Seq::<char>::empty());
        }
    } else {
        assert(s.subrange(i, s.len() as int) =~= Seq::<char>::empty());
    }
}

/// Encoding a decoded text field again as six-bit text and decoding it with the same
/// character budget gives the same text back.
pub proof fn lemma_text_redecode(bits: Seq<bool>, off: int, n: nat)
    ensures
        text_field(encode_text(text_field(bits, off, n)), 0, n) == text_field(bits, off, n),
{
    let r = raw_text(bits, off, n);
    let s = text_field(bits, off, n);
    lemma_raw_text_decoded(bits, off, n);
    lemma_trim_is_prefix(r);
    assert forall|i: int| 0 <= i < s.len() implies 1 <= text_code(#[trigger] s[i]) < 64
        && text_char(text_code(s[i])) == s[i] by {
        assert(s[i] == r[i]);
    }
    lemma_decode_encoded(s, 0, n);
    assert(s.subrange(0, s.len() as int) =~= s);
    lemma_text_trim_idempotent(bits, off, n);
}

} // verus!
