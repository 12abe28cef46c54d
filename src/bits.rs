//! Six-bit ASCII armor and MSB-first bit-field extraction.

use vstd::prelude::*;
use bitvec::vec::BitVec;

verus! {

/// The most bits a `BitVec` can hold (`BitSlice::MAX_BITS` for a `usize` store).
pub const MAX_BITS: usize = usize::MAX >> 3;

/// A payload's bits, held in a `BitVec` (`usize` store, `Lsb0` order).
#[verifier::external_body]
pub struct PayloadBits {
    inner: BitVec,
}

/// The bits a `BitVec` holds, first bit first.
pub uninterp spec fn bits_of(v: PayloadBits) -> Seq<bool>;

/// Relies on `BitVec::with_capacity`: the new vector is empty; it panics past `MAX_BITS`.
#[verifier::external_body]
fn empty_bits(capacity: usize) -> (r: PayloadBits)
    requires
        capacity <= MAX_BITS,
    ensures
        bits_of(r) == Seq::<bool>::empty(),
{
    PayloadBits { inner: BitVec::with_capacity(capacity) }
}

/// Relies on `BitVec::push`: appends one bit at the end; it panics past `MAX_BITS`.
#[verifier::external_body]
fn push_bit(v: &mut PayloadBits, b: bool)
    requires
        bits_of(*old(v)).len() < MAX_BITS,
    ensures
        bits_of(*final(v)) == bits_of(*old(v)).push(b),
{
    v.inner.push(b)
}

/// Relies on `BitSlice::get` with a `usize` index: the bit there, or `None` past the end.
#[verifier::external_body]
fn bit_at(v: &PayloadBits, i: usize) -> (r: Option<bool>)
    ensures
        i < bits_of(*v).len() ==> r == Some(bits_of(*v)[i as int]),
        i >= bits_of(*v).len() ==> r.is_none(),
{
    v.inner.get(i).map(|b| *b)
}

} // verus!

verus! {

/// `2^n`.
pub open spec fn two_pow(n: nat) -> nat
    decreases n,
{
    if n == 0 {
        1
    } else {
        2 * two_pow((n - 1) as nat)
    }
}

/// The six-bit value an armored payload character stands for: its code (as a byte)
/// less 48, less 8 more when that exceeds 40, kept to its low six bits.
pub open spec fn sixbit(c: char) -> nat {
    let code = (c as u32 as int) % 256;
    let v = if code >= 48 { code - 48 } else { code + 208 };
    let w = if v > 40 { v - 8 } else { v };
    (w % 64) as nat
}

/// Bit `j` (0 = most significant) of a six-bit value.
pub open spec fn sixbit_bit(v: nat, j: int) -> bool {
    (v / two_pow((5 - j) as nat)) % 2 == 1
}

/// The bits a payload unpacks to: six per character, most significant first.
pub open spec fn payload_bits(p: Seq<char>) -> Seq<bool> {
    Seq::new(6 * p.len(), |k: int| sixbit_bit(sixbit(p[k / 6]), k % 6))
}

/// Bit `i` as 0 or 1; a position outside the sequence reads as 0.
pub open spec fn bit_value(bits: Seq<bool>, i: int) -> nat {
    if 0 <= i < bits.len() && bits[i] {
        1
    } else {
        0
    }
}

/// The unsigned integer formed by `len` bits from `off`, most significant first.
pub open spec fn unsigned_field(bits: Seq<bool>, off: int, len: nat) -> nat
    decreases len,
{
    if len == 0 {
        0
    } else {
        2 * unsigned_field(bits, off, (len - 1) as nat) + bit_value(bits, off + len - 1)
    }
}

/// The same bits read as a two's-complement integer `len` bits wide.
pub open spec fn signed_field(bits: Seq<bool>, off: int, len: nat) -> int {
    let u = unsigned_field(bits, off, len);
    if len > 0 && u >= two_pow((len - 1) as nat) {
        u - two_pow(len)
    } else {
        u as int
    }
}

pub proof fn lemma_two_pow_grows(a: nat, b: nat)
    requires
        a <= b,
    ensures
        1 <= two_pow(a) <= two_pow(b),
    decreases b,
{
    if b > a {
        lemma_two_pow_grows(a, (b - 1) as nat);
    } else if b > 0 {
        lemma_two_pow_grows(0, (b - 1) as nat);
    }
}

pub proof fn lemma_unsigned_field_bound(bits: Seq<bool>, off: int, len: nat)
    ensures
        unsigned_field(bits, off, len) < two_pow(len),
    decreases len,
{
    if len > 0 {
        lemma_unsigned_field_bound(bits, off, (len - 1) as nat);
    }
}

pub proof fn lemma_two_pow_64()
    ensures
        two_pow(64) == 0x1_0000_0000_0000_0000,
{
    reveal_with_fuel(two_pow, 65);
}

/// Unpacks an armored payload into its bits, six per character, most significant first.
pub fn unpack(payload: &str) -> (r: PayloadBits)
    requires
        6 * payload@.len() <= MAX_BITS,
    ensures
        bits_of(r) == payload_bits(payload@),
{
    let chars = crate::text::chars_of(payload);
    let n = chars.len();
    let mut out = empty_bits(6 * n);
    let mut i: usize = 0;
    while i < n
        invariant
            chars@ == payload@,
            n == chars@.len(),
            6 * n <= MAX_BITS,
            i <= n,
            bits_of(out) == payload_bits(payload@).subrange(0, 6 * i as int),
        decreases n - i,
    {
        let c = chars[i];
        let code32: u32 = (c as u32) % 256;
        let code: u8 = code32 as u8;
        let v: u8 = if code >= 48 { code - 48 } else { code + 208 };
        let w: u8 = if v > 40 { v - 8 } else { v };
        let value: u8 = w % 64;
        assert(value as nat == sixbit(c));
        let mut div: u8 = 32;
        let mut j: usize = 0;
        proof {
            reveal_with_fuel(two_pow, 6);
        }
        while j < 6
            invariant
                chars@ == payload@,
                n == chars@.len(),
                6 * n <= MAX_BITS,
                i < n,
                j <= 6,
                c == payload@[i as int],
                value as nat == sixbit(c),
                div as nat == two_pow((5 - j) as nat) || (j == 6 && div == 0),
                bits_of(out) == payload_bits(payload@).subrange(0, 6 * i + j),
            decreases 6 - j,
        {
            proof {
                reveal_with_fuel(two_pow, 6);
            }
            let b = (value / div) % 2 == 1;
            let ghost k = 6 * i + j;
            assert(k / 6 == i as int && k % 6 == j as int) by (nonlinear_arith)
                requires
                    k == 6 * i + j,
                    j < 6,
            ;
            push_bit(&mut out, b);
            assert(bits_of(out) =~= payload_bits(payload@).subrange(0, 6 * i + j + 1));
            div = div / 2;
            j = j + 1;
        }
        i = i + 1;
    }
    assert(payload_bits(payload@).subrange(0, 6 * n as int) =~= payload_bits(payload@));
    out
}

/// Reads `length` bits from `offset`, most significant first, as an unsigned integer;
/// bits past the end read as 0.
pub fn read_unsigned(bits: &PayloadBits, offset: usize, length: usize) -> (r: u64)
    requires
        length <= 64,
        offset + length <= usize::MAX,
    ensures
        r == unsigned_field(bits_of(*bits), offset as int, length as nat),
{
    let mut res: u64 = 0;
    let mut k: usize = 0;
    while k < length
        invariant
            length <= 64,
            offset + length <= usize::MAX,
            k <= length,
            res == unsigned_field(bits_of(*bits), offset as int, k as nat),
        decreases length - k,
    {
        proof {
            lemma_unsigned_field_bound(bits_of(*bits), offset as int, k as nat);
            lemma_two_pow_grows((k + 1) as nat, 64);
            lemma_two_pow_64();
        }
        let b: u64 = match bit_at(bits, offset + k) {
            Some(true) => 1,
            _ => 0,
        };
        res = res * 2 + b;
        k = k + 1;
    }
    res
}

/// `2^n` as a `u64`.
fn two_pow_u64(n: usize) -> (r: u64)
    requires
        n < 64,
    ensures
        r == two_pow(n as nat),
{
    let mut r: u64 = 1;
    let mut i: usize = 0;
    while i < n
        invariant
            i <= n < 64,
            r == two_pow(i as nat),
        decreases n - i,
    {
        proof {
            lemma_two_pow_grows((i + 1) as nat, 63);
            lemma_two_pow_64();
            assert(two_pow(64) == 2 * two_pow(63));
        }
        r = r * 2;
        i = i + 1;
    }
    r
}

/// Reads `length` bits from `offset` as a two's-complement integer `length` bits wide;
/// bits past the end read as 0.
pub fn read_signed(bits: &PayloadBits, offset: usize, length: usize) -> (r: i64)
    requires
        1 <= length <= 64,
        offset + length <= usize::MAX,
    ensures
        r == signed_field(bits_of(*bits), offset as int, length as nat),
{
    let u = read_unsigned(bits, offset, length);
    let sign = two_pow_u64(length - 1);
    proof {
        lemma_unsigned_field_bound(bits_of(*bits), offset as int, length as nat);
        lemma_two_pow_64();
        assert(two_pow(64) == 2 * two_pow(63));
        lemma_two_pow_grows((length - 1) as nat, 63);
        assert(two_pow(length as nat) == 2 * two_pow((length - 1) as nat));
    }
    if u >= sign {
        // u - 2^length, written so that no step leaves i64 even at width 64.
        let low: u64 = u - sign;
        let below: i64 = (sign - 1 - low) as i64;
        -below - 1
    } else {
        u as i64
    }
}

} // verus!

verus! {

/// The character a six-bit text value stands for: 0–31 map to code points 64–95,
/// 32–63 to themselves.
pub open spec fn text_char(v: nat) -> char {
    if v < 32 {
        (64 + v) as u32 as char
    } else {
        v as u32 as char
    }
}

/// Up to `n` six-bit characters from `off`, stopping before the first zero value.
pub open spec fn raw_text(bits: Seq<bool>, off: int, n: nat) -> Seq<char>
    decreases n,
{
    if n == 0 {
        Seq::empty()
    } else {
        let v = unsigned_field(bits, off, 6);
        if v == 0 {
            Seq::empty()
        } else {
            seq![text_char(v)] + raw_text(bits, off + 6, (n - 1) as nat)
        }
    }
}

/// `s` without its trailing blanks.
pub open spec fn trim_trailing_blanks(s: Seq<char>) -> Seq<char>
    decreases s.len(),
{
    if s.len() > 0 && s.last() == ' ' {
        trim_trailing_blanks(s.drop_last())
    } else {
        s
    }
}

/// The text field of `n` characters at `off`, trailing blanks removed.
pub open spec fn text_field(bits: Seq<bool>, off: int, n: nat) -> Seq<char> {
    trim_trailing_blanks(raw_text(bits, off, n))
}

/// Decodes up to `max_chars` six-bit characters from `offset` (a zero value ends the
/// text) and trims trailing blanks; bits past the end read as 0.
pub fn read_text(bits: &PayloadBits, offset: usize, max_chars: usize) -> (r: String)
    requires
        offset + 6 * max_chars <= usize::MAX,
    ensures
        r@ == text_field(bits_of(*bits), offset as int, max_chars as nat),
{
    let ghost all = bits_of(*bits);
    let mut out: Vec<char> = Vec::new();
    let mut i: usize = 0;
    let mut done = false;
    while i < max_chars && !done
        invariant
            offset + 6 * max_chars <= usize::MAX,
            i <= max_chars,
            all == bits_of(*bits),
            !done ==> out@ + raw_text(all, offset + 6 * i, (max_chars - i) as nat) == raw_text(
                all,
                offset as int,
                max_chars as nat,
            ),
            done ==> out@ == raw_text(all, offset as int, max_chars as nat),
        decreases max_chars - i + if done { 0int } else { 1int },
    {
        let v = read_unsigned(bits, offset + 6 * i, 6);
        proof {
            lemma_unsigned_field_bound(all, offset + 6 * i, 6);
            reveal_with_fuel(two_pow, 7);
        }
        if v == 0 {
            assert(out@ + Seq::<char>::empty() =~= out@);
            done = true;
        } else {
            let ch: char = if v < 32 {
                ((64 + v) as u8) as char
            } else {
                (v as u8) as char
            };
            assert(ch == text_char(v as nat));
            let ghost before = out@;
            out.push(ch);
            assert(before + raw_text(all, offset + 6 * i, (max_chars - i) as nat) =~= out@
                + raw_text(all, offset + 6 * (i + 1), (max_chars - (i + 1)) as nat));
            i = i + 1;
        }
    }
    if !done {
        assert(out@ + Seq::<char>::empty() =~= out@);
    }
    while out.len() > 0 && out[out.len() - 1] == ' '
        invariant
            trim_trailing_blanks(out@) == trim_trailing_blanks(
                raw_text(all, offset as int, max_chars as nat),
            ),
        decreases out.len(),
    {
        let ghost before = out@;
        out.pop();
        assert(out@ =~= before.drop_last());
    }
    crate::text::string_of(&out)
}

} // verus!
