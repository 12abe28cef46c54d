//! Sentences tagged with their routing and metadata fields.

use vstd::prelude::*;

verus! {

/// Whether a sentence carries a whole message or one part of a two-part group.
#[derive(Clone, Copy, Debug, PartialEq, Eq, Structural)]
pub enum MessageClass {
    Singleline,
    Multiline,
}

/// The fields read from one sentence, before its payload is decoded.
#[derive(Clone, Debug)]
pub struct TaggedFragment {
    /// Leading digits of the line: when a ground station received it.
    pub landfall_time: String,
    /// Group tag (digits and `-`); empty for a single-sentence message.
    pub group: String,
    /// Digits after `c:`: when the satellite acquired the message.
    pub satellite_acquisition_time: String,
    /// Token after `s:`.
    pub source: String,
    pub channel: String,
    /// The six-bit armored payload.
    pub raw_payload: String,
    pub message_class: MessageClass,
}

} // verus!

verus! {

/// The characters a tagged value may hold.
#[derive(Clone, Copy, Debug, PartialEq, Eq, Structural)]
pub enum CharClass {
    /// ASCII digits.
    Digits,
    /// ASCII digits and `-`.
    GroupChars,
    /// Unicode alphanumerics (`char::is_alphanumeric`), `-` and `_`.
    SourceChars,
}

pub open spec fn in_class(cls: CharClass, c: char) -> bool {
    match cls {
        CharClass::Digits => '0' <= c <= '9',
        CharClass::GroupChars => ('0' <= c <= '9') || c == '-',
        CharClass::SourceChars => alphanumeric(c) || c == '-' || c == '_',
    }
}

/// Whether `c` is alphabetic or numeric in Unicode's sense.
pub uninterp spec fn alphanumeric(c: char) -> bool;

/// Relies on `char::is_alphanumeric`: whether the character is Unicode alphabetic or
/// numeric, which depends on the character alone.
#[verifier::external_body]
fn is_alphanumeric(c: char) -> (r: bool)
    ensures
        r == alphanumeric(c),
{
    c.is_alphanumeric()
}

fn char_in_class(cls: CharClass, c: char) -> (r: bool)
    ensures
        r == in_class(cls, c),
{
    match cls {
        CharClass::Digits => '0' <= c && c <= '9',
        CharClass::GroupChars => ('0' <= c && c <= '9') || c == '-',
        CharClass::SourceChars => is_alphanumeric(c) || c == '-' || c == '_',
    }
}

/// Where the maximal run of `cls` characters that starts at `i` ends.
pub open spec fn run_end(s: Seq<char>, i: int, cls: CharClass) -> int
    decreases s.len() - i,
{
    if 0 <= i < s.len() && in_class(cls, s[i]) {
        run_end(s, i + 1, cls)
    } else {
        i
    }
}

/// The maximal run of `cls` characters that starts at `i`.
pub open spec fn run_at(s: Seq<char>, i: int, cls: CharClass) -> Seq<char> {
    s.subrange(i, run_end(s, i, cls))
}

/// The first position at or after `i` where `a` is followed by `b`, or -1.
pub open spec fn find_pair(s: Seq<char>, a: char, b: char, i: int) -> int
    decreases s.len() - i,
{
    if i < 0 || i + 1 >= s.len() {
        -1
    } else if s[i] == a && s[i + 1] == b {
        i
    } else {
        find_pair(s, a, b, i + 1)
    }
}

/// The run of `cls` characters right after the first `a` `b` (such as `c:`), or empty.
pub open spec fn tag_value(s: Seq<char>, a: char, b: char, cls: CharClass) -> Seq<char> {
    let p = find_pair(s, a, b, 0);
    if p < 0 {
        Seq::empty()
    } else {
        run_at(s, p + 2, cls)
    }
}

/// The comma-separated fields of `s` (one more than there are commas).
pub open spec fn split_commas(s: Seq<char>) -> Seq<Seq<char>>
    decreases s.len(),
{
    if s.len() == 0 {
        seq![Seq::empty()]
    } else {
        let r = split_commas(s.drop_last());
        if s.last() == ',' {
            r.push(Seq::empty())
        } else {
            r.update(r.len() - 1, r.last().push(s.last()))
        }
    }
}

/// The `k`-th comma-separated field counted from the end (1 is the last), or empty.
pub open spec fn field_from_end(s: Seq<char>, k: int) -> Seq<char> {
    let f = split_commas(s);
    if 1 <= k <= f.len() {
        f[f.len() - k]
    } else {
        Seq::empty()
    }
}

/// Leading digits of a line: when a ground station received it.
pub open spec fn landfall_of(line: Seq<char>) -> Seq<char> {
    run_at(line, 0, CharClass::Digits)
}

/// Digits after the first `c:`: when the satellite acquired the message.
pub open spec fn acquired_of(line: Seq<char>) -> Seq<char> {
    tag_value(line, 'c', ':', CharClass::Digits)
}

/// The token after the first `s:`.
pub open spec fn source_of(line: Seq<char>) -> Seq<char> {
    tag_value(line, 's', ':', CharClass::SourceChars)
}

/// Digits and `-` after the first `g:`: the group tag.
pub open spec fn group_of(line: Seq<char>) -> Seq<char> {
    tag_value(line, 'g', ':', CharClass::GroupChars)
}

/// The third-last comma-separated field.
pub open spec fn channel_of(line: Seq<char>) -> Seq<char> {
    field_from_end(line, 3)
}

/// The second-last comma-separated field.
pub open spec fn payload_of(line: Seq<char>) -> Seq<char> {
    field_from_end(line, 2)
}

/// Whether the marker `VDM` starts at `i`.
pub open spec fn marker_at(s: Seq<char>, i: int) -> bool {
    0 <= i && i + 2 < s.len() && s[i] == 'V' && s[i + 1] == 'D' && s[i + 2] == 'M'
}

/// Whether `s` holds the marker `VDM`.
pub open spec fn has_marker(s: Seq<char>) -> bool {
    exists|i: int| #[trigger] marker_at(s, i)
}

pub proof fn lemma_split_nonempty(s: Seq<char>)
    ensures
        split_commas(s).len() >= 1,
    decreases s.len(),
{
    if s.len() > 0 {
        lemma_split_nonempty(s.drop_last());
    }
}

proof fn lemma_run_end_bounds(s: Seq<char>, i: int, cls: CharClass)
    requires
        0 <= i <= s.len(),
    ensures
        i <= run_end(s, i, cls) <= s.len(),
    decreases s.len() - i,
{
    if i < s.len() && in_class(cls, s[i]) {
        lemma_run_end_bounds(s, i + 1, cls);
    }
}

/// Whether a line carries an AIS sentence: it holds `VDM`.
pub fn is_ais_sentence(line: &str) -> (r: bool)
    ensures
        r == has_marker(line@),
{
    let s = crate::text::chars_of(line);
    let mut i: usize = 0;
    while i < s.len() && s.len() - i > 2
        invariant
            s@ == line@,
            i <= s@.len(),
            forall|k: int| k < i ==> !#[trigger] marker_at(s@, k),
        decreases s.len() - i,
    {
        if s[i] == 'V' && s[i + 1] == 'D' && s[i + 2] == 'M' {
            assert(marker_at(s@, i as int));
            return true;
        }
        i = i + 1;
    }
    false
}

fn find_pair_exec(s: &Vec<char>, a: char, b: char) -> (r: Option<usize>)
    ensures
        r.is_some() ==> r.unwrap() == find_pair(s@, a, b, 0) && r.unwrap() + 1 < s@.len(),
        r.is_none() ==> find_pair(s@, a, b, 0) < 0,
{
    let mut i: usize = 0;
    while i < s.len() && s.len() - i > 1
        invariant
            i <= s@.len(),
            find_pair(s@, a, b, 0) == find_pair(s@, a, b, i as int),
        decreases s.len() - i,
    {
        if s[i] == a && s[i + 1] == b {
            return Some(i);
        }
        i = i + 1;
    }
    None
}

fn run_exec(s: &Vec<char>, start: usize, cls: CharClass) -> (r: Vec<char>)
    requires
        start <= s@.len(),
    ensures
        r@ == run_at(s@, start as int, cls),
{
    let mut out: Vec<char> = Vec::new();
    let mut j: usize = start;
    while j < s.len() && char_in_class(cls, s[j])
        invariant
            start <= j <= s@.len(),
            run_end(s@, start as int, cls) == run_end(s@, j as int, cls),
            out@ == s@.subrange(start as int, j as int),
        decreases s.len() - j,
    {
        out.push(s[j]);
        j = j + 1;
        assert(out@ =~= s@.subrange(start as int, j as int));
    }
    out
}

fn tag_exec(s: &Vec<char>, a: char, b: char, cls: CharClass) -> (r: Vec<char>)
    ensures
        r@ == tag_value(s@, a, b, cls),
{
    match find_pair_exec(s, a, b) {
        Some(p) => {
            assert(p + 1 < s.len());
            run_exec(s, p + 2, cls)
        },
        None => Vec::new(),
    }
}

/// Reads the routing fields of one sentence. Nothing is rejected: a field that is
/// absent is empty. The channel and payload are the third- and second-last
/// comma-separated fields; a group tag makes the sentence one part of a group.
pub fn tag_sentence(line: &str) -> (r: TaggedFragment)
    ensures
        r.landfall_time@ == landfall_of(line@),
        r.satellite_acquisition_time@ == acquired_of(line@),
        r.source@ == source_of(line@),
        r.group@ == group_of(line@),
        r.channel@ == channel_of(line@),
        r.raw_payload@ == payload_of(line@),
        r.message_class == if r.group@.len() == 0 {
            MessageClass::Singleline
        } else {
            MessageClass::Multiline
        },
{
    let s = crate::text::chars_of(line);
    let landfall = run_exec(&s, 0, CharClass::Digits);
    let acquired = tag_exec(&s, 'c', ':', CharClass::Digits);
    let source = tag_exec(&s, 's', ':', CharClass::SourceChars);
    let group = tag_exec(&s, 'g', ':', CharClass::GroupChars);
    let mut cur: Vec<char> = Vec::new();
    let mut prev1: Vec<char> = Vec::new();
    let mut prev2: Vec<char> = Vec::new();
    let mut commas: usize = 0;
    let mut i: usize = 0;
    assert(s@.take(0) =~= Seq::<char>::empty());
    while i < s.len()
        invariant
            s@ == line@,
            i <= s@.len(),
            commas <= i,
            ({
                let f = split_commas(s@.take(i as int));
                &&& f.len() == commas + 1
                &&& cur@ == f[f.len() - 1]
                &&& f.len() >= 2 ==> prev1@ == f[f.len() - 2]
                &&& f.len() >= 3 ==> prev2@ == f[f.len() - 3]
            }),
        decreases s.len() - i,
    {
        let c = s[i];
        assert(s@.take(i + 1).drop_last() =~= s@.take(i as int));
        if c == ',' {
            prev2 = prev1;
            prev1 = cur;
            cur = Vec::new();
            commas = commas + 1;
        } else {
            cur.push(c);
        }
        i = i + 1;
    }
    assert(s@.take(s@.len() as int) =~= s@);
    let raw_payload = if commas >= 1 {
        prev1
    } else {
        Vec::new()
    };
    let channel = if commas >= 2 {
        prev2
    } else {
        Vec::new()
    };
    let message_class = if group.len() == 0 {
        MessageClass::Singleline
    } else {
        MessageClass::Multiline
    };
    TaggedFragment {
        landfall_time: crate::text::string_of(&landfall),
        group: crate::text::string_of(&group),
        satellite_acquisition_time: crate::text::string_of(&acquired),
        source: crate::text::string_of(&source),
        channel: crate::text::string_of(&channel),
        raw_payload: crate::text::string_of(&raw_payload),
        message_class,
    }
}

} // verus!
