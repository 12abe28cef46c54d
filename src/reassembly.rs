//! Reassembly of two-part messages from their fragments.

use vstd::prelude::*;
use crate::bits::MAX_BITS;
use crate::decode::{decode_payload, decodes_to, DecodedRecord};
use crate::fragment::{MessageClass, TaggedFragment};
use crate::text::{chars_of, string_of};

verus! {

/// A map from group tag to a string, held in a `hashbrown::HashMap`.
#[verifier::external_body]
pub struct GroupCache {
    map: hashbrown::HashMap<String, String>,
}

/// The entries of a cache, by the characters of key and value.
pub uninterp spec fn cache_entries(c: GroupCache) -> Map<Seq<char>, Seq<char>>;

/// Relies on `hashbrown::HashMap::new`: the map starts empty.
#[verifier::external_body]
fn cache_new() -> (r: GroupCache)
    ensures
        cache_entries(r).dom() == Set::<Seq<char>>::empty(),
{
    GroupCache { map: hashbrown::HashMap::new() }
}

/// Relies on `hashbrown::HashMap::insert`: the key maps to the value afterwards, and
/// no other entry changes.
#[verifier::external_body]
fn cache_insert(c: &mut GroupCache, key: String, value: String)
    ensures
        cache_entries(*final(c)) == cache_entries(*old(c)).insert(key@, value@),
{
    c.map.insert(key, value);
}

/// Relies on `hashbrown::HashMap::contains_key`: whether the key has an entry.
#[verifier::external_body]
fn cache_contains(c: &GroupCache, key: &str) -> (r: bool)
    ensures
        r == cache_entries(*c).contains_key(key@),
{
    c.map.contains_key(key)
}

/// Relies on `hashbrown::HashMap::remove`: the key's entry is taken out and its value
/// returned, or `None` where there was none.
#[verifier::external_body]
fn cache_remove(c: &mut GroupCache, key: &str) -> (r: Option<String>)
    ensures
        cache_entries(*final(c)) == cache_entries(*old(c)).remove(key@),
        cache_entries(*old(c)).contains_key(key@) ==> r.is_some() && r.unwrap()@ == cache_entries(
            *old(c),
        )[key@],
        !cache_entries(*old(c)).contains_key(key@) ==> r.is_none(),
{
    c.map.remove(key)
}

/// The longest payload a fragment may carry, so that two of them still unpack.
pub const MAX_PAYLOAD_CHARS: usize = MAX_BITS / 12;

/// The three caches of a reassembler, by group tag.
pub struct CacheView {
    pub payloads: Map<Seq<char>, Seq<char>>,
    pub acquired: Map<Seq<char>, Seq<char>>,
    pub sources: Map<Seq<char>, Seq<char>>,
}

/// The last four characters of a group tag, or empty when it is shorter than four.
pub open spec fn last_four(g: Seq<char>) -> Seq<char> {
    if g.len() > 3 {
        g.subrange(g.len() - 4, g.len() as int)
    } else {
        Seq::empty()
    }
}

/// The key of the first part of the group `g` belongs to: `1-2-` and its last four.
pub open spec fn first_part_key(g: Seq<char>) -> Seq<char> {
    seq!['1', '-', '2', '-'] + last_four(g)
}

/// The key of the second part: `2-2-` and the last four.
pub open spec fn second_part_key(g: Seq<char>) -> Seq<char> {
    seq!['2', '-', '2', '-'] + last_four(g)
}

/// The caches once a fragment is stored: its payload always, its acquisition time
/// and source only when not empty.
pub open spec fn with_fragment(
    v: CacheView,
    group: Seq<char>,
    payload: Seq<char>,
    acquired: Seq<char>,
    source: Seq<char>,
) -> CacheView {
    CacheView {
        payloads: v.payloads.insert(group, payload),
        acquired: if acquired.len() > 0 {
            v.acquired.insert(group, acquired)
        } else {
            v.acquired
        },
        sources: if source.len() > 0 {
            v.sources.insert(group, source)
        } else {
            v.sources
        },
    }
}

/// Whether both parts of the group `g` belongs to have a payload.
pub open spec fn is_complete(v: CacheView, g: Seq<char>) -> bool {
    v.payloads.contains_key(first_part_key(g)) && v.payloads.contains_key(second_part_key(g))
}

/// The caches with both parts of the group `g` belongs to removed from all three.
pub open spec fn without_group(v: CacheView, g: Seq<char>) -> CacheView {
    let k1 = first_part_key(g);
    let k2 = second_part_key(g);
    CacheView {
        payloads: v.payloads.remove(k1).remove(k2),
        acquired: v.acquired.remove(k1).remove(k2),
        sources: v.sources.remove(k1).remove(k2),
    }
}

/// Whether storing this fragment completes its group.
pub open spec fn completes(
    v: CacheView,
    group: Seq<char>,
    payload: Seq<char>,
    acquired: Seq<char>,
    source: Seq<char>,
) -> bool {
    is_complete(with_fragment(v, group, payload, acquired, source), group)
}

/// The caches after a fragment arrives.
pub open spec fn after_fragment(
    v: CacheView,
    group: Seq<char>,
    payload: Seq<char>,
    acquired: Seq<char>,
    source: Seq<char>,
) -> CacheView {
    let w = with_fragment(v, group, payload, acquired, source);
    if is_complete(w, group) {
        without_group(w, group)
    } else {
        w
    }
}

/// The value at `k`, or empty.
pub open spec fn value_or_empty(m: Map<Seq<char>, Seq<char>>, k: Seq<char>) -> Seq<char> {
    if m.contains_key(k) {
        m[k]
    } else {
        Seq::empty()
    }
}

/// Every cached payload fits `MAX_PAYLOAD_CHARS`.
pub open spec fn payloads_bounded(v: CacheView) -> bool {
    forall|k: Seq<char>| #[trigger]
        v.payloads.contains_key(k) ==> v.payloads[k].len() <= MAX_PAYLOAD_CHARS
}

/// The last four characters of `text`, or empty when it is shorter than four.
pub fn last_four_characters(text: &str) -> (r: String)
    ensures
        r@ == last_four(text@),
{
    let s = chars_of(text);
    let n = s.len();
    let mut out: Vec<char> = Vec::new();
    if n > 3 {
        let mut i: usize = n - 4;
        while i < n
            invariant
                s@ == text@,
                n == s@.len(),
                n >= 4,
                n - 4 <= i <= n,
                out@ == s@.subrange(n - 4, i as int),
            decreases n - i,
        {
            out.push(s[i]);
            i = i + 1;
            assert(out@ =~= s@.subrange(n - 4, i as int));
        }
    }
    string_of(&out)
}

fn part_key(part: char, last: &str) -> (r: String)
    ensures
        r@ == seq![part, '-', '2', '-'] + last@,
{
    let tail = chars_of(last);
    let mut out: Vec<char> = vec![part, '-', '2', '-'];
    let mut i: usize = 0;
    while i < tail.len()
        invariant
            tail@ == last@,
            i <= tail@.len(),
            out@ == seq![part, '-', '2', '-'] + tail@.take(i as int),
        decreases tail.len() - i,
    {
        out.push(tail[i]);
        i = i + 1;
        assert(out@ =~= seq![part, '-', '2', '-'] + tail@.take(i as int));
    }
    assert(tail@.take(tail@.len() as int) =~= tail@);
    string_of(&out)
}

/// The single owner of the three correlation caches (payload, acquisition time and
/// source by group tag). Entries stay until their group completes.
pub struct Reassembler {
    payloads: GroupCache,
    acquired: GroupCache,
    sources: GroupCache,
}

impl View for Reassembler {
    type V = CacheView;

    closed spec fn view(&self) -> CacheView {
        CacheView {
            payloads: cache_entries(self.payloads),
            acquired: cache_entries(self.acquired),
            sources: cache_entries(self.sources),
        }
    }
}

fn take_or_empty(c: &mut GroupCache, key: &str) -> (r: String)
    ensures
        cache_entries(*final(c)) == cache_entries(*old(c)).remove(key@),
        r@ == value_or_empty(cache_entries(*old(c)), key@),
{
    match cache_remove(c, key) {
        Some(v) => v,
        None => String::new(),
    }
}

impl Reassembler {
    /// A reassembler with empty caches.
    pub fn new() -> (r: Reassembler)
        ensures
            r@.payloads.dom() == Set::<Seq<char>>::empty(),
            r@.acquired.dom() == Set::<Seq<char>>::empty(),
            r@.sources.dom() == Set::<Seq<char>>::empty(),
    {
        Reassembler { payloads: cache_new(), acquired: cache_new(), sources: cache_new() }
    }

    /// Stores a fragment under its group tag. When both parts of its group
    /// (`1-2-` and `2-2-` with the tag's last four characters) then have a payload,
    /// removes both from every cache and returns the record decoded from the first
    /// payload followed by the second, with the first part's acquisition time and
    /// source (empty where it had none) and this fragment's other header fields.
    pub fn accept(&mut self, fragment: TaggedFragment) -> (r: Option<DecodedRecord>)
        requires
            payloads_bounded(old(self)@),
            fragment.raw_payload@.len() <= MAX_PAYLOAD_CHARS,
        ensures
            ({
                let g = fragment.group@;
                let w = with_fragment(
                    old(self)@,
                    g,
                    fragment.raw_payload@,
                    fragment.satellite_acquisition_time@,
                    fragment.source@,
                );
                let k1 = first_part_key(g);
                let k2 = second_part_key(g);
                &&& final(self)@ == after_fragment(
                    old(self)@,
                    g,
                    fragment.raw_payload@,
                    fragment.satellite_acquisition_time@,
                    fragment.source@,
                )
                &&& payloads_bounded(final(self)@)
                &&& r.is_some() == is_complete(w, g)
                &&& r.is_some() ==> decodes_to(
                    r.unwrap(),
                    fragment.landfall_time@,
                    g,
                    value_or_empty(w.acquired, k1),
                    value_or_empty(w.sources, k1),
                    fragment.channel@,
                    w.payloads[k1] + w.payloads[k2],
                    MessageClass::Multiline,
                )
            }),
    {
        let ghost g = fragment.group@;
        cache_insert(&mut self.payloads, fragment.group.clone(), fragment.raw_payload.clone());
        if !fragment.satellite_acquisition_time.as_str().is_empty() {
            cache_insert(
                &mut self.acquired,
                fragment.group.clone(),
                fragment.satellite_acquisition_time.clone(),
            );
        }
        if !fragment.source.as_str().is_empty() {
            cache_insert(&mut self.sources, fragment.group.clone(), fragment.source.clone());
        }
        let ghost w = self@;
        assert(w == with_fragment(
            old(self)@,
            g,
            fragment.raw_payload@,
            fragment.satellite_acquisition_time@,
            fragment.source@,
        ));
        assert(payloads_bounded(w));
        let last = last_four_characters(fragment.group.as_str());
        let k1 = part_key('1', last.as_str());
        let k2 = part_key('2', last.as_str());
        assert(k1@ == first_part_key(g));
        assert(k2@ == second_part_key(g));
        if cache_contains(&self.payloads, k1.as_str()) && cache_contains(
            &self.payloads,
            k2.as_str(),
        ) {
            let first = take_or_empty(&mut self.payloads, k1.as_str());
            let second = take_or_empty(&mut self.payloads, k2.as_str());
            let acquired = take_or_empty(&mut self.acquired, k1.as_str());
            let _ = take_or_empty(&mut self.acquired, k2.as_str());
            let source = take_or_empty(&mut self.sources, k1.as_str());
            let _ = take_or_empty(&mut self.sources, k2.as_str());
            assert(!(k1@ =~= k2@)) by {
                assert(k1@[0] != k2@[0]);
            }
            assert(self@ == without_group(w, g));
            let payload = first.concat(second.as_str());
            let assembled = TaggedFragment {
                landfall_time: fragment.landfall_time,
                group: fragment.group,
                satellite_acquisition_time: acquired,
                source,
                channel: fragment.channel,
                raw_payload: payload,
                message_class: MessageClass::Multiline,
            };
            Some(decode_payload(assembled))
        } else {
            None
        }
    }
}

} // verus!
