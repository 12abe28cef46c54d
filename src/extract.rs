//! What the extraction stage does with one input line.

use vstd::prelude::*;
use crate::decode::{decode_payload, decodes_to, DecodedRecord};
use crate::fragment::{
    acquired_of, channel_of, group_of, has_marker, is_ais_sentence, landfall_of,
    lemma_split_nonempty, payload_of, source_of, split_commas, tag_sentence, MessageClass,
    TaggedFragment,
};
use crate::reassembly::MAX_PAYLOAD_CHARS;

verus! {

/// The outcome for one input line.
pub enum LineOutcome {
    /// The line holds no AIS sentence marker.
    Skipped,
    /// A single-sentence message, decoded.
    Record(DecodedRecord),
    /// One part of a two-part message, for the reassembler.
    Fragment(TaggedFragment),
}

proof fn lemma_split_fields_shorter(s: Seq<char>)
    ensures
        forall|i: int|
            0 <= i < split_commas(s).len() ==> (#[trigger] split_commas(s)[i]).len() <= s.len(),
    decreases s.len(),
{
    if s.len() > 0 {
        lemma_split_fields_shorter(s.drop_last());
        lemma_split_nonempty(s.drop_last());
    }
}

/// Filters, tags and routes one line: a line without `VDM` is skipped; a sentence
/// without a group tag is decoded at once as a single-sentence record; one with a
/// group tag is handed on as a fragment.
pub fn process_line(line: &str) -> (r: LineOutcome)
    requires
        line@.len() <= MAX_PAYLOAD_CHARS,
    ensures
        !has_marker(line@) ==> r is Skipped,
        has_marker(line@) ==> match r {
            LineOutcome::Skipped => false,
            LineOutcome::Record(rec) => {
                &&& group_of(line@).len() == 0
                &&& decodes_to(
                    rec,
                    landfall_of(line@),
                    group_of(line@),
                    acquired_of(line@),
                    source_of(line@),
                    channel_of(line@),
                    payload_of(line@),
                    MessageClass::Singleline,
                )
            },
            LineOutcome::Fragment(frag) => {
                &&& group_of(line@).len() > 0
                &&& frag.group@ == group_of(line@)
                &&& frag.landfall_time@ == landfall_of(line@)
                &&& frag.satellite_acquisition_time@ == acquired_of(line@)
                &&& frag.source@ == source_of(line@)
                &&& frag.channel@ == channel_of(line@)
                &&& frag.raw_payload@ == payload_of(line@)
                &&& frag.raw_payload@.len() <= MAX_PAYLOAD_CHARS
                &&& frag.message_class == MessageClass::Multiline
            },
        },
{
    if !is_ais_sentence(line) {
        return LineOutcome::Skipped;
    }
    let fragment = tag_sentence(line);
    proof {
        lemma_split_fields_shorter(line@);
        lemma_split_nonempty(line@);
        let f = split_commas(line@);
        if f.len() >= 2 {
            assert(f[f.len() - 2].len() <= line@.len());
        }
    }
    match fragment.message_class {
        MessageClass::Singleline => LineOutcome::Record(decode_payload(fragment)),
        MessageClass::Multiline => LineOutcome::Fragment(fragment),
    }
}

} // verus!
