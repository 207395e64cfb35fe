//! The two scanning passes glued together at the string level, and the
//! determinism law of the whole pipeline.

use vstd::prelude::*;
use crate::xml::{Token, tokenize, token_views, xml_token_seq};
use crate::segmenter::{segment, fragments_of, frag_views};
use crate::extractor::{RawObject, extract_raw, raw_object_of};
use crate::text::chars_to_string;

verus! {

/// Scan a whole document and reconstruct one fragment per top-level object
/// whose element name ends with `suffix`.  The scan is refused only where
/// the document's token stream would not fit in memory.
pub fn segment_document(doc: &str, suffix: &Vec<char>) -> (r: Option<Vec<Vec<char>>>)
    ensures
        match r {
            Some(frags) => frag_views(frags@) == fragments_of(xml_token_seq(doc@), suffix@),
            None => xml_token_seq(doc@).len() >= usize::MAX,
        },
{
    let tokens = tokenize(doc);
    proof {
        assert(token_views(tokens@).len() == tokens@.len());
    }
    if tokens.len() < usize::MAX {
        Some(segment(&tokens, suffix))
    } else {
        None
    }
}

/// Re-parse one reconstructed fragment as a standalone document and gather
/// its attribute events and position-list tokens.  A malformed fragment
/// yields whatever stood before the failure point, never an error.
pub fn extract_fragment(frag: &Vec<char>) -> (raw: RawObject)
    ensures
        raw@ == raw_object_of(xml_token_seq(frag@)),
{
    let s = chars_to_string(frag);
    let tokens = tokenize(s.as_str());
    extract_raw(&tokens)
}

/// Law: the pipeline is a function of the document text alone.  Equal
/// inputs tokenize to equal streams, segment to equal fragments, and
/// extract to equal raw objects, so running the pipeline twice on
/// identical input produces identical results.
pub proof fn lemma_pipeline_deterministic(doc1: Seq<char>, doc2: Seq<char>, suffix: Seq<char>)
    requires
        doc1 == doc2,
    ensures
        xml_token_seq(doc1) == xml_token_seq(doc2),
        fragments_of(xml_token_seq(doc1), suffix) == fragments_of(xml_token_seq(doc2), suffix),
        raw_object_of(xml_token_seq(doc1)) == raw_object_of(xml_token_seq(doc2)),
{
}

} // verus!
