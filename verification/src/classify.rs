//! Image-paragraph classifier: a bounded lookahead pass that detects a
//! paragraph whose only content is a single image and retags it as a
//! standalone image block, dropping the paragraph wrapper.

use crate::events::{MdEvent, MdTag};
use vstd::prelude::*;

verus! {

/// Whether the five events starting at `i` have the exact shape
/// start-paragraph, start-image, text, end-image, end-paragraph.
pub open spec fn image_paragraph_at(evs: Seq<MdEvent>, i: int) -> bool {
    &&& i + 5 <= evs.len()
    &&& evs[i] matches MdEvent::Start(MdTag::Paragraph)
    &&& evs[i + 1] matches MdEvent::Start(MdTag::Image(_, _))
    &&& evs[i + 2] matches MdEvent::Text(_)
    &&& evs[i + 3] matches MdEvent::End(MdTag::Image(_, _))
    &&& evs[i + 4] matches MdEvent::End(MdTag::Paragraph)
}

/// The classified rest of the event sequence, starting at `i`: a matched
/// image paragraph is unwrapped and its image start tagged standalone; every
/// other event passes through unchanged and untagged.
pub open spec fn classified_from(evs: Seq<MdEvent>, i: int) -> Seq<(MdEvent, bool)>
    decreases evs.len() - i,
{
    if i < 0 || i >= evs.len() {
        Seq::empty()
    } else if image_paragraph_at(evs, i) {
        seq![(evs[i + 1], true), (evs[i + 2], false), (evs[i + 3], false)] + classified_from(
            evs,
            i + 5,
        )
    } else {
        seq![(evs[i], false)] + classified_from(evs, i + 1)
    }
}

/// The whole classified event sequence.
pub open spec fn classified(evs: Seq<MdEvent>) -> Seq<(MdEvent, bool)> {
    classified_from(evs, 0)
}

/// Whether the next five pending events match the image-paragraph shape.
fn matches_image_paragraph(pending: &Vec<MdEvent>) -> (r: bool)
    ensures
        r == image_paragraph_at(pending@, 0),
{
    pending.len() >= 5 && (matches!(&pending[0], MdEvent::Start(MdTag::Paragraph))) && (matches!(
        &pending[1],
        MdEvent::Start(MdTag::Image(_, _)),
    )) && (matches!(&pending[2], MdEvent::Text(_))) && (matches!(
        &pending[3],
        MdEvent::End(MdTag::Image(_, _)),
    )) && (matches!(&pending[4], MdEvent::End(MdTag::Paragraph)))
}

/// Classify an event sequence, tagging standalone images.
pub fn classify(evs: Vec<MdEvent>) -> (r: Vec<(MdEvent, bool)>)
    ensures
        r@ == classified(evs@),
{
    let ghost orig = evs@;
    let mut pending = evs;
    let mut out: Vec<(MdEvent, bool)> = Vec::new();
    proof {
        assert(out@ + classified_from(pending@, 0) =~= classified_from(orig, 0));
    }
    while pending.len() > 0
        invariant
            out@ + classified_from(pending@, 0) == classified_from(orig, 0),
        decreases pending@.len(),
    {
        if matches_image_paragraph(&pending) {
            let ghost pre = pending@;
            pending.remove(0);
            let im_start = pending.remove(0);
            let im_text = pending.remove(0);
            let im_end = pending.remove(0);
            pending.remove(0);
            out.push((im_start, true));
            out.push((im_text, false));
            out.push((im_end, false));
            proof {
                assert(pending@ =~= pre.subrange(5, pre.len() as int));
                assert(classified_from(pending@, 0) =~= classified_from(pre, 5)) by {
                    lemma_classified_shift(pre, 5);
                }
                assert(out@ + classified_from(pending@, 0) =~= classified_from(orig, 0));
            }
        } else {
            let ghost pre = pending@;
            let ev = pending.remove(0);
            out.push((ev, false));
            proof {
                assert(pending@ =~= pre.subrange(1, pre.len() as int));
                assert(classified_from(pending@, 0) =~= classified_from(pre, 1)) by {
                    lemma_classified_shift(pre, 1);
                }
                assert(out@ + classified_from(pending@, 0) =~= classified_from(orig, 0));
            }
        }
    }
    proof {
        assert(out@ =~= classified_from(orig, 0));
    }
    out
}

/// Classifying from position `k` is the same as classifying the tail that
/// starts at `k` from its own beginning.
proof fn lemma_classified_shift(evs: Seq<MdEvent>, k: int)
    requires
        0 <= k <= evs.len(),
    ensures
        classified_from(evs.subrange(k, evs.len() as int), 0) =~= classified_from(evs, k),
    decreases evs.len() - k,
{
    let rest = evs.subrange(k, evs.len() as int);
    if k < evs.len() {
        assert(forall|j: int| 0 <= j < rest.len() ==> rest[j] == evs[k + j]);
        if image_paragraph_at(rest, 0) {
            assert(image_paragraph_at(evs, k));
            lemma_classified_shift(evs, k + 5);
            lemma_classified_shift(rest, 5);
            assert(evs.subrange(k + 5, evs.len() as int) =~= rest.subrange(5, rest.len() as int));
        } else {
            assert(!image_paragraph_at(evs, k));
            lemma_classified_shift(evs, k + 1);
            lemma_classified_shift(rest, 1);
            assert(evs.subrange(k + 1, evs.len() as int) =~= rest.subrange(1, rest.len() as int));
        }
    }
}

} // verus!
