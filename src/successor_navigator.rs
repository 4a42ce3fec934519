//! Finding where a new image's layer chain leaves what the repository already
//! holds: at each position, which successor commit (if any) records the next
//! layer. Walking the commit graph is left to the caller.
use vstd::prelude::*;
use crate::digest_tracker::{DigestTracker, LayerDigest, opt_view, records, same_layer};
use crate::extracted_image::Layer;
use crate::image_metadata::{ImageMetadata, codec_safe, layer_chain, lines_of, rendered, lemma_layer_chain_round_trip};
use crate::processor::layer_record;

verus! {

/// The commit-matching side of the navigation.
#[derive(Debug, Clone, Copy, PartialEq, Eq, Structural)]
pub struct SuccessorNavigator;

/// Whether a candidate commit, given the text of its `Image.md` (`None` when
/// it has none), records `l` at `position`.
pub open spec fn candidate_matches(doc: Option<Seq<char>>, position: int, l: Layer) -> bool {
    match doc {
        Some(d) => {
            let c = layer_chain(lines_of(d));
            0 <= position < c.len() && same_layer(c[position], l)
        },
        None => false,
    }
}

impl SuccessorNavigator {
    /// The layer chain recorded in a commit's `Image.md`; an empty chain when
    /// the commit has no such file.
    pub fn read_digests_from_commit(content: &Option<String>) -> (r: DigestTracker)
        ensures
            content.is_none() ==> r.chain().len() == 0,
            content.is_some() ==> r.chain() == layer_chain(lines_of(content.unwrap()@)),
    {
        match content {
            Some(text) => {
                let m = ImageMetadata::parse_markdown(text.as_str());
                match m {
                    Ok(m) => DigestTracker::from_layers(m.layer_digests),
                    Err(_) => DigestTracker::new(),
                }
            },
            None => DigestTracker::new(),
        }
    }

    /// Whether the commit whose `Image.md` is `content` records `layer` at `position`.
    pub fn commit_has_layer_at_position(content: &Option<String>, position: usize, layer: &Layer) -> (r: bool)
        ensures
            r == candidate_matches(opt_view(*content), position as int, *layer),
    {
        let t = Self::read_digests_from_commit(content);
        t.layer_matches(position, layer)
    }

    /// The first candidate that records `layer` at `position`, given each
    /// candidate's `Image.md`; `None` when no candidate does.
    pub fn pick_candidate(docs: &Vec<Option<String>>, position: usize, layer: &Layer) -> (r: Option<usize>)
        ensures
            r.is_some() ==> r.unwrap() < docs.len() && candidate_matches(opt_view(docs@[r.unwrap() as int]), position as int, *layer),
            r.is_some() ==> forall|k: int| 0 <= k < r.unwrap() ==> !candidate_matches(opt_view(#[trigger] docs@[k]), position as int, *layer),
            r.is_none() ==> forall|k: int| 0 <= k < docs.len() ==> !candidate_matches(opt_view(#[trigger] docs@[k]), position as int, *layer),
    {
        let mut i: usize = 0;
        while i < docs.len()
            invariant
                i <= docs.len(),
                forall|k: int| 0 <= k < i ==> !candidate_matches(opt_view(#[trigger] docs@[k]), position as int, *layer),
            decreases docs.len() - i,
        {
            if Self::commit_has_layer_at_position(&docs[i], position, layer) {
                return Some(i);
            }
            i = i + 1;
        }
        None
    }
}

/// A commit whose `Image.md` was rendered from a chain that records `l` at
/// position `i` is found as a match for `l` there: a repository that already
/// holds a prefix of an image's layers is recognised layer by layer.
pub proof fn lemma_rendered_chain_matches(m: ImageMetadata, i: int, l: Layer)
    requires
        codec_safe(m),
        0 <= i < m.layer_digests@.len(),
        m.layer_digests@[i]@ == layer_record(l),
        same_layer(layer_record(l), l),
    ensures
        candidate_matches(Some(rendered(m)), i, l),
{
    lemma_layer_chain_round_trip(m);
    assert(records(m.layer_digests@)[i] == m.layer_digests@[i]@);
}

} // verus!
