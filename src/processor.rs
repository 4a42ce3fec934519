//! The decisions of a conversion, layer by layer: which layers are already on
//! the branch, what each commit says, what `Image.md` holds after each commit,
//! and when the whole image is already there.
use vstd::prelude::*;
use crate::digest_tracker::{DigestTracker, LayerDigest, LayerRecord, clone_opt, opt_view, records, same_layer};
use crate::extracted_image::{HistoryEntry, Layer, blob_index, entry_empty, layer_from};
use crate::naming::{file_name, sha_prefix};
use crate::markdown_row::{row_line, true_word};
use crate::text::{ends_with, starts_with};
use crate::digest_tracker::{digest_of_id, digest_of_blob_path, utc_normalized};
use crate::image_metadata::{ImageMetadata, rendered, join_lines, head_lines};
use crate::text::{chars_of, push_all, string_of};

verus! {

/// The message mark of a layer: `🟢` for a layer whose blob is applied, `⚪️`
/// for a declared-empty step, `⚫` for a step that declares a change but has
/// no blob.
pub open spec fn mark_of(l: Layer) -> Seq<char> {
    if l.tarball_path.is_some() {
        "🟢"@
    } else if l.is_empty {
        "⚪️"@
    } else {
        "⚫"@
    }
}

/// The commit message of a layer: its mark, ` - `, and its command.
pub open spec fn message_of(l: Layer) -> Seq<char> {
    mark_of(l) + " - "@ + l.command@
}

/// The commit message of a layer (see `message_of`).
pub fn commit_message(layer: &Layer) -> (r: String)
    ensures
        r@ == message_of(*layer),
{
    let mut v = if layer.tarball_path.is_some() {
        chars_of("🟢")
    } else if layer.is_empty {
        chars_of("⚪️")
    } else {
        chars_of("⚫")
    };
    push_all(&mut v, &chars_of(" - "));
    push_all(&mut v, &chars_of(layer.command.as_str()));
    string_of(v.as_slice())
}

/// The message of the final metadata commit.
pub fn metadata_commit_message() -> (r: &'static str)
    ensures
        r@ == "🛠️ - Metadata"@,
{
    "🛠️ - Metadata"
}

/// `<os>-<arch>`, the platform part of a branch name.
pub fn os_arch(os: &str, architecture: &str) -> (r: String)
    ensures
        r@ == os@ + seq!['-'] + architecture@,
{
    let mut v = chars_of(os);
    v.push('-');
    push_all(&mut v, &chars_of(architecture));
    string_of(v.as_slice())
}

/// What the chain records of a layer.
pub open spec fn layer_record(l: Layer) -> LayerRecord {
    LayerRecord {
        digest: l.digest@,
        command: l.command@,
        created: l.created_at@,
        is_empty: l.is_empty,
        comment: opt_view(l.comment),
    }
}

/// What to do with the layer at a position of the image.
#[derive(Debug)]
pub enum LayerStep {
    /// The branch already holds this layer at this position.
    AlreadyPresent,
    /// Commit the layer with `message`; when `apply` names a blob, unpack it
    /// onto the working tree first.
    Commit { message: String, apply: Option<String> },
}

/// Whether `s` is the step for a layer at `position` given the chain so far:
/// nothing when the chain already has it there, else a commit with the
/// layer's message that applies its blob, if it has one.
pub open spec fn step_for(chain: Seq<LayerRecord>, position: int, l: Layer, s: LayerStep) -> bool {
    if position < chain.len() && same_layer(chain[position], l) {
        s is AlreadyPresent
    } else {
        s matches LayerStep::Commit { message, apply } && message@ == message_of(l) && opt_view(apply) == opt_view(l.tarball_path)
    }
}

/// The step for the layer at `position` (see `step_for`).
pub fn next_step(tracker: &DigestTracker, position: usize, layer: &Layer) -> (r: LayerStep)
    ensures
        step_for(tracker.chain(), position as int, *layer, r),
{
    if tracker.layer_matches(position, layer) {
        LayerStep::AlreadyPresent
    } else {
        LayerStep::Commit { message: commit_message(layer), apply: clone_opt(&layer.tarball_path) }
    }
}

/// Appends a committed layer to the chain.
pub fn record_layer(tracker: &mut DigestTracker, layer: &Layer)
    ensures
        final(tracker).chain() == old(tracker).chain().push(layer_record(*layer)),
{
    let position = tracker.layer_digests.len();
    let ghost before = tracker.chain();
    tracker.add_layer(
        position,
        layer.digest.clone(),
        layer.command.clone(),
        layer.created_at.clone(),
        layer.is_empty,
        clone_opt(&layer.comment),
    );
    assert(tracker.chain() =~= before.push(layer_record(*layer)));
}

/// `Image.md` while layers are replayed: the layer chain alone.
pub open spec fn chain_only(v: Vec<LayerDigest>) -> ImageMetadata {
    ImageMetadata { basic_info: None, container_config: None, layer_digests: v }
}

/// The text of `Image.md` between layer commits: the chain recorded so far,
/// without basic information or configuration.
pub fn progress_document(tracker: &DigestTracker) -> (r: String)
    ensures
        r@ == rendered(chain_only(tracker.layer_digests)),
{
    let m = ImageMetadata {
        basic_info: None,
        container_config: None,
        layer_digests: crate::image_metadata::copy_chain(&tracker.layer_digests),
    };
    let r = m.render_markdown();
    proof {
        crate::image_metadata::lemma_rendered_by_records(m, chain_only(tracker.layer_digests));
    }
    r
}

/// Whether the conversion has nothing to do: the target branch exists and
/// every layer of the image already matched.
pub fn already_converted(branch_exists: bool, matched: usize, layer_count: usize) -> (r: bool)
    ensures
        r == (branch_exists && matched == layer_count),
{
    branch_exists && matched == layer_count
}

/// Two reconstructions of the same history and blob list (whatever time stood
/// in for unreadable timestamps) give each layer the same commit message, so
/// two conversions of one image write the same messages.
pub proof fn lemma_same_history_same_messages(
    h: Seq<HistoryEntry>,
    blobs: Seq<String>,
    now1: Seq<char>,
    now2: Seq<char>,
    l1: Layer,
    l2: Layer,
    i: int,
)
    requires
        0 <= i < h.len(),
        layer_from(l1, h, blobs, now1, i),
        layer_from(l2, h, blobs, now2, i),
    ensures
        message_of(l1) == message_of(l2),
{
    assert(l1.tarball_path.is_some() == l2.tarball_path.is_some()) by {
        match blob_index(h, blobs.len(), i) {
            Some(b) => {
                assert(opt_view(l1.tarball_path) == Some(blobs[b]@));
                assert(opt_view(l2.tarball_path) == Some(blobs[b]@));
            },
            None => {},
        }
    }
}

/// `` `empty` | true |``, how a declared-empty layer's row ends.
pub open spec fn empty_row_end() -> Seq<char> {
    seq!['`', 'e', 'm', 'p', 't', 'y', '`', ' ', '|', ' ', 't', 'r', 'u', 'e', ' ', '|']
}

/// A declared-empty history entry is recorded with digest `empty` and flag
/// `true`, and its `Image.md` row ends `` `empty` | true |``.
pub proof fn lemma_empty_layer_recorded(h: Seq<HistoryEntry>, blobs: Seq<String>, now: Seq<char>, l: Layer, i: int)
    requires
        0 <= i < h.len(),
        layer_from(l, h, blobs, now, i),
        entry_empty(h[i]),
    ensures
        layer_record(l).is_empty,
        layer_record(l).digest == seq!['e', 'm', 'p', 't', 'y'],
        ends_with(row_line(layer_record(l)), empty_row_end()),
{
    let r = layer_record(l);
    let line = row_line(r);
    assert(blob_index(h, blobs.len(), i).is_none());
    let tail = seq!['`'] + r.digest + seq!['`', ' ', '|', ' '] + true_word() + seq![' ', '|'];
    assert(tail =~= empty_row_end());
    let comment = match r.comment { Some(c) => c, None => seq![] };
    let front = seq!['|', ' '] + r.created + seq![' ', '|', ' ', '`'] + crate::markdown_row::escape_pipes(r.command)
        + seq!['`', ' ', '|', ' '] + crate::markdown_row::escape_pipes(comment) + seq![' ', '|', ' '];
    assert(line =~= front + tail);
    assert(line.subrange(line.len() - tail.len(), line.len() as int) =~= tail);
}

/// Whether a blob path's file name is a bare content hash: present, not
/// already `sha256:`-prefixed and not of the `<…>` form.
pub open spec fn plain_blob_name(p: Seq<char>) -> bool {
    match file_name(p) {
        Some(n) => !starts_with(n, sha_prefix()) && !(starts_with(n, seq!['<']) && ends_with(n, seq!['>'])),
        None => false,
    }
}

/// A layer rebuilt from an image matches what the chain records of it, so a
/// second conversion of the same image finds every layer already present —
/// for layers that are declared empty or have a blob with a plain hash name
/// (a step that declares a change but has no blob does not match its record).
pub proof fn lemma_recorded_layer_matches(h: Seq<HistoryEntry>, blobs: Seq<String>, now: Seq<char>, l: Layer, i: int)
    requires
        0 <= i < h.len(),
        layer_from(l, h, blobs, now, i),
        entry_empty(h[i]) || blob_index(h, blobs.len(), i).is_some(),
        forall|b: int| 0 <= b < blobs.len() ==> plain_blob_name(#[trigger] blobs[b]@),
    ensures
        same_layer(layer_record(l), l),
{
    match blob_index(h, blobs.len(), i) {
        Some(b) => {
            assert(plain_blob_name(blobs[b]@));
            let n = file_name(blobs[b]@).unwrap();
            assert(l.id@ == n);
            assert(digest_of_id(n) == sha_prefix() + n);
        },
        None => {},
    }
}

/// The text of `Image.md` that holds only `chain`.
pub open spec fn chain_text(chain: Seq<LayerRecord>) -> Seq<char> {
    join_lines(seq![crate::markdown_text::t_title() + crate::markdown_text::t_unknown(), seq![]]
        + (if chain.len() > 0 {
            seq![crate::markdown_text::t_layers(), seq![], crate::markdown_text::t_table_head(), crate::markdown_text::t_table_sep()]
                + Seq::new(chain.len(), |i: int| row_line(chain[i])) + seq![seq![]]
        } else {
            seq![]
        }))
}

proof fn lemma_chain_text(v: Vec<LayerDigest>)
    ensures
        rendered(chain_only(v)) == chain_text(records(v@)),
{
    let m = chain_only(v);
    let c = records(v@);
    assert(head_lines(m) =~= seq![crate::markdown_text::t_title() + crate::markdown_text::t_unknown(), seq![]]);
    assert(Seq::new(v@.len(), |i: int| row_line(v@[i]@)) =~= Seq::new(c.len(), |i: int| row_line(c[i])));
}

/// One commit of a replay: its message, the blob to apply first (if any), and
/// the `Image.md` text it holds.
pub ghost struct PlannedStep {
    pub message: Seq<char>,
    pub apply: Option<Seq<char>>,
    pub text: Seq<char>,
}

/// The commits that replaying `layers` from position `i` makes on a branch
/// whose recorded chain is `chain`: a layer the chain already holds at its
/// position makes none; any other makes one, and is recorded.
pub open spec fn planned(chain: Seq<LayerRecord>, layers: Seq<Layer>, i: int) -> Seq<PlannedStep>
    decreases layers.len() - i,
{
    if i < 0 || i >= layers.len() {
        seq![]
    } else if i < chain.len() && same_layer(chain[i], layers[i]) {
        planned(chain, layers, i + 1)
    } else {
        let c2 = chain.push(layer_record(layers[i]));
        seq![PlannedStep { message: message_of(layers[i]), apply: opt_view(layers[i].tarball_path), text: chain_text(c2) }]
            + planned(c2, layers, i + 1)
    }
}

/// One layer commit to make.
#[derive(Debug)]
pub struct PlannedCommit {
    pub message: String,
    /// The layer blob to unpack onto the working tree before committing.
    pub apply: Option<String>,
    /// The text of `Image.md` in this commit.
    pub image_md: String,
}

/// What a planned commit is.
pub open spec fn step_view(c: PlannedCommit) -> PlannedStep {
    PlannedStep { message: c.message@, apply: opt_view(c.apply), text: c.image_md@ }
}

/// What a list of planned commits is.
pub open spec fn steps_view(v: Seq<PlannedCommit>) -> Seq<PlannedStep> {
    Seq::new(v.len(), |i: int| step_view(v[i]))
}

/// The layer commits of a conversion, in order, from position `skip` on a
/// branch whose chain is `tracker`'s (see `planned`); `tracker` ends holding
/// the chain of the last commit.
pub fn replay_plan(tracker: &mut DigestTracker, layers: &Vec<Layer>, skip: usize) -> (r: Vec<PlannedCommit>)
    ensures
        steps_view(r@) == planned(old(tracker).chain(), layers@, skip as int),
{
    let ghost start = tracker.chain();
    let mut out: Vec<PlannedCommit> = Vec::new();
    let mut i: usize = skip;
    if i >= layers.len() {
        assert(steps_view(out@) =~= Seq::<PlannedStep>::empty());
        return out;
    }
    while i < layers.len()
        invariant
            skip <= i <= layers.len(),
            steps_view(out@) + planned(tracker.chain(), layers@, i as int) == planned(start, layers@, skip as int),
        decreases layers.len() - i,
    {
        let layer = &layers[i];
        match next_step(tracker, i, layer) {
            LayerStep::AlreadyPresent => {},
            LayerStep::Commit { message, apply } => {
                record_layer(tracker, layer);
                let image_md = progress_document(tracker);
                proof {
                    lemma_chain_text(tracker.layer_digests);
                }
                let ghost o0 = steps_view(out@);
                let c = PlannedCommit { message, apply, image_md };
                let ghost cv = step_view(c);
                out.push(c);
                assert(steps_view(out@) =~= o0.push(cv));
                assert(o0.push(cv) + planned(tracker.chain(), layers@, i + 1) =~= o0 + (seq![cv] + planned(tracker.chain(), layers@, i + 1)));
            },
        }
        i = i + 1;
    }
    assert(steps_view(out@) + planned(tracker.chain(), layers@, i as int) =~= steps_view(out@));
    out
}

/// On a branch built from scratch every layer is committed, in order, each
/// with its own message: one commit per layer from `i` on, the `k`-th with the
/// message of layer `i + k` and the chain up to that layer in its `Image.md`.
pub proof fn lemma_fresh_replay(chain: Seq<LayerRecord>, layers: Seq<Layer>, i: int)
    requires
        0 <= i <= layers.len(),
        chain.len() == i,
    ensures
        planned(chain, layers, i).len() == layers.len() - i,
        forall|k: int| 0 <= k < layers.len() - i ==> (#[trigger] planned(chain, layers, i)[k]).message == message_of(layers[i + k]),
    decreases layers.len() - i,
{
    if i < layers.len() {
        let c2 = chain.push(layer_record(layers[i]));
        lemma_fresh_replay(c2, layers, i + 1);
        let rest = planned(c2, layers, i + 1);
        assert forall|k: int| 0 <= k < layers.len() - i implies (#[trigger] planned(chain, layers, i)[k]).message == message_of(layers[i + k]) by {
            if k > 0 {
                assert(planned(chain, layers, i)[k] == rest[k - 1]);
            }
        }
    }
}

/// Two conversions of one image into fresh repositories make the same commits
/// with the same messages in the same order, whatever time stood in for
/// unreadable timestamps: each layer's message depends on its history entry
/// and blob alone.
pub proof fn lemma_fresh_runs_same_messages(
    h: Seq<HistoryEntry>,
    blobs: Seq<String>,
    now1: Seq<char>,
    now2: Seq<char>,
    l1: Seq<Layer>,
    l2: Seq<Layer>,
)
    requires
        l1.len() == h.len(),
        l2.len() == h.len(),
        forall|i: int| 0 <= i < h.len() ==> layer_from(#[trigger] l1[i], h, blobs, now1, i),
        forall|i: int| 0 <= i < h.len() ==> layer_from(#[trigger] l2[i], h, blobs, now2, i),
    ensures
        planned(seq![], l1, 0).len() == planned(seq![], l2, 0).len(),
        forall|k: int| 0 <= k < planned(seq![], l1, 0).len() ==> (#[trigger] planned(seq![], l1, 0)[k]).message == planned(seq![], l2, 0)[k].message,
{
    lemma_fresh_replay(seq![], l1, 0);
    lemma_fresh_replay(seq![], l2, 0);
    assert forall|k: int| 0 <= k < planned(seq![], l1, 0).len() implies (#[trigger] planned(seq![], l1, 0)[k]).message == planned(seq![], l2, 0)[k].message by {
        assert(layer_from(l1[k], h, blobs, now1, k));
        assert(layer_from(l2[k], h, blobs, now2, k));
        lemma_same_history_same_messages(h, blobs, now1, now2, l1[k], l2[k], k);
        assert(planned(seq![], l1, 0)[k].message == message_of(l1[0 + k]));
    }
}

/// Every commit of a replay carries the message of one of the replayed layers:
/// its mark (`🟢`, `⚪️` or `⚫`), ` - ` and the layer's command.
pub proof fn lemma_replay_messages(chain: Seq<LayerRecord>, layers: Seq<Layer>, i: int)
    requires
        0 <= i,
    ensures
        forall|k: int| 0 <= k < planned(chain, layers, i).len() ==> exists|j: int| i <= j < layers.len()
            && (#[trigger] planned(chain, layers, i)[k]).message == message_of(layers[j]),
    decreases layers.len() - i,
{
    if i < layers.len() {
        if i < chain.len() && same_layer(chain[i], layers[i]) {
            lemma_replay_messages(chain, layers, i + 1);
            let rest = planned(chain, layers, i + 1);
            assert forall|k: int| 0 <= k < planned(chain, layers, i).len() implies exists|j: int| i <= j < layers.len()
                && (#[trigger] planned(chain, layers, i)[k]).message == message_of(layers[j]) by {
                assert(planned(chain, layers, i)[k] == rest[k]);
                let j = choose|j: int| i + 1 <= j < layers.len() && rest[k].message == message_of(layers[j]);
            }
        } else {
            let c2 = chain.push(layer_record(layers[i]));
            lemma_replay_messages(c2, layers, i + 1);
            let rest = planned(c2, layers, i + 1);
            assert forall|k: int| 0 <= k < planned(chain, layers, i).len() implies exists|j: int| i <= j < layers.len()
                && (#[trigger] planned(chain, layers, i)[k]).message == message_of(layers[j]) by {
                if k > 0 {
                    assert(planned(chain, layers, i)[k] == rest[k - 1]);
                    let j = choose|j: int| i + 1 <= j < layers.len() && rest[k - 1].message == message_of(layers[j]);
                } else {
                    assert(planned(chain, layers, i)[0].message == message_of(layers[i]));
                }
            }
        }
    }
}

/// Whether the chain holds layer `j` at position `j`.
pub open spec fn holds_layer_at(chain: Seq<LayerRecord>, layers: Seq<Layer>, j: int) -> bool {
    0 <= j < chain.len() && j < layers.len() && same_layer(chain[j], layers[j])
}

/// A branch whose chain already holds every remaining layer at its position
/// gets no new commit: converting an image again replays nothing.
pub proof fn lemma_replay_nothing_when_present(chain: Seq<LayerRecord>, layers: Seq<Layer>, i: int)
    requires
        0 <= i,
        forall|j: int| i <= j < layers.len() ==> #[trigger] holds_layer_at(chain, layers, j),
    ensures
        planned(chain, layers, i).len() == 0,
    decreases layers.len() - i,
{
    if i < layers.len() {
        assert(holds_layer_at(chain, layers, i));
        lemma_replay_nothing_when_present(chain, layers, i + 1);
    }
}

} // verus!
