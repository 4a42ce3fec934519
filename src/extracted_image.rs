//! The layers of an image: rebuilding the ordered layer list from the image
//! configuration's history and the manifest's blob list, and the image's id
//! and tags.
use vstd::prelude::*;
use crate::digest_tracker::{DigestTracker, digest_of_blob_path, opt_view, clone_opt};
use crate::naming::{file_name, path_file_name, stem, last_index_of};
use crate::text::{chars_of, push_all, slice_chars, starts_with, starts_with_exec, ends_with, ends_with_exec, string_of};

verus! {

/// One build step of an image, oldest first in any list of layers.
#[derive(Debug, Clone)]
pub struct Layer {
    /// Blob file name for a blob-backed layer, `<empty-layer-N>` otherwise.
    pub id: String,
    /// The build instruction, shell wrapper removed.
    pub command: String,
    /// Creation time in RFC 3339, as UTC.
    pub created_at: String,
    pub is_empty: bool,
    /// Path of the layer blob inside the extracted image, for blob-backed layers.
    pub tarball_path: Option<String>,
    /// `sha256:<hex>` for a blob, `empty` or `no-tarball` otherwise.
    pub digest: String,
    /// Comment from the image history, if any.
    pub comment: Option<String>,
}

/// One entry of the image configuration's history, as recorded.
#[derive(Debug, Clone)]
pub struct HistoryEntry {
    /// Creation time as written (RFC 3339 expected; empty when missing).
    pub created: String,
    /// The instruction that made the step (empty when missing).
    pub created_by: String,
    pub comment: Option<String>,
    pub empty_layer: Option<bool>,
}

/// The UTC RFC 3339 rendering of a timestamp, when it parses as RFC 3339.
pub uninterp spec fn utc_rfc3339(s: Seq<char>) -> Option<Seq<char>>;

/// Relies on chrono's `DateTime::parse_from_rfc3339`, converted with
/// `with_timezone(&Utc)` and rendered with `to_rfc3339`: the UTC form of the
/// timestamp, or `None` when it is not RFC 3339.
#[verifier::external_body]
fn parse_utc_rfc3339(s: &str) -> (r: Option<String>)
    ensures
        opt_view(r) == utc_rfc3339(s@),
{
    chrono::DateTime::parse_from_rfc3339(s).ok().map(|d| d.with_timezone(&chrono::Utc).to_rfc3339())
}

/// White space as Unicode lists it (the White_Space property): tab, line
/// feed, vertical tab, form feed, carriage return, space, next line, no-break
/// space, ogham space mark, the spaces U+2000 to U+200A, line and paragraph
/// separators, narrow no-break space, medium mathematical space and
/// ideographic space.
pub open spec fn white(c: char) -> bool {
    let u = c as u32;
    (0x09 <= u && u <= 0x0d) || u == 0x20 || u == 0x85 || u == 0xa0 || u == 0x1680
        || (0x2000 <= u && u <= 0x200a) || u == 0x2028 || u == 0x2029 || u == 0x202f || u == 0x205f
        || u == 0x3000
}

/// Whether `c` is white space (see `white`).
fn is_white(c: char) -> (r: bool)
    ensures
        r == white(c),
{
    let u = c as u32;
    (0x09 <= u && u <= 0x0d) || u == 0x20 || u == 0x85 || u == 0xa0 || u == 0x1680
        || (0x2000 <= u && u <= 0x200a) || u == 0x2028 || u == 0x2029 || u == 0x202f || u == 0x205f
        || u == 0x3000
}

/// `s` without its leading white space.
pub open spec fn trim_start(s: Seq<char>) -> Seq<char>
    decreases s.len(),
{
    if s.len() > 0 && white(s[0]) { trim_start(s.drop_first()) } else { s }
}

/// The shell wrapper that marks a metadata-only instruction.
pub open spec fn nop_prefix() -> Seq<char> {
    seq!['/', 'b', 'i', 'n', '/', 's', 'h', ' ', '-', 'c', ' ', '#', '(', 'n', 'o', 'p', ')', ' ']
}

/// The shell wrapper of a `RUN` instruction.
pub open spec fn shell_prefix() -> Seq<char> {
    seq!['/', 'b', 'i', 'n', '/', 's', 'h', ' ', '-', 'c', ' ']
}

/// The instruction with a leading shell wrapper (the `#(nop)` form first)
/// removed and the rest left-trimmed; other instructions unchanged.
pub open spec fn command_of(created_by: Seq<char>) -> Seq<char> {
    if starts_with(created_by, nop_prefix()) {
        trim_start(created_by.subrange(nop_prefix().len() as int, created_by.len() as int))
    } else if starts_with(created_by, shell_prefix()) {
        trim_start(created_by.subrange(shell_prefix().len() as int, created_by.len() as int))
    } else {
        created_by
    }
}

/// `s` with its leading white space removed.
fn trimmed_start(s: &Vec<char>, from: usize) -> (r: Vec<char>)
    requires
        from <= s.len(),
    ensures
        r@ == trim_start(s@.subrange(from as int, s.len() as int)),
{
    let mut i: usize = from;
    while i < s.len() && is_white(s[i])
        invariant
            from <= i <= s.len(),
            trim_start(s@.subrange(from as int, s.len() as int)) == trim_start(s@.subrange(i as int, s.len() as int)),
        decreases s.len() - i,
    {
        let ghost t = s@.subrange(i as int, s.len() as int);
        assert(t.drop_first() =~= s@.subrange(i + 1, s.len() as int));
        assert(t[0] == s@[i as int]);
        i = i + 1;
    }
    proof {
        let t = s@.subrange(i as int, s.len() as int);
        if i < s.len() {
            assert(t[0] == s@[i as int]);
        }
    }
    slice_chars(s, i, s.len())
}

/// The instruction of a history entry without its shell wrapper (see `command_of`).
pub fn normalize_command(created_by: &str) -> (r: String)
    ensures
        r@ == command_of(created_by@),
{
    let s = chars_of(created_by);
    let nop = chars_of("/bin/sh -c #(nop) ");
    let sh = chars_of("/bin/sh -c ");
    proof {
        reveal_strlit("/bin/sh -c #(nop) ");
        reveal_strlit("/bin/sh -c ");
        assert(nop@ =~= nop_prefix());
        assert(sh@ =~= shell_prefix());
    }
    if starts_with_exec(&s, &nop) {
        string_of(trimmed_start(&s, nop.len()).as_slice())
    } else if starts_with_exec(&s, &sh) {
        string_of(trimmed_start(&s, sh.len()).as_slice())
    } else {
        string_of(s.as_slice())
    }
}

/// The digit for `d` below ten.
pub open spec fn digit(d: nat) -> char {
    if d == 0 { '0' } else if d == 1 { '1' } else if d == 2 { '2' } else if d == 3 { '3' } else if d == 4 { '4' }
    else if d == 5 { '5' } else if d == 6 { '6' } else if d == 7 { '7' } else if d == 8 { '8' } else { '9' }
}

/// The decimal digits of `n`.
pub open spec fn decimal(n: nat) -> Seq<char>
    decreases n,
{
    if n < 10 { seq![digit(n)] } else { decimal(n / 10).push(digit(n % 10)) }
}

/// The digit for `d` below ten.
fn digit_char(d: usize) -> (r: char)
    requires
        d < 10,
    ensures
        r == digit(d as nat),
{
    if d == 0 { '0' } else if d == 1 { '1' } else if d == 2 { '2' } else if d == 3 { '3' } else if d == 4 { '4' }
    else if d == 5 { '5' } else if d == 6 { '6' } else if d == 7 { '7' } else if d == 8 { '8' } else { '9' }
}

/// `n` written in decimal.
pub fn decimal_string(n: usize) -> (r: Vec<char>)
    ensures
        r@ == decimal(n as nat),
    decreases n,
{
    let d = digit_char(n % 10);
    if n < 10 {
        let mut v: Vec<char> = Vec::new();
        v.push(d);
        assert(v@ =~= seq![d]);
        v
    } else {
        let mut v = decimal_string(n / 10);
        v.push(d);
        v
    }
}

/// `<empty-layer-N>`.
pub open spec fn empty_layer_id(i: nat) -> Seq<char> {
    seq!['<', 'e', 'm', 'p', 't', 'y', '-', 'l', 'a', 'y', 'e', 'r', '-'] + decimal(i) + seq!['>']
}

/// `layer-N`, the id of a blob whose path has no file name.
pub open spec fn plain_layer_id(i: nat) -> Seq<char> {
    seq!['l', 'a', 'y', 'e', 'r', '-'] + decimal(i)
}

/// Whether a history entry declares an empty layer (absent means not empty).
pub open spec fn entry_empty(h: HistoryEntry) -> bool {
    match h.empty_layer {
        Some(b) => b,
        None => false,
    }
}

/// How many entries from `i` on declare a filesystem change.
pub open spec fn nonempty_from(h: Seq<HistoryEntry>, i: int) -> nat
    decreases h.len() - i,
{
    if i < 0 || i >= h.len() {
        0
    } else {
        nonempty_from(h, i + 1) + (if entry_empty(h[i]) { 0nat } else { 1nat })
    }
}

/// The blob that history entry `i` maps to: walking the history from newest
/// to oldest, each entry that declares a change takes the next blob from the
/// end of the manifest's list, while blobs remain.
pub open spec fn blob_index(h: Seq<HistoryEntry>, n_blobs: nat, i: int) -> Option<int> {
    if !entry_empty(h[i]) && nonempty_from(h, i + 1) < n_blobs {
        Some(n_blobs - 1 - nonempty_from(h, i + 1))
    } else {
        None
    }
}

/// Whether `l` is the layer rebuilt from history entry `i`.
pub open spec fn layer_from(l: Layer, h: Seq<HistoryEntry>, blobs: Seq<String>, now: Seq<char>, i: int) -> bool {
    let e = h[i];
    &&& l.command@ == command_of(e.created_by@)
    &&& l.created_at@ == (match utc_rfc3339(e.created@) {
        Some(t) => t,
        None => now,
    })
    &&& l.is_empty == entry_empty(e)
    &&& opt_view(l.comment) == opt_view(e.comment)
    &&& match blob_index(h, blobs.len(), i) {
        Some(b) => {
            &&& opt_view(l.tarball_path) == Some(blobs[b]@)
            &&& l.id@ == (match file_name(blobs[b]@) {
                Some(n) => n,
                None => plain_layer_id(i as nat),
            })
            &&& l.digest@ == digest_of_blob_path(blobs[b]@)
        },
        None => {
            &&& l.tarball_path.is_none()
            &&& l.id@ == empty_layer_id(i as nat)
            &&& l.digest@ == (if entry_empty(e) { seq!['e', 'm', 'p', 't', 'y'] } else {
                seq!['n', 'o', '-', 't', 'a', 'r', 'b', 'a', 'l', 'l']
            })
        },
    }
}

proof fn lemma_nonempty_bound(h: Seq<HistoryEntry>, i: int)
    requires
        0 <= i <= h.len(),
    ensures
        nonempty_from(h, i) <= h.len() - i,
    decreases h.len() - i,
{
    if i < h.len() {
        lemma_nonempty_bound(h, i + 1);
    }
}

/// `prefix + decimal(i) + suffix`.
fn numbered(prefix: &str, i: usize, suffix: &str) -> (r: Vec<char>)
    ensures
        r@ == prefix@ + decimal(i as nat) + suffix@,
{
    let mut v = chars_of(prefix);
    push_all(&mut v, &decimal_string(i));
    push_all(&mut v, &chars_of(suffix));
    v
}

/// The layers of an image, oldest first: one per history entry, entry `i`
/// rebuilt as `layer_from` says. `now` is the creation time given to entries
/// whose timestamp does not parse.
pub fn reconstruct_layers(history: &Vec<HistoryEntry>, layer_paths: &Vec<String>, now: &str) -> (r: Vec<Layer>)
    ensures
        r@.len() == history@.len(),
        forall|i: int| 0 <= i < history@.len() ==> layer_from(#[trigger] r@[i], history@, layer_paths@, now@, i),
{
    let ghost h = history@;
    // how many entries declare a change, from the end back to `k`
    let mut after: Vec<usize> = Vec::new();
    let mut k: usize = history.len();
    let mut count: usize = 0;
    proof {
        lemma_nonempty_bound(h, 0);
    }
    // after[j] == nonempty_from(h, n - j) for the j entries seen from the end
    while k > 0
        invariant
            k <= history.len(),
            h == history@,
            count == nonempty_from(h, k as int),
            after@.len() == history.len() - k,
            forall|j: int| 0 <= j < after@.len() ==> after@[j] == nonempty_from(h, history.len() - j),
        decreases k,
    {
        after.push(count);
        proof {
            lemma_nonempty_bound(h, k - 1);
        }
        let e = match history[k - 1].empty_layer { Some(b) => b, None => false };
        if !e {
            count = count + 1;
        }
        k = k - 1;
    }
    let mut out: Vec<Layer> = Vec::new();
    let n = history.len();
    let nb = layer_paths.len();
    let mut i: usize = 0;
    while i < n
        invariant
            i <= n,
            n == history.len(),
            nb == layer_paths.len(),
            h == history@,
            after@.len() == n,
            forall|j: int| 0 <= j < after@.len() ==> after@[j] == nonempty_from(h, n - j),
            out@.len() == i,
            forall|j: int| 0 <= j < i ==> layer_from(#[trigger] out@[j], h, layer_paths@, now@, j),
        decreases n - i,
    {
        let entry = &history[i];
        let later = after[n - 1 - i];
        assert(later == nonempty_from(h, i + 1));
        let is_empty = match entry.empty_layer { Some(b) => b, None => false };
        let command = normalize_command(entry.created_by.as_str());
        let created_at = match parse_utc_rfc3339(entry.created.as_str()) {
            Some(t) => t,
            None => String::from_str(now),
        };
        let comment = clone_opt(&entry.comment);
        let layer = if !is_empty && later < nb {
            let b = nb - 1 - later;
            let p = &layer_paths[b];
            let pc = chars_of(p.as_str());
            let id = match path_file_name(&pc) {
                Some(name) => string_of(name.as_slice()),
                None => string_of(numbered("layer-", i, "").as_slice()),
            };
            proof {
                reveal_strlit("layer-");
                reveal_strlit("");
                assert(("layer-"@ + decimal(i as nat) + ""@) =~= plain_layer_id(i as nat));
            }
            Layer {
                id,
                command,
                created_at,
                is_empty,
                tarball_path: Some(p.clone()),
                digest: DigestTracker::extract_digest_from_tarball_path(p.as_str()),
                comment,
            }
        } else {
            let id = string_of(numbered("<empty-layer-", i, ">").as_slice());
            proof {
                reveal_strlit("<empty-layer-");
                reveal_strlit(">");
                assert(("<empty-layer-"@ + decimal(i as nat) + ">"@) =~= empty_layer_id(i as nat));
            }
            let digest = if is_empty { String::from_str("empty") } else { String::from_str("no-tarball") };
            proof {
                reveal_strlit("empty");
                reveal_strlit("no-tarball");
                assert("empty"@ =~= seq!['e', 'm', 'p', 't', 'y']);
                assert("no-tarball"@ =~= seq!['n', 'o', '-', 't', 'a', 'r', 'b', 'a', 'l', 'l']);
            }
            Layer { id, command, created_at, is_empty, tarball_path: None, digest, comment }
        };
        assert(layer_from(layer, h, layer_paths@, now@, i as int));
        out.push(layer);
        i = i + 1;
    }
    out
}

/// `blobs/sha256/`, the directory of content-addressed blobs.
pub open spec fn blob_dir() -> Seq<char> {
    seq!['b', 'l', 'o', 'b', 's', '/', 's', 'h', 'a', '2', '5', '6', '/']
}

/// `.json`.
pub open spec fn json_suffix() -> Seq<char> {
    seq!['.', 'j', 's', 'o', 'n']
}

/// The image id: the index's manifest digest when there is a non-empty one;
/// else `sha256:` and the hash of a config blob under `blobs/sha256/`; else
/// `sha256:` and the config file name without `.json`; else empty.
pub open spec fn image_id_of(index_digest: Option<Seq<char>>, config_path: Seq<char>) -> Seq<char> {
    match index_digest {
        Some(d) if d.len() > 0 => d,
        _ => if starts_with(config_path, blob_dir()) {
            crate::naming::sha_prefix() + config_path.subrange(13, config_path.len() as int)
        } else if ends_with(config_path, json_suffix()) {
            crate::naming::sha_prefix() + config_path.subrange(0, config_path.len() - 5)
        } else {
            seq![]
        },
    }
}

/// The image id (see `image_id_of`).
pub fn derive_image_id(index_digest: &Option<String>, config_path: &str) -> (r: String)
    ensures
        r@ == image_id_of(opt_view(*index_digest), config_path@),
{
    match index_digest {
        Some(d) => {
            if d.as_str().unicode_len() > 0 {
                return d.clone();
            }
        },
        None => {},
    }
    let c = chars_of(config_path);
    let dir = chars_of("blobs/sha256/");
    let json = chars_of(".json");
    proof {
        reveal_strlit("blobs/sha256/");
        reveal_strlit(".json");
        assert(dir@ =~= blob_dir());
        assert(json@ =~= json_suffix());
    }
    if starts_with_exec(&c, &dir) {
        let mut out = crate::naming::sha_prefix_exec();
        push_all(&mut out, &slice_chars(&c, 13, c.len()));
        string_of(out.as_slice())
    } else if ends_with_exec(&c, &json) {
        let mut out = crate::naming::sha_prefix_exec();
        push_all(&mut out, &slice_chars(&c, 0, c.len() - 5));
        string_of(out.as_slice())
    } else {
        String::new()
    }
}

/// `:latest`.
pub open spec fn latest_tag() -> Seq<char> {
    seq![':', 'l', 'a', 't', 'e', 's', 't']
}

/// The repository tags: those the manifest gives, or else one `<stem>:latest`
/// made from the image reference's file stem (none when it has no file name).
pub open spec fn tags_or_default(tags: Seq<Seq<char>>, image_name: Seq<char>) -> Seq<Seq<char>> {
    if tags.len() > 0 {
        tags
    } else {
        match file_name(image_name) {
            Some(n) => seq![stem(n) + latest_tag()],
            None => seq![],
        }
    }
}

/// The repository tags (see `tags_or_default`).
pub fn default_repo_tags(tags: Vec<String>, image_name: &str) -> (r: Vec<String>)
    ensures
        crate::image_metadata::strs(r@) == tags_or_default(crate::image_metadata::strs(tags@), image_name@),
{
    if tags.len() > 0 {
        return tags;
    }
    let p = chars_of(image_name);
    let mut out: Vec<String> = Vec::new();
    match path_file_name(&p) {
        Some(name) => {
            let k = crate::naming::find_last_dot(&name);
            let mut st = match k {
                Some(k) => if k == 0 { name } else { slice_chars(&name, 0, k) },
                None => name,
            };
            let sfx = chars_of(":latest");
            proof {
                reveal_strlit(":latest");
                assert(sfx@ =~= latest_tag());
            }
            push_all(&mut st, &sfx);
            out.push(string_of(st.as_slice()));
            assert(crate::image_metadata::strs(out@) =~= tags_or_default(crate::image_metadata::strs(tags@), image_name@));
        },
        None => {
            assert(crate::image_metadata::strs(out@) =~= Seq::<Seq<char>>::empty());
        },
    }
    out
}

} // verus!
