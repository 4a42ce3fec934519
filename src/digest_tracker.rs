//! The chain of layer fingerprints that a branch has materialized, and the
//! positional test that decides whether a new layer is already there.
use vstd::prelude::*;
use crate::extracted_image::Layer;
use crate::naming::{file_name, parent_of, path_parent_and_name, sha_prefix, sha_prefix_exec};
use crate::text::{chars_of, ends_with, ends_with_exec, push_all, starts_with, starts_with_exec, string_of};

verus! {

/// One recorded layer: what `Image.md` keeps of it.
#[derive(Debug, Clone)]
pub struct LayerDigest {
    pub digest: String,
    pub command: String,
    pub created: String,
    pub is_empty: bool,
    /// Free-form comment from the image history, if any.
    pub comment: Option<String>,
}

/// The mathematical value of a `LayerDigest`.
pub ghost struct LayerRecord {
    pub digest: Seq<char>,
    pub command: Seq<char>,
    pub created: Seq<char>,
    pub is_empty: bool,
    pub comment: Option<Seq<char>>,
}

/// The characters of an optional string.
pub open spec fn opt_view(o: Option<String>) -> Option<Seq<char>> {
    match o {
        Some(s) => Some(s@),
        None => None,
    }
}

impl View for LayerDigest {
    type V = LayerRecord;

    open spec fn view(&self) -> LayerRecord {
        LayerRecord {
            digest: self.digest@,
            command: self.command@,
            created: self.created@,
            is_empty: self.is_empty,
            comment: opt_view(self.comment),
        }
    }
}

/// Copies an optional string, keeping its characters.
pub fn clone_opt(o: &Option<String>) -> (r: Option<String>)
    ensures
        opt_view(r) == opt_view(*o),
{
    match o {
        Some(s) => Some(s.clone()),
        None => None,
    }
}

impl LayerDigest {
    /// A copy with the same characters in every field.
    pub fn copy(&self) -> (r: LayerDigest)
        ensures
            r@ == self@,
    {
        LayerDigest {
            digest: self.digest.clone(),
            command: self.command.clone(),
            created: self.created.clone(),
            is_empty: self.is_empty,
            comment: clone_opt(&self.comment),
        }
    }
}

/// The records of a list of layer digests, in order.
pub open spec fn records(v: Seq<LayerDigest>) -> Seq<LayerRecord> {
    Seq::new(v.len(), |i: int| v[i]@)
}

/// Layer fingerprints in build order; position `i` is the `i`-th layer.
#[derive(Debug, Clone)]
pub struct DigestTracker {
    pub layer_digests: Vec<LayerDigest>,
}

/// A timestamp with `Z` written as `+00:00`, so that both spellings of UTC agree.
pub open spec fn utc_normalized(s: Seq<char>) -> Seq<char>
    decreases s.len(),
{
    if s.len() == 0 {
        seq![]
    } else if s.last() == 'Z' {
        utc_normalized(s.drop_last()) + seq!['+', '0', '0', ':', '0', '0']
    } else {
        utc_normalized(s.drop_last()).push(s.last())
    }
}

/// The digest that a layer id stands for: ids already of the form `sha256:…`
/// or `<…>` are kept, a bare hash gets the `sha256:` prefix.
pub open spec fn digest_of_id(id: Seq<char>) -> Seq<char> {
    if starts_with(id, sha_prefix()) {
        id
    } else if starts_with(id, seq!['<']) && ends_with(id, seq!['>']) {
        id
    } else {
        sha_prefix() + id
    }
}

/// Whether a recorded layer and a new layer are the same build step: same
/// emptiness, same creation time (up to the spelling of UTC), and then the same
/// command for an empty layer or the same digest for a non-empty one.
pub open spec fn same_layer(e: LayerRecord, l: Layer) -> bool {
    &&& e.is_empty == l.is_empty
    &&& utc_normalized(e.created) == utc_normalized(l.created_at@)
    &&& if e.is_empty { e.command == l.command@ } else { e.digest == digest_of_id(l.id@) }
}

/// The digest recorded for a layer blob path: `sha256:<name>` for a blob under a
/// `sha256` directory; else the file name, given the prefix when it lacks it;
/// `unknown` for a path without a file name.
pub open spec fn digest_of_blob_path(p: Seq<char>) -> Seq<char> {
    match file_name(p) {
        Some(n) => if file_name(parent_of(p)) == Some(seq!['s', 'h', 'a', '2', '5', '6']) {
            sha_prefix() + n
        } else if starts_with(n, sha_prefix()) {
            n
        } else {
            sha_prefix() + n
        },
        None => seq!['u', 'n', 'k', 'n', 'o', 'w', 'n'],
    }
}

/// `s` with `Z` spelled `+00:00`.
fn normalize_utc(s: &str) -> (r: Vec<char>)
    ensures
        r@ == utc_normalized(s@),
{
    let v = chars_of(s);
    let mut out: Vec<char> = Vec::new();
    let mut i: usize = 0;
    while i < v.len()
        invariant
            i <= v.len(),
            out@ == utc_normalized(v@.subrange(0, i as int)),
        decreases v.len() - i,
    {
        let ghost q = v@.subrange(0, i + 1);
        assert(q.drop_last() =~= v@.subrange(0, i as int));
        if v[i] == 'Z' {
            let ghost before = out@;
            out.push('+');
            out.push('0');
            out.push('0');
            out.push(':');
            out.push('0');
            out.push('0');
            assert(out@ =~= before + seq!['+', '0', '0', ':', '0', '0']);
        } else {
            out.push(v[i]);
        }
        i = i + 1;
    }
    assert(v@.subrange(0, v.len() as int) =~= v@);
    out
}

/// Whether two character vectors are equal.
pub fn chars_eq(a: &Vec<char>, b: &Vec<char>) -> (r: bool)
    ensures
        r == (a@ == b@),
{
    if a.len() != b.len() {
        return false;
    }
    let mut i: usize = 0;
    while i < a.len()
        invariant
            a.len() == b.len(),
            i <= a.len(),
            forall|j: int| 0 <= j < i ==> a@[j] == b@[j],
        decreases a.len() - i,
    {
        if a[i] != b[i] {
            return false;
        }
        i = i + 1;
    }
    assert(a@ =~= b@);
    true
}

/// Whether two strings hold the same characters.
pub fn str_eq(a: &str, b: &str) -> (r: bool)
    ensures
        r == (a@ == b@),
{
    let x = chars_of(a);
    let y = chars_of(b);
    chars_eq(&x, &y)
}

impl DigestTracker {
    /// An empty chain.
    pub fn new() -> (r: Self)
        ensures
            r.layer_digests@.len() == 0,
    {
        DigestTracker { layer_digests: Vec::new() }
    }

    /// A tracker over a chain read back from `Image.md`.
    pub fn from_layers(layer_digests: Vec<LayerDigest>) -> (r: Self)
        ensures
            r.layer_digests@ == layer_digests@,
    {
        DigestTracker { layer_digests }
    }

    /// The recorded chain.
    pub open spec fn chain(&self) -> Seq<LayerRecord> {
        records(self.layer_digests@)
    }

    /// Appends a layer at `position`, which must be the current length: the
    /// chain only grows at its end.
    pub fn add_layer(
        &mut self,
        position: usize,
        digest: String,
        command: String,
        created: String,
        is_empty: bool,
        comment: Option<String>,
    )
        requires
            position == old(self).layer_digests.len(),
        ensures
            final(self).layer_digests@ == old(self).layer_digests@.push(LayerDigest {
                digest,
                command,
                created,
                is_empty,
                comment,
            }),
    {
        let layer_digest = LayerDigest { digest, command, created, is_empty, comment };
        self.layer_digests.push(layer_digest);
    }

    /// The layer recorded at `position`, if there is one.
    pub fn get_layer(&self, position: usize) -> (r: Option<&LayerDigest>)
        ensures
            position < self.layer_digests.len() ==> r == Some(&self.layer_digests@[position as int]),
            position >= self.layer_digests.len() ==> r.is_none(),
    {
        if position < self.layer_digests.len() {
            Some(&self.layer_digests[position])
        } else {
            None
        }
    }

    /// Whether the layer recorded at `position` is `layer` (see `same_layer`);
    /// false when nothing is recorded there.
    pub fn layer_matches(&self, position: usize, layer: &Layer) -> (r: bool)
        ensures
            r == (position < self.layer_digests.len() && same_layer(self.layer_digests@[position as int]@, *layer)),
    {
        match self.get_layer(position) {
            Some(existing) => Self::layers_match(existing, layer),
            None => false,
        }
    }

    /// Whether `existing` and `new` are the same build step (see `same_layer`).
    pub fn layers_match(existing: &LayerDigest, new: &Layer) -> (r: bool)
        ensures
            r == same_layer(existing@, *new),
    {
        if existing.is_empty != new.is_empty {
            return false;
        }
        let a = normalize_utc(existing.created.as_str());
        let b = normalize_utc(new.created_at.as_str());
        if !chars_eq(&a, &b) {
            return false;
        }
        if existing.is_empty {
            str_eq(existing.command.as_str(), new.command.as_str())
        } else {
            let d = Self::extract_digest_from_layer_id(new.id.as_str());
            str_eq(existing.digest.as_str(), d.as_str())
        }
    }

    /// The digest a layer id stands for (see `digest_of_id`).
    pub fn extract_digest_from_layer_id(layer_id: &str) -> (r: String)
        ensures
            r@ == digest_of_id(layer_id@),
    {
        let id = chars_of(layer_id);
        let p = sha_prefix_exec();
        let lt = chars_of("<");
        let gt = chars_of(">");
        proof {
            reveal_strlit("<");
            reveal_strlit(">");
            assert(lt@ =~= seq!['<']);
            assert(gt@ =~= seq!['>']);
        }
        if starts_with_exec(&id, &p) {
            string_of(id.as_slice())
        } else if starts_with_exec(&id, &lt) && ends_with_exec(&id, &gt) {
            string_of(id.as_slice())
        } else {
            let mut out = p;
            push_all(&mut out, &id);
            string_of(out.as_slice())
        }
    }

    /// The digest recorded for a layer blob path (see `digest_of_blob_path`).
    pub fn extract_digest_from_tarball_path(tarball_path: &str) -> (r: String)
        ensures
            r@ == digest_of_blob_path(tarball_path@),
    {
        let p = chars_of(tarball_path);
        let prefix = sha_prefix_exec();
        match path_parent_and_name(&p) {
            Some((parent_end, name)) => {
                let parent = crate::text::slice_chars(&p, 0, parent_end);
                let sha_dir = chars_of("sha256");
                proof {
                    reveal_strlit("sha256");
                    assert(sha_dir@ =~= seq!['s', 'h', 'a', '2', '5', '6']);
                }
                let under_sha = match path_parent_and_name(&parent) {
                    Some((_, pname)) => chars_eq(&pname, &sha_dir),
                    None => false,
                };
                if under_sha || !starts_with_exec(&name, &prefix) {
                    let mut out = prefix;
                    push_all(&mut out, &name);
                    string_of(out.as_slice())
                } else {
                    string_of(name.as_slice())
                }
            },
            None => {
                let r = String::from_str("unknown");
                proof {
                    reveal_strlit("unknown");
                    assert(r@ =~= seq!['u', 'n', 'k', 'n', 'o', 'w', 'n']);
                }
                r
            },
        }
    }
}

} // verus!
