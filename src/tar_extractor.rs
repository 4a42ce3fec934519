//! The rules of unpacking an image or layer archive: safe entry paths, the
//! overlay whiteout markers, gzip detection, permission fixes and link targets.
//! Reading the archive and touching the disk is left to the caller.
use vstd::prelude::*;
use crate::image_metadata::join_with;
use crate::markdown_header::{first_occurrence, lemma_first_occurrence, split_by, split_on};
use crate::markdown_row::views;
use crate::naming::{last_index_of};
use crate::text::{chars_of, occurs_at, push_all, slice_chars, starts_with, starts_with_exec, string_of};

verus! {

/// Whether the first two bytes of a file are the gzip magic number `1F 8B`.
pub fn has_gzip_magic(b0: u8, b1: u8) -> (r: bool)
    ensures
        r == (b0 == 0x1f && b1 == 0x8b),
{
    b0 == 0x1f && b1 == 0x8b
}

/// The components kept after reading `segs` in order: empty and `.` segments
/// are dropped, `..` removes the last kept component (if any), others are kept.
pub open spec fn kept_segments(segs: Seq<Seq<char>>) -> Seq<Seq<char>>
    decreases segs.len(),
{
    if segs.len() == 0 {
        seq![]
    } else {
        let acc = kept_segments(segs.drop_last());
        let s = segs.last();
        if s.len() == 0 || s == seq!['.'] {
            acc
        } else if s == seq!['.', '.'] {
            if acc.len() > 0 { acc.drop_last() } else { acc }
        } else {
            acc.push(s)
        }
    }
}

/// An archive path made safe: relative, without `.` or `..`, never above the root.
pub open spec fn normalized_path(p: Seq<char>) -> Seq<char> {
    join_with(kept_segments(split_on(p, seq!['/'])), seq!['/'])
}

/// The kept components of a path (see `kept_segments`).
fn keep_segments(segs: &Vec<Vec<char>>) -> (r: Vec<Vec<char>>)
    ensures
        views(r@) == kept_segments(views(segs@)),
{
    let mut out: Vec<Vec<char>> = Vec::new();
    let mut i: usize = 0;
    while i < segs.len()
        invariant
            i <= segs.len(),
            views(out@) == kept_segments(views(segs@).subrange(0, i as int)),
        decreases segs.len() - i,
    {
        let ghost q = views(segs@).subrange(0, i + 1);
        assert(q.drop_last() =~= views(segs@).subrange(0, i as int));
        assert(q.last() == segs@[i as int]@);
        let s = &segs[i];
        let is_dot = s.len() == 1 && s[0] == '.';
        let is_dotdot = s.len() == 2 && s[0] == '.' && s[1] == '.';
        proof {
            if is_dot { assert(s@ =~= seq!['.']); }
            if s@ == seq!['.'] { assert(s@[0] == '.'); }
            if is_dotdot { assert(s@ =~= seq!['.', '.']); }
            if s@ == seq!['.', '.'] { assert(s@[0] == '.' && s@[1] == '.'); }
        }
        let ghost o0 = views(out@);
        if s.len() == 0 || is_dot {
        } else if is_dotdot {
            if out.len() > 0 {
                out.pop();
                assert(views(out@) =~= o0.drop_last());
            }
        } else {
            let c = slice_chars(s, 0, s.len());
            let ghost cv = c@;
            out.push(c);
            assert(cv =~= s@);
            assert(views(out@) =~= o0.push(cv));
        }
        i = i + 1;
    }
    assert(views(segs@).subrange(0, segs.len() as int) =~= views(segs@));
    out
}

/// `parts` joined by `/`.
fn join_slash(parts: &Vec<Vec<char>>) -> (r: Vec<char>)
    ensures
        r@ == join_with(views(parts@), seq!['/']),
{
    let mut out: Vec<char> = Vec::new();
    let mut i: usize = 0;
    while i < parts.len()
        invariant
            i <= parts.len(),
            out@ == join_with(views(parts@).subrange(0, i as int), seq!['/']),
        decreases parts.len() - i,
    {
        let ghost q = views(parts@).subrange(0, i + 1);
        assert(q.drop_last() =~= views(parts@).subrange(0, i as int));
        assert(q.last() == parts@[i as int]@);
        if i > 0 {
            out.push('/');
        }
        push_all(&mut out, &parts[i]);
        proof {
            if i == 0 {
                assert(q.len() == 1);
                assert(out@ =~= q[0]);
            } else {
                assert(out@ =~= join_with(q.drop_last(), seq!['/']) + seq!['/'] + q.last());
            }
        }
        i = i + 1;
    }
    assert(views(parts@).subrange(0, parts.len() as int) =~= views(parts@));
    out
}

/// The safe form of an archive path (see `normalized_path`).
pub fn normalize_tar_path(p: &str) -> (r: String)
    ensures
        r@ == normalized_path(p@),
{
    let s = chars_of(p);
    let mut slash: Vec<char> = Vec::new();
    slash.push('/');
    assert(slash@ =~= seq!['/']);
    let segs = split_by(&s, &slash);
    let kept = keep_segments(&segs);
    string_of(join_slash(&kept).as_slice())
}

/// What an archive entry's final name asks for.
#[derive(Debug, Clone, PartialEq, Eq)]
pub enum EntryAction {
    /// `.wh..wh..opq`: empty the directory `dir`, keeping it.
    ClearDirectory { dir: String },
    /// `.wh.<name>`: delete `dir/<name>`.
    Delete { dir: String, name: String },
    /// Anything else: materialize the entry.
    Materialize,
}

/// `.wh.`, the whiteout prefix.
pub open spec fn wh_prefix() -> Seq<char> {
    seq!['.', 'w', 'h', '.']
}

/// `.wh..wh..opq`, the opaque-directory marker.
pub open spec fn opaque_marker() -> Seq<char> {
    seq!['.', 'w', 'h', '.', '.', 'w', 'h', '.', '.', 'o', 'p', 'q']
}

/// The directory part of a normalized path (empty at the top).
pub open spec fn dir_part(p: Seq<char>) -> Seq<char> {
    let k = last_index_of(p, '/');
    if k < 0 || k >= p.len() { seq![] } else { p.subrange(0, k) }
}

/// The final name of a normalized path.
pub open spec fn base_part(p: Seq<char>) -> Seq<char> {
    p.subrange(last_index_of(p, '/') + 1, p.len() as int)
}

/// Whether `a` asks for what the final name of the normalized path `p` says:
/// the opaque marker clears its directory, a `.wh.` name deletes its target,
/// anything else is materialized.
pub open spec fn action_for(p: Seq<char>, a: EntryAction) -> bool {
    let name = base_part(p);
    if name == opaque_marker() {
        a matches EntryAction::ClearDirectory { dir } && dir@ == dir_part(p)
    } else if starts_with(name, wh_prefix()) {
        a matches EntryAction::Delete { dir, name: n } && dir@ == dir_part(p) && n@ == name.subrange(4, name.len() as int)
    } else {
        a is Materialize
    }
}

proof fn lemma_last_slash(p: Seq<char>)
    ensures
        -1 <= last_index_of(p, '/') < p.len(),
    decreases p.len(),
{
    if p.len() > 0 && p.last() != '/' {
        lemma_last_slash(p.drop_last());
    }
}

/// What the entry at the normalized path `rel_path` asks for (see `action_for`).
pub fn classify_entry(rel_path: &str) -> (r: EntryAction)
    ensures
        action_for(rel_path@, r),
{
    let p = chars_of(rel_path);
    let k = crate::naming::path_last_slash(&p);
    proof {
        lemma_last_slash(p@);
    }
    let lo: usize = match k { Some(k) => k + 1, None => 0 };
    let name = slice_chars(&p, lo, p.len());
    let dir = match k { Some(k) => slice_chars(&p, 0, k), None => Vec::new() };
    assert(dir@ =~= dir_part(p@));
    let marker = chars_of(".wh..wh..opq");
    let wh = chars_of(".wh.");
    proof {
        reveal_strlit(".wh..wh..opq");
        reveal_strlit(".wh.");
        assert(marker@ =~= opaque_marker());
        assert(wh@ =~= wh_prefix());
    }
    if crate::digest_tracker::chars_eq(&name, &marker) {
        EntryAction::ClearDirectory { dir: string_of(dir.as_slice()) }
    } else if starts_with_exec(&name, &wh) {
        EntryAction::Delete { dir: string_of(dir.as_slice()), name: string_of(slice_chars(&name, 4, name.len()).as_slice()) }
    } else {
        EntryAction::Materialize
    }
}

/// The mode given to an extracted directory: the owner always gets `rwx`.
pub fn directory_mode(mode: u32) -> (r: u32)
    ensures
        r == mode | 0o700,
{
    mode | 0o700
}

/// The mode given to an extracted file: the owner can always read it.
pub fn file_mode(mode: u32) -> (r: u32)
    ensures
        r == mode | 0o400,
{
    mode | 0o400
}

/// The root-relative target of a symlink: its link name normalized, so that an
/// absolute or a relative link alike is anchored under the root.
pub open spec fn symlink_target_of(link: Seq<char>) -> Seq<char> {
    normalized_path(link)
}

/// The root-relative target of a symlink (see `symlink_target_of`).
pub fn symlink_target(link: &str) -> (r: String)
    ensures
        r@ == symlink_target_of(link@),
{
    normalize_tar_path(link)
}

/// The root-relative target of a hard link: its normalized link name.
pub fn hardlink_target(link: &str) -> (r: String)
    ensures
        r@ == normalized_path(link@),
{
    normalize_tar_path(link)
}

/// Whether a path component is a plain name: not empty, not `.` or `..`, and
/// without a `/`.
pub open spec fn plain_component(s: Seq<char>) -> bool {
    s.len() > 0 && s != seq!['.'] && s != seq!['.', '.'] && !s.contains('/')
}

proof fn lemma_first_occurrence_facts(s: Seq<char>, sep: Seq<char>)
    requires
        sep.len() > 0,
    ensures
        first_occurrence(s, sep) >= 0 ==> first_occurrence(s, sep) + sep.len() <= s.len()
            && occurs_at(s, sep, first_occurrence(s, sep)),
        forall|j: int| 0 <= j && (first_occurrence(s, sep) < 0 || j < first_occurrence(s, sep)) ==> !occurs_at(s, sep, j),
    decreases s.len(),
{
    if s.len() >= sep.len() && !occurs_at(s, sep, 0) && s.len() > 0 {
        let t = s.drop_first();
        lemma_first_occurrence_facts(t, sep);
        assert forall|j: int| 0 <= j && (first_occurrence(s, sep) < 0 || j < first_occurrence(s, sep)) implies !occurs_at(s, sep, j) by {
            if j > 0 && occurs_at(s, sep, j) {
                assert(s.subrange(j, j + sep.len()) =~= t.subrange(j - 1, j - 1 + sep.len()));
                assert(occurs_at(t, sep, j - 1));
            }
        }
        if first_occurrence(s, sep) >= 0 {
            let k = first_occurrence(t, sep);
            assert(s.subrange(k + 1, k + 1 + sep.len()) =~= t.subrange(k, k + sep.len()));
        }
    }
}

proof fn lemma_slash_at(s: Seq<char>, j: int)
    requires
        0 <= j < s.len(),
    ensures
        occurs_at(s, seq!['/'], j) <==> s[j] == '/',
{
    if s[j] == '/' {
        assert(s.subrange(j, j + 1) =~= seq!['/']);
    }
    if occurs_at(s, seq!['/'], j) {
        assert(s.subrange(j, j + 1)[0] == s[j]);
    }
}

/// No piece of a path cut at `/` holds a `/`.
proof fn lemma_split_pieces(s: Seq<char>)
    ensures
        forall|i: int| 0 <= i < split_on(s, seq!['/']).len() ==> !(#[trigger] split_on(s, seq!['/'])[i]).contains('/'),
    decreases s.len(),
{
    let sep = seq!['/'];
    let k = first_occurrence(s, sep);
    lemma_first_occurrence_facts(s, sep);
    let piece = if k < 0 { s } else { s.subrange(0, k) };
    assert(!piece.contains('/')) by {
        if piece.contains('/') {
            let j = choose|j: int| 0 <= j < piece.len() && piece[j] == '/';
            assert(s[j] == '/');
            lemma_slash_at(s, j);
        }
    }
    if k >= 0 && k + 1 <= s.len() {
        let rest = s.subrange(k + 1, s.len() as int);
        lemma_split_pieces(rest);
        assert(split_on(s, sep) == seq![piece] + split_on(rest, sep));
        assert forall|i: int| 0 <= i < split_on(s, sep).len() implies !(#[trigger] split_on(s, sep)[i]).contains('/') by {
            if i > 0 {
                assert(split_on(s, sep)[i] == split_on(rest, sep)[i - 1]);
            }
        }
    } else {
        assert(split_on(s, sep) == seq![s]);
    }
}

proof fn lemma_kept_plain(segs: Seq<Seq<char>>)
    requires
        forall|i: int| 0 <= i < segs.len() ==> !(#[trigger] segs[i]).contains('/'),
    ensures
        forall|i: int| 0 <= i < kept_segments(segs).len() ==> plain_component(#[trigger] kept_segments(segs)[i]),
    decreases segs.len(),
{
    if segs.len() > 0 {
        let p = segs.drop_last();
        assert forall|i: int| 0 <= i < p.len() implies !(#[trigger] p[i]).contains('/') by {
            assert(p[i] == segs[i]);
        }
        lemma_kept_plain(p);
        assert(!segs[segs.len() - 1].contains('/'));
        let acc = kept_segments(p);
        let r = kept_segments(segs);
        assert forall|i: int| 0 <= i < r.len() implies plain_component(#[trigger] r[i]) by {
            if i < acc.len() {
                assert(r[i] == acc[i]);
            }
        }
    }
}

proof fn lemma_join_first(ks: Seq<Seq<char>>)
    requires
        ks.len() > 0,
        ks[0].len() > 0,
    ensures
        join_with(ks, seq!['/']).len() > 0,
        join_with(ks, seq!['/'])[0] == ks[0][0],
    decreases ks.len(),
{
    if ks.len() > 1 {
        lemma_join_first(ks.drop_last());
    }
}

/// An archive path never leaves the extraction root once normalized: the
/// result is relative (it does not start with `/`) and each of its components
/// is a plain name, never empty, `.` or `..`.
pub proof fn lemma_normalized_stays_inside(p: Seq<char>)
    ensures
        normalized_path(p).len() > 0 ==> normalized_path(p)[0] != '/',
        forall|i: int| 0 <= i < kept_segments(split_on(p, seq!['/'])).len()
            ==> plain_component(#[trigger] kept_segments(split_on(p, seq!['/']))[i]),
        normalized_path(p) == join_with(kept_segments(split_on(p, seq!['/'])), seq!['/']),
{
    lemma_split_pieces(p);
    let segs = split_on(p, seq!['/']);
    lemma_kept_plain(segs);
    let ks = kept_segments(segs);
    if ks.len() > 0 {
        assert(plain_component(ks[0]));
        lemma_join_first(ks);
        assert(!ks[0].contains('/'));
        assert(ks[0][0] != '/');
    }
}

proof fn lemma_join_front(ks: Seq<Seq<char>>)
    requires
        ks.len() >= 2,
    ensures
        join_with(ks, seq!['/']) == ks[0] + seq!['/'] + join_with(ks.drop_first(), seq!['/']),
    decreases ks.len(),
{
    let sep = seq!['/'];
    if ks.len() == 2 {
        assert(ks.drop_last().len() == 1);
        assert(ks.drop_first().len() == 1);
        assert(join_with(ks.drop_first(), sep) == ks.drop_first()[0]);
        assert(ks.drop_first()[0] == ks.last());
        assert(join_with(ks.drop_last(), sep) == ks.drop_last()[0]);
        assert(ks.drop_last()[0] == ks[0]);
    } else {
        let dl = ks.drop_last();
        let df = ks.drop_first();
        lemma_join_front(dl);
        assert(dl.drop_first() =~= df.drop_last());
        assert(df.last() == ks.last());
        assert(dl[0] == ks[0]);
        assert(join_with(df, sep) == join_with(df.drop_last(), sep) + sep + df.last());
        assert(join_with(ks, sep) == join_with(dl, sep) + sep + ks.last());
        assert(join_with(ks, sep) =~= ks[0] + sep + join_with(df, sep));
    }
}

proof fn lemma_split_plain(a: Seq<char>)
    requires
        !a.contains('/'),
    ensures
        split_on(a, seq!['/']) == seq![a],
{
    let sep = seq!['/'];
    assert forall|j: int| 0 <= j < a.len() implies !occurs_at(a, sep, j) by {
        lemma_slash_at(a, j);
    }
    lemma_first_occurrence(a, sep, a.len() as int);
}

proof fn lemma_split_join(ks: Seq<Seq<char>>)
    requires
        ks.len() > 0,
        forall|i: int| 0 <= i < ks.len() ==> !(#[trigger] ks[i]).contains('/'),
    ensures
        split_on(join_with(ks, seq!['/']), seq!['/']) == ks,
    decreases ks.len(),
{
    let sep = seq!['/'];
    if ks.len() == 1 {
        assert(!ks[0].contains('/'));
        lemma_split_plain(ks[0]);
        assert(seq![ks[0]] =~= ks);
    } else {
        let rest = ks.drop_first();
        assert forall|i: int| 0 <= i < rest.len() implies !(#[trigger] rest[i]).contains('/') by {
            assert(rest[i] == ks[i + 1]);
        }
        lemma_split_join(rest);
        lemma_join_front(ks);
        let a = ks[0];
        assert(!a.contains('/'));
        let s = a + sep + join_with(rest, sep);
        assert forall|j: int| 0 <= j < a.len() implies !occurs_at(s, sep, j) by {
            assert(s[j] == a[j]);
            lemma_slash_at(s, j);
        }
        assert(s[a.len() as int] == '/');
        lemma_slash_at(s, a.len() as int);
        lemma_first_occurrence(s, sep, a.len() as int);
        assert(s.subrange(0, a.len() as int) =~= a);
        assert(s.subrange(a.len() as int + 1, s.len() as int) =~= join_with(rest, sep));
        assert(seq![a] + rest =~= ks);
    }
}

proof fn lemma_kept_identity(ks: Seq<Seq<char>>)
    requires
        forall|i: int| 0 <= i < ks.len() ==> plain_component(#[trigger] ks[i]),
    ensures
        kept_segments(ks) == ks,
    decreases ks.len(),
{
    if ks.len() > 0 {
        let p = ks.drop_last();
        assert forall|i: int| 0 <= i < p.len() implies plain_component(#[trigger] p[i]) by {
            assert(p[i] == ks[i]);
        }
        lemma_kept_identity(p);
        assert(plain_component(ks[ks.len() - 1]));
        assert(p.push(ks.last()) =~= ks);
    }
}

/// Normalizing an archive path a second time changes nothing.
pub proof fn lemma_normalize_idempotent(p: Seq<char>)
    ensures
        normalized_path(normalized_path(p)) == normalized_path(p),
{
    let sep = seq!['/'];
    lemma_normalized_stays_inside(p);
    let ks = kept_segments(split_on(p, sep));
    let q = normalized_path(p);
    if ks.len() == 0 {
        assert(q == Seq::<char>::empty());
        assert(split_on(q, sep) == seq![q]);
        let one = seq![Seq::<char>::empty()];
        assert(one.drop_last() =~= Seq::<Seq<char>>::empty());
        assert(kept_segments(Seq::<Seq<char>>::empty()) == Seq::<Seq<char>>::empty());
        assert(one.last() == Seq::<char>::empty());
        assert(kept_segments(one) == Seq::<Seq<char>>::empty());
    } else {
        assert forall|i: int| 0 <= i < ks.len() implies !(#[trigger] ks[i]).contains('/') by {
            assert(plain_component(ks[i]));
        }
        lemma_split_join(ks);
        lemma_kept_identity(ks);
    }
}

} // verus!
