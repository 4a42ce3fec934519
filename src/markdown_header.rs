//! Reading the sections of `Image.md` above the layer history: basic image
//! facts and the container configuration.
use vstd::prelude::*;
use crate::digest_tracker::chars_eq;
use crate::markdown_row::{cells_of, row_cells, strip_backticks, trim_blanks, trimmed, views, without_backticks};
use crate::markdown_text::{t_comma, t_fence, t_key_row, t_port, x_comma, x_fence, x_key_row, x_port};
use crate::text::{occurs_at, occurs_at_exec, slice_chars, starts_with, starts_with_exec};

verus! {

/// Index of the last line that, trimmed, starts with `p`, or -1.
pub open spec fn last_with_prefix(ls: Seq<Seq<char>>, p: Seq<char>) -> int
    decreases ls.len(),
{
    if ls.len() == 0 {
        -1
    } else if starts_with(trim_blanks(ls.last()), p) {
        ls.len() - 1
    } else {
        last_with_prefix(ls.drop_last(), p)
    }
}

/// Index of the last line that, trimmed, is `x`, or -1.
pub open spec fn last_trimmed(ls: Seq<Seq<char>>, x: Seq<char>) -> int
    decreases ls.len(),
{
    if ls.len() == 0 {
        -1
    } else if trim_blanks(ls.last()) == x {
        ls.len() - 1
    } else {
        last_trimmed(ls.drop_last(), x)
    }
}

/// What follows `p` on the last line that starts with it, if there is one.
pub open spec fn field_after(ls: Seq<Seq<char>>, p: Seq<char>) -> Option<Seq<char>> {
    let k = last_with_prefix(ls, p);
    if 0 <= k < ls.len() {
        let t = trim_blanks(ls[k]);
        Some(t.subrange(p.len() as int, t.len() as int))
    } else {
        None
    }
}

/// The line at `j`, trimmed, or nothing past the end.
pub open spec fn trimmed_at(ls: Seq<Seq<char>>, j: int) -> Option<Seq<char>> {
    if 0 <= j < ls.len() { Some(trim_blanks(ls[j])) } else { None }
}

/// Index of the first occurrence of `sep` in `s`, or -1.
pub open spec fn first_occurrence(s: Seq<char>, sep: Seq<char>) -> int
    decreases s.len(),
{
    if s.len() < sep.len() {
        -1
    } else if occurs_at(s, sep, 0) {
        0
    } else if s.len() == 0 {
        -1
    } else {
        let k = first_occurrence(s.drop_first(), sep);
        if k < 0 { -1 } else { k + 1 }
    }
}

/// `s` cut at each occurrence of the non-empty `sep`.
pub open spec fn split_on(s: Seq<char>, sep: Seq<char>) -> Seq<Seq<char>>
    decreases s.len(),
{
    let k = first_occurrence(s, sep);
    if sep.len() == 0 || k < 0 || k + sep.len() > s.len() {
        seq![s]
    } else {
        seq![s.subrange(0, k)] + split_on(s.subrange(k + sep.len(), s.len() as int), sep)
    }
}

/// The lines of a fenced block from `j` up to its closing fence, blank lines left out.
pub open spec fn fenced_run(ls: Seq<Seq<char>>, j: int) -> Seq<Seq<char>>
    decreases ls.len() - j,
{
    if j < 0 || j >= ls.len() || trim_blanks(ls[j]) == t_fence() {
        seq![]
    } else if trim_blanks(ls[j]).len() > 0 {
        seq![ls[j]] + fenced_run(ls, j + 1)
    } else {
        fenced_run(ls, j + 1)
    }
}

/// The port bullets from `j` on: each line opening with a dash and a backtick gives the port it names.
pub open spec fn port_run(ls: Seq<Seq<char>>, j: int) -> Seq<Seq<char>>
    decreases ls.len() - j,
{
    if 0 <= j < ls.len() && starts_with(trim_blanks(ls[j]), t_port()) {
        let t = trim_blanks(ls[j]);
        seq![strip_backticks(t.subrange(3, t.len() as int))] + port_run(ls, j + 1)
    } else {
        seq![]
    }
}

/// `labels` with `key` set to `value`: in place when the key is there, at the end otherwise.
pub open spec fn upsert(labels: Seq<(Seq<char>, Seq<char>)>, key: Seq<char>, value: Seq<char>) -> Seq<(Seq<char>, Seq<char>)> {
    if exists|i: int| 0 <= i < labels.len() && labels[i].0 == key {
        let i = choose|i: int| 0 <= i < labels.len() && labels[i].0 == key;
        labels.update(i, (key, value))
    } else {
        labels.push((key, value))
    }
}

/// Whether no two entries share a key.
pub open spec fn keys_unique(labels: Seq<(Seq<char>, Seq<char>)>) -> bool {
    forall|i: int, j: int| 0 <= i < labels.len() && 0 <= j < labels.len() && i != j ==> labels[i].0 != labels[j].0
}

/// The key and value of a label row, when both are present.
pub open spec fn label_of(l: Seq<char>) -> Option<(Seq<char>, Seq<char>)> {
    let c = row_cells(l);
    if c.len() >= 3 {
        let k = strip_backticks(trim_blanks(c[1]));
        let v = strip_backticks(trim_blanks(c[2]));
        if k.len() > 0 && v.len() > 0 { Some((k, v)) } else { None }
    } else {
        None
    }
}

/// Whether a line continues the labels table.
pub open spec fn is_label_line(l: Seq<char>) -> bool {
    let t = trim_blanks(l);
    t.len() > 0 && t[0] == '|' && !starts_with(t, t_key_row())
}

/// The labels read from the run of label rows starting at `j`, set in order on top of `acc`.
pub open spec fn label_run(ls: Seq<Seq<char>>, j: int, acc: Seq<(Seq<char>, Seq<char>)>) -> Seq<(Seq<char>, Seq<char>)>
    decreases ls.len() - j,
{
    if 0 <= j < ls.len() && is_label_line(ls[j]) {
        let next = match label_of(ls[j]) {
            Some((k, v)) => upsert(acc, k, v),
            None => acc,
        };
        label_run(ls, j + 1, next)
    } else {
        acc
    }
}

// ---------------------------------------------------------------------------
// Executable reading

/// Index of the last line whose trimmed form starts with `p`.
pub fn find_last_prefixed(ls: &Vec<Vec<char>>, p: &Vec<char>) -> (r: Option<usize>)
    ensures
        r.is_none() ==> last_with_prefix(views(ls@), p@) < 0,
        r.is_some() ==> last_with_prefix(views(ls@), p@) == r.unwrap() as int && r.unwrap() < ls.len(),
{
    let mut i: usize = ls.len();
    assert(views(ls@).subrange(0, i as int) =~= views(ls@));
    while i > 0
        invariant
            i <= ls.len(),
            last_with_prefix(views(ls@), p@) == last_with_prefix(views(ls@).subrange(0, i as int), p@),
        decreases i,
    {
        let ghost q = views(ls@).subrange(0, i as int);
        assert(q.last() == ls@[i - 1]@);
        let t = trimmed(&ls[i - 1]);
        if starts_with_exec(&t, p) {
            return Some(i - 1);
        }
        assert(q.drop_last() =~= views(ls@).subrange(0, i - 1));
        i = i - 1;
    }
    None
}

/// Index of the last line whose trimmed form is `x`.
pub fn find_last_trimmed(ls: &Vec<Vec<char>>, x: &Vec<char>) -> (r: Option<usize>)
    ensures
        r.is_none() ==> last_trimmed(views(ls@), x@) < 0,
        r.is_some() ==> last_trimmed(views(ls@), x@) == r.unwrap() as int && r.unwrap() < ls.len(),
{
    let mut i: usize = ls.len();
    assert(views(ls@).subrange(0, i as int) =~= views(ls@));
    while i > 0
        invariant
            i <= ls.len(),
            last_trimmed(views(ls@), x@) == last_trimmed(views(ls@).subrange(0, i as int), x@),
        decreases i,
    {
        let ghost q = views(ls@).subrange(0, i as int);
        assert(q.last() == ls@[i - 1]@);
        let t = trimmed(&ls[i - 1]);
        if chars_eq(&t, x) {
            return Some(i - 1);
        }
        assert(q.drop_last() =~= views(ls@).subrange(0, i - 1));
        i = i - 1;
    }
    None
}

proof fn lemma_last_with_prefix(ls: Seq<Seq<char>>, p: Seq<char>)
    ensures
        last_with_prefix(ls, p) < ls.len(),
        last_with_prefix(ls, p) >= 0 ==> starts_with(trim_blanks(ls[last_with_prefix(ls, p)]), p),
    decreases ls.len(),
{
    if ls.len() > 0 && !starts_with(trim_blanks(ls.last()), p) {
        lemma_last_with_prefix(ls.drop_last(), p);
        let k = last_with_prefix(ls.drop_last(), p);
        if k >= 0 {
            assert(ls.drop_last()[k] == ls[k]);
        }
    }
}

/// What follows `p` on the last line that starts with it (see `field_after`).
pub fn read_field(ls: &Vec<Vec<char>>, p: &Vec<char>) -> (r: Option<Vec<char>>)
    ensures
        r.is_some() == field_after(views(ls@), p@).is_some(),
        r.is_some() ==> r.unwrap()@ == field_after(views(ls@), p@).unwrap(),
{
    match find_last_prefixed(ls, p) {
        Some(k) => {
            let t = trimmed(&ls[k]);
            assert(views(ls@)[k as int] == ls@[k as int]@);
            proof {
                lemma_last_with_prefix(views(ls@), p@);
            }
            Some(slice_chars(&t, p.len(), t.len()))
        },
        None => None,
    }
}

/// The trimmed line at `j`, if there is one.
pub fn read_trimmed_at(ls: &Vec<Vec<char>>, j: usize) -> (r: Option<Vec<char>>)
    ensures
        r.is_some() == trimmed_at(views(ls@), j as int).is_some(),
        r.is_some() ==> r.unwrap()@ == trimmed_at(views(ls@), j as int).unwrap(),
{
    if j < ls.len() {
        assert(views(ls@)[j as int] == ls@[j as int]@);
        Some(trimmed(&ls[j]))
    } else {
        None
    }
}

pub(crate) proof fn lemma_first_occurrence(s: Seq<char>, sep: Seq<char>, k: int)
    requires
        0 <= k <= s.len(),
        sep.len() > 0,
        forall|j: int| 0 <= j < k ==> !occurs_at(s, sep, j),
        k + sep.len() <= s.len() ==> occurs_at(s, sep, k),
        k + sep.len() > s.len() ==> k == s.len(),
    ensures
        first_occurrence(s, sep) == (if k + sep.len() <= s.len() { k } else { -1 }),
    decreases k,
{
    if k > 0 && s.len() >= sep.len() {
        let t = s.drop_first();
        assert forall|j: int| 0 <= j < k - 1 implies !occurs_at(t, sep, j) by {
            assert(!occurs_at(s, sep, j + 1));
            if occurs_at(t, sep, j) {
                assert(s.subrange(j + 1, j + 1 + sep.len()) =~= t.subrange(j, j + sep.len()));
            }
        }
        if k + sep.len() <= s.len() {
            assert(s.subrange(k, k + sep.len()) =~= t.subrange(k - 1, k - 1 + sep.len()));
        }
        assert(!occurs_at(s, sep, 0));
        lemma_first_occurrence(t, sep, k - 1);
    } else if k > 0 {
        assert(s.len() < sep.len());
    }
}

/// `split_on(s, sep)`.
pub fn split_by(s: &Vec<char>, sep: &Vec<char>) -> (r: Vec<Vec<char>>)
    requires
        sep.len() > 0,
    ensures
        views(r@) == split_on(s@, sep@),
{
    let mut out: Vec<Vec<char>> = Vec::new();
    let mut start: usize = 0;
    let mut i: usize = 0;
    assert(s@.subrange(0, s.len() as int) =~= s@);
    while i < s.len()
        invariant
            sep.len() > 0,
            start <= i <= s.len(),
            views(out@) + split_on(s@.subrange(start as int, s.len() as int), sep@) == split_on(s@, sep@),
            forall|j: int| 0 <= j < i - start ==> !occurs_at(s@.subrange(start as int, s.len() as int), sep@, j),
        decreases s.len() - i,
    {
        let ghost t = s@.subrange(start as int, s.len() as int);
        if occurs_at_exec(s, sep, i) {
            proof {
                assert(t.subrange(i - start, i - start + sep.len()) =~= s@.subrange(i as int, i + sep.len()));
                lemma_first_occurrence(t, sep@, i - start);
                assert(t.subrange(0, i - start) =~= s@.subrange(start as int, i as int));
                assert(t.subrange(i - start + sep.len(), t.len() as int) =~= s@.subrange(i + sep.len(), s.len() as int));
            }
            let piece = slice_chars(s, start, i);
            let ghost v0 = views(out@);
            out.push(piece);
            assert(views(out@) =~= v0.push(piece@));
            assert(views(out@) + split_on(s@.subrange(i + sep.len(), s.len() as int), sep@) =~= v0 + split_on(t, sep@));
            start = i + sep.len();
            i = i + sep.len();
        } else {
            proof {
                if occurs_at(t, sep@, i - start) {
                    assert(t.subrange(i - start, i - start + sep.len()) =~= s@.subrange(i as int, i + sep.len()));
                }
            }
            i = i + 1;
        }
    }
    let ghost t = s@.subrange(start as int, s.len() as int);
    proof {
        lemma_first_occurrence(t, sep@, t.len() as int);
    }
    let piece = slice_chars(s, start, s.len());
    let ghost v0 = views(out@);
    out.push(piece);
    assert(views(out@) =~= v0 + split_on(t, sep@));
    out
}

/// The non-blank lines of a fenced block starting at `j` (see `fenced_run`).
pub fn read_fenced(ls: &Vec<Vec<char>>, j: usize) -> (r: Vec<Vec<char>>)
    ensures
        views(r@) == fenced_run(views(ls@), j as int),
{
    let fence = x_fence();
    let mut out: Vec<Vec<char>> = Vec::new();
    let mut i: usize = j;
    let ghost v = views(ls@);
    loop
        invariant
            j <= i,
            v == views(ls@),
            fence@ == t_fence(),
            views(out@) + fenced_run(v, i as int) == fenced_run(v, j as int),
        decreases ls.len() - i,
    {
        if i >= ls.len() {
            assert(views(out@) + fenced_run(v, i as int) =~= views(out@));
            return out;
        }
        assert(v[i as int] == ls@[i as int]@);
        let t = trimmed(&ls[i]);
        if chars_eq(&t, &fence) {
            assert(views(out@) + fenced_run(v, i as int) =~= views(out@));
            return out;
        }
        if t.len() > 0 {
            let line = slice_chars(&ls[i], 0, ls[i].len());
            assert(line@ =~= ls@[i as int]@);
            let ghost o0 = views(out@);
            out.push(line);
            assert(views(out@) =~= o0.push(line@));
            assert(views(out@) + fenced_run(v, i + 1) =~= o0 + (seq![v[i as int]] + fenced_run(v, i + 1)));
        }
        i = i + 1;
    }
}

/// The exposed ports listed from `j` on (see `port_run`).
pub fn read_ports(ls: &Vec<Vec<char>>, j: usize) -> (r: Vec<Vec<char>>)
    ensures
        views(r@) == port_run(views(ls@), j as int),
{
    let prefix = x_port();
    proof {
        crate::markdown_text::lemma_t_port();
    }
    let mut out: Vec<Vec<char>> = Vec::new();
    let mut i: usize = j;
    let ghost v = views(ls@);
    loop
        invariant
            j <= i,
            v == views(ls@),
            prefix@ == t_port(),
            t_port().len() == 3,
            views(out@) + port_run(v, i as int) == port_run(v, j as int),
        decreases ls.len() - i,
    {
        if i >= ls.len() {
            assert(views(out@) + port_run(v, i as int) =~= views(out@));
            return out;
        }
        assert(v[i as int] == ls@[i as int]@);
        let t = trimmed(&ls[i]);
        if !starts_with_exec(&t, &prefix) {
            assert(views(out@) + port_run(v, i as int) =~= views(out@));
            return out;
        }
        let port = without_backticks(&slice_chars(&t, 3, t.len()));
        let ghost o0 = views(out@);
        out.push(port);
        assert(views(out@) =~= o0.push(port@));
        assert(views(out@) + port_run(v, i + 1) =~= o0 + (seq![port@] + port_run(v, i + 1)));
        i = i + 1;
    }
}

/// The label row's key and value (see `label_of`).
pub fn read_label(l: &Vec<char>) -> (r: Option<(Vec<char>, Vec<char>)>)
    ensures
        r.is_some() == label_of(l@).is_some(),
        r.is_some() ==> (r.unwrap().0@, r.unwrap().1@) == label_of(l@).unwrap(),
{
    let c = cells_of(l);
    if c.len() < 3 {
        return None;
    }
    assert(views(c@)[1] == c@[1]@ && views(c@)[2] == c@[2]@);
    let k = without_backticks(&trimmed(&c[1]));
    let v = without_backticks(&trimmed(&c[2]));
    if k.len() > 0 && v.len() > 0 { Some((k, v)) } else { None }
}

/// The characters of each label.
pub open spec fn label_views(v: Seq<(Vec<char>, Vec<char>)>) -> Seq<(Seq<char>, Seq<char>)> {
    Seq::new(v.len(), |i: int| (v[i].0@, v[i].1@))
}

/// Sets `key` to `value` (see `upsert`); keys stay unique.
pub fn upsert_label(labels: &mut Vec<(Vec<char>, Vec<char>)>, key: Vec<char>, value: Vec<char>)
    requires
        keys_unique(label_views(old(labels)@)),
    ensures
        label_views(final(labels)@) == upsert(label_views(old(labels)@), key@, value@),
        keys_unique(label_views(final(labels)@)),
{
    let ghost old_v = label_views(labels@);
    let ghost kv = key@;
    let ghost vv = value@;
    let mut i: usize = 0;
    while i < labels.len()
        invariant
            i <= labels.len(),
            labels@ == old(labels)@,
            old_v == label_views(labels@),
            keys_unique(old_v),
            kv == key@,
            vv == value@,
            forall|j: int| 0 <= j < i ==> old_v[j].0 != kv,
        decreases labels.len() - i,
    {
        if chars_eq(&labels[i].0, &key) {
            assert(old_v[i as int].0 == kv);
            labels.set(i, (key, value));
            proof {
                let c = choose|c: int| 0 <= c < old_v.len() && old_v[c].0 == kv;
                assert(c == i);
                assert(label_views(labels@) =~= old_v.update(i as int, (kv, vv)));
                let n = label_views(labels@);
                assert forall|a: int, b: int| 0 <= a < n.len() && 0 <= b < n.len() && a != b implies n[a].0 != n[b].0 by {
                    assert(n[a].0 == old_v[a].0);
                    assert(n[b].0 == old_v[b].0);
                }
            }
            return;
        }
        i = i + 1;
    }
    labels.push((key, value));
    assert(!(exists|c: int| 0 <= c < old_v.len() && old_v[c].0 == kv));
    assert(label_views(labels@) =~= old_v.push((kv, vv)));
    proof {
        let n = label_views(labels@);
        assert forall|a: int, b: int| 0 <= a < n.len() && 0 <= b < n.len() && a != b implies n[a].0 != n[b].0 by {
            if a < old_v.len() && b < old_v.len() {
            } else if a < old_v.len() {
                assert(n[a].0 == old_v[a].0);
            } else if b < old_v.len() {
                assert(n[b].0 == old_v[b].0);
            }
        }
    }
}

/// The labels of the rows from `j` on (see `label_run`, starting from none).
pub fn read_labels(ls: &Vec<Vec<char>>, j: usize) -> (r: Vec<(Vec<char>, Vec<char>)>)
    ensures
        label_views(r@) == label_run(views(ls@), j as int, seq![]),
        keys_unique(label_views(r@)),
{
    let key_row = x_key_row();
    let mut out: Vec<(Vec<char>, Vec<char>)> = Vec::new();
    let mut i: usize = j;
    let ghost v = views(ls@);
    assert(label_views(out@) =~= Seq::<(Seq<char>, Seq<char>)>::empty());
    loop
        invariant
            j <= i,
            v == views(ls@),
            key_row@ == t_key_row(),
            keys_unique(label_views(out@)),
            label_run(v, i as int, label_views(out@)) == label_run(v, j as int, seq![]),
        decreases ls.len() - i,
    {
        if i >= ls.len() {
            return out;
        }
        assert(v[i as int] == ls@[i as int]@);
        let t = trimmed(&ls[i]);
        let is_row = t.len() > 0 && t[0] == '|' && !starts_with_exec(&t, &key_row);
        if !is_row {
            return out;
        }
        match read_label(&ls[i]) {
            Some((k, val)) => {
                upsert_label(&mut out, k, val);
            },
            None => {},
        }
        i = i + 1;
    }
}

} // verus!
