//! Git-safe branch names derived from image references, tarball paths,
//! platform and image digest.
use vstd::prelude::*;
use crate::image_metadata::{first_index_of, lemma_first_index_facts};
use crate::text::{chars_of, contains_char, push_all, slice_chars, starts_with, starts_with_exec, string_of};

verus! {

/// The characters that the Unicode tables class as alphabetic or numeric.
pub uninterp spec fn is_alnum(c: char) -> bool;

/// Relies on `char::is_alphanumeric`: whether Unicode classes the character
/// as alphabetic or numeric.
#[verifier::external_body]
fn char_is_alphanumeric(c: char) -> (r: bool)
    ensures
        r == is_alnum(c),
{
    c.is_alphanumeric()
}

/// A letter or digit: for ASCII the 62 letters and digits, beyond ASCII what
/// Unicode classes as alphabetic or numeric.
pub open spec fn alnum(c: char) -> bool {
    if (c as u32) < 128 {
        ('a' <= c && c <= 'z') || ('A' <= c && c <= 'Z') || ('0' <= c && c <= '9')
    } else {
        is_alnum(c)
    }
}

/// Whether `c` is a letter or digit (see `alnum`).
fn is_letter_or_digit(c: char) -> (r: bool)
    ensures
        r == alnum(c),
{
    if (c as u32) < 128 {
        ('a' <= c && c <= 'z') || ('A' <= c && c <= 'Z') || ('0' <= c && c <= '9')
    } else {
        char_is_alphanumeric(c)
    }
}

/// What one character of a name becomes: letters, digits, `_`, `#` and `-` stay,
/// everything else (whitespace, path and shell punctuation, `.`) becomes `-`.
pub open spec fn safe_char(c: char) -> char {
    if alnum(c) || c == '_' || c == '#' || c == '-' { c } else { '-' }
}

/// `s` with every character mapped by `safe_char`.
pub open spec fn map_safe(s: Seq<char>) -> Seq<char> {
    Seq::new(s.len(), |i: int| safe_char(s[i]))
}

/// `s` with every run of `-` collapsed to one and leading and trailing `-` removed.
pub open spec fn squeeze_dashes(s: Seq<char>) -> Seq<char>
    decreases s.len(),
{
    if s.len() == 0 {
        seq![]
    } else {
        let p = s.drop_last();
        let c = s.last();
        if c == '-' {
            squeeze_dashes(p)
        } else if p.len() > 0 && p.last() == '-' && squeeze_dashes(p).len() > 0 {
            squeeze_dashes(p).push('-').push(c)
        } else {
            squeeze_dashes(p).push(c)
        }
    }
}

/// The sanitized form of a name.
pub open spec fn sanitized(s: Seq<char>) -> Seq<char> {
    squeeze_dashes(map_safe(s))
}

/// Makes a name safe for a Git branch: see `sanitized`.
pub fn sanitize_branch_name(name: &str) -> (r: String)
    ensures
        r@ == sanitized(name@),
{
    let s = chars_of(name);
    let mut out: Vec<char> = Vec::new();
    let mut i: usize = 0;
    let ghost m = map_safe(s@);
    while i < s.len()
        invariant
            i <= s.len(),
            m == map_safe(s@),
            out@ == squeeze_dashes(m.subrange(0, i as int)),
        decreases s.len() - i,
    {
        let c = s[i];
        let keep = is_letter_or_digit(c) || c == '_' || c == '#' || c == '-';
        let d = if keep { c } else { '-' };
        proof {
            let q = m.subrange(0, i + 1);
            assert(q.drop_last() =~= m.subrange(0, i as int));
            assert(q.last() == d);
        }
        if d != '-' {
            if i > 0 && out.len() > 0 {
                let prev = s[i - 1];
                let pkeep = is_letter_or_digit(prev) || prev == '_' || prev == '#' || prev == '-';
                let pd = if pkeep { prev } else { '-' };
                proof {
                    assert(m.subrange(0, i as int).last() == pd);
                }
                if pd == '-' {
                    out.push('-');
                }
            }
            out.push(d);
        }
        i = i + 1;
    }
    assert(m.subrange(0, s.len() as int) =~= m);
    string_of(out.as_slice())
}

/// The `sha256:` prefix of a content digest.
pub open spec fn sha_prefix() -> Seq<char> {
    seq!['s', 'h', 'a', '2', '5', '6', ':']
}

/// Exec copy of `sha_prefix`.
pub fn sha_prefix_exec() -> (r: Vec<char>)
    ensures
        r@ == sha_prefix(),
{
    let r = chars_of("sha256:");
    proof {
        reveal_strlit("sha256:");
        assert(r@ =~= sha_prefix());
    }
    r
}

/// The short form of a digest: the first twelve characters after `sha256:`,
/// or nothing when the prefix is missing.
pub open spec fn short_digest(id: Seq<char>) -> Option<Seq<char>> {
    if starts_with(id, sha_prefix()) {
        let rest = id.subrange(7, id.len() as int);
        Some(if rest.len() <= 12 { rest } else { rest.subrange(0, 12) })
    } else {
        None
    }
}

/// The short form of an image id (see `short_digest`).
pub fn extract_short_digest(image_id: &str) -> (r: Option<String>)
    ensures
        r.is_some() == short_digest(image_id@).is_some(),
        r.is_some() ==> r.unwrap()@ == short_digest(image_id@).unwrap(),
{
    let s = chars_of(image_id);
    let p = sha_prefix_exec();
    if starts_with_exec(&s, &p) {
        let end: usize = if s.len() - 7 <= 12 { s.len() } else { 19 };
        let v = slice_chars(&s, 7, end);
        proof {
            let rest = s@.subrange(7, s@.len() as int);
            if rest.len() > 12 {
                assert(rest.subrange(0, 12) =~= s@.subrange(7, 19));
            } else {
                assert(rest =~= s@.subrange(7, end as int));
            }
        }
        Some(string_of(v.as_slice()))
    } else {
        None
    }
}

/// `s` with `:` turned into `#` and `/` and `@` into `-`.
pub open spec fn ref_char(c: char) -> char {
    if c == ':' { '#' } else if c == '/' || c == '@' { '-' } else { c }
}

/// The `:latest` suffix that an untagged reference receives.
pub open spec fn latest_suffix() -> Seq<char> {
    seq![':', 'l', 'a', 't', 'e', 's', 't']
}

/// A container reference with its tag made explicit.
pub open spec fn with_default_tag(s: Seq<char>) -> Seq<char> {
    if !s.contains(':') && !s.contains('@') { s + latest_suffix() } else { s }
}

/// An ASCII upper-case letter.
pub open spec fn is_ascii_upper(c: char) -> bool {
    'A' <= c && c <= 'Z'
}

/// `c` with an ASCII upper-case letter made lower case.
pub open spec fn lower_ascii(c: char) -> char {
    if is_ascii_upper(c) { ((c as u32) + 32) as char } else { c }
}

/// How long the name part of a reference is: up to its first `:` (the tag
/// separator), or all of it.
pub open spec fn name_len(n: Seq<char>) -> int {
    let k = first_index_of(n, ':');
    if k < 0 { n.len() as int } else { k }
}

/// The branch base of a container reference: the tag made explicit, the name
/// part lower-cased, `:` as `#`, `/` and `@` as `-`.
pub open spec fn image_branch(s: Seq<char>) -> Seq<char> {
    let n = with_default_tag(s);
    Seq::new(n.len(), |i: int| if i < name_len(n) { ref_char(lower_ascii(n[i])) } else { ref_char(n[i]) })
}

/// `c` lower-cased when it is an ASCII capital (see `lower_ascii`).
fn to_lower_ascii(c: char) -> (r: char)
    ensures
        r == lower_ascii(c),
{
    if 'A' <= c && c <= 'Z' {
        (((c as u32) + 32) as u8) as char
    } else {
        c
    }
}

/// Branch base of a container reference: `name#tag`, the name part in lower
/// case, with `/` and `@` as `-`.
pub fn container_image_to_branch(image_name: &str) -> (r: String)
    ensures
        r@ == image_branch(image_name@),
        forall|i: int| 0 <= i < name_len(with_default_tag(image_name@)) ==> !is_ascii_upper(#[trigger] r@[i]),
{
    let mut s = chars_of(image_name);
    if !contains_char(&s, ':') && !contains_char(&s, '@') {
        let suffix = chars_of(":latest");
        proof {
            reveal_strlit(":latest");
            assert(suffix@ =~= latest_suffix());
        }
        push_all(&mut s, &suffix);
    }
    let ghost n = s@;
    assert(n == with_default_tag(image_name@));
    let mut out: Vec<char> = Vec::new();
    let mut i: usize = 0;
    let mut in_name = true;
    while i < s.len()
        invariant
            i <= s.len(),
            s@ == n,
            in_name == (i <= name_len(n)),
            forall|j: int| 0 <= j < i ==> n[j] != ':' || j >= name_len(n),
            out@ =~= Seq::new(i as nat, |k: int| if k < name_len(n) { ref_char(lower_ascii(n[k])) } else { ref_char(n[k]) }),
        decreases s.len() - i,
    {
        let c = s[i];
        proof {
            lemma_name_len(n);
        }
        let base = if in_name { to_lower_ascii(c) } else { c };
        let d = if base == ':' { '#' } else if base == '/' || base == '@' { '-' } else { base };
        out.push(d);
        if c == ':' {
            in_name = false;
        }
        i = i + 1;
    }
    proof {
        assert forall|j: int| 0 <= j < name_len(n) implies !is_ascii_upper(#[trigger] out@[j]) by {
            lemma_name_len(n);
        }
    }
    string_of(out.as_slice())
}

/// The name part ends at the first `:`, or at the end.
proof fn lemma_name_len(n: Seq<char>)
    ensures
        0 <= name_len(n) <= n.len(),
        name_len(n) < n.len() ==> n[name_len(n)] == ':',
        forall|j: int| 0 <= j < name_len(n) ==> n[j] != ':',
{
    lemma_first_index_facts(n, ':');
}

/// Index of the last `c` in `s`, or -1 when there is none.
pub open spec fn last_index_of(s: Seq<char>, c: char) -> int
    decreases s.len(),
{
    if s.len() == 0 {
        -1
    } else if s.last() == c {
        s.len() - 1
    } else {
        last_index_of(s.drop_last(), c)
    }
}

proof fn lemma_last_index_bounds(s: Seq<char>, c: char)
    ensures
        -1 <= last_index_of(s, c) < s.len(),
        last_index_of(s, c) >= 0 ==> s[last_index_of(s, c)] == c,
    decreases s.len(),
{
    if s.len() > 0 && s.last() != c {
        lemma_last_index_bounds(s.drop_last(), c);
    }
}

/// The final component of a path when it names a file: trailing `/` and `.`
/// components are passed over, and a final `..` names none.
pub open spec fn file_name(p: Seq<char>) -> Option<Seq<char>>
    decreases p.len(),
{
    let k = last_index_of(p, '/');
    let seg = p.subrange(k + 1, p.len() as int);
    if seg.len() == 0 || seg == seq!['.'] {
        if k < 0 || k >= p.len() {
            None
        } else {
            file_name(p.subrange(0, k))
        }
    } else if seg == seq!['.', '.'] {
        None
    } else {
        Some(seg)
    }
}

/// A file name without its extension: up to the last `.`, unless that dot
/// leads the name or there is none.
pub open spec fn stem(name: Seq<char>) -> Seq<char> {
    let k = last_index_of(name, '.');
    if k <= 0 { name } else { name.subrange(0, k) }
}

/// The default base used when a path has no file name.
pub open spec fn tar_image_fallback() -> Seq<char> {
    seq!['t', 'a', 'r', '-', 'i', 'm', 'a', 'g', 'e']
}

/// The branch base of a tarball path.
pub open spec fn tar_branch(p: Seq<char>) -> Seq<char> {
    match file_name(p) {
        Some(n) => sanitized(stem(n)),
        None => sanitized(tar_image_fallback()),
    }
}

/// Finds the last `c` among the first `end` characters, as `last_index_of`.
fn find_last(s: &Vec<char>, end: usize, c: char) -> (r: Option<usize>)
    requires
        end <= s.len(),
    ensures
        r.is_none() ==> last_index_of(s@.subrange(0, end as int), c) == -1,
        r.is_some() ==> last_index_of(s@.subrange(0, end as int), c) == r.unwrap() as int,
{
    let mut i: usize = end;
    while i > 0
        invariant
            i <= end <= s.len(),
            last_index_of(s@.subrange(0, end as int), c) == last_index_of(s@.subrange(0, i as int), c),
        decreases i,
    {
        let ghost q = s@.subrange(0, i as int);
        if s[i - 1] == c {
            return Some(i - 1);
        }
        assert(q.drop_last() =~= s@.subrange(0, i - 1));
        i = i - 1;
    }
    None
}

/// Where the stem of `name` ends: the last `.`, or `None` when `stem` keeps the whole name.
pub fn find_last_dot(name: &Vec<char>) -> (r: Option<usize>)
    ensures
        r.is_none() ==> stem(name@) == name@,
        r.is_some() ==> r.unwrap() <= name.len() && (r.unwrap() == 0 ==> stem(name@) == name@)
            && (r.unwrap() > 0 ==> stem(name@) == name@.subrange(0, r.unwrap() as int)),
{
    let k = find_last(name, name.len(), '.');
    assert(name@.subrange(0, name.len() as int) =~= name@);
    proof {
        lemma_last_index_bounds(name@, '.');
    }
    k
}

/// Index of the last `/` of a path.
pub fn path_last_slash(p: &Vec<char>) -> (r: Option<usize>)
    ensures
        r.is_none() ==> last_index_of(p@, '/') == -1,
        r.is_some() ==> last_index_of(p@, '/') == r.unwrap() as int && r.unwrap() < p.len(),
{
    let k = find_last(p, p.len(), '/');
    assert(p@.subrange(0, p.len() as int) =~= p@);
    proof {
        lemma_last_index_bounds(p@, '/');
    }
    k
}

/// The path before the final named component (see `file_name`).
pub open spec fn parent_of(p: Seq<char>) -> Seq<char>
    decreases p.len(),
{
    let k = last_index_of(p, '/');
    let seg = p.subrange(k + 1, p.len() as int);
    if seg.len() == 0 || seg == seq!['.'] {
        if k < 0 || k >= p.len() {
            seq![]
        } else {
            parent_of(p.subrange(0, k))
        }
    } else if k < 0 {
        seq![]
    } else {
        p.subrange(0, k)
    }
}

/// The file name of a path and the length of its parent path.
pub fn path_parent_and_name(p: &Vec<char>) -> (r: Option<(usize, Vec<char>)>)
    ensures
        r.is_some() == file_name(p@).is_some(),
        r.is_some() ==> r.unwrap().1@ == file_name(p@).unwrap(),
        r.is_some() ==> r.unwrap().0 <= p.len(),
        r.is_some() ==> p@.subrange(0, r.unwrap().0 as int) == parent_of(p@),
{
    let mut end: usize = p.len();
    assert(p@.subrange(0, end as int) =~= p@);
    loop
        invariant
            end <= p.len(),
            file_name(p@) == file_name(p@.subrange(0, end as int)),
            parent_of(p@) == parent_of(p@.subrange(0, end as int)),
        decreases end,
    {
        let ghost q = p@.subrange(0, end as int);
        let k = find_last(p, end, '/');
        proof {
            lemma_last_index_bounds(q, '/');
        }
        let lo: usize = match k { Some(k) => k + 1, None => 0 };
        let seg = slice_chars(p, lo, end);
        assert(seg@ =~= q.subrange(last_index_of(q, '/') + 1, q.len() as int));
        let is_dot = seg.len() == 1 && seg[0] == '.';
        let is_dotdot = seg.len() == 2 && seg[0] == '.' && seg[1] == '.';
        proof {
            if is_dot { assert(seg@ =~= seq!['.']); }
            if seg@ == seq!['.'] { assert(seg@[0] == '.'); }
            if is_dotdot { assert(seg@ =~= seq!['.', '.']); }
            if seg@ == seq!['.', '.'] { assert(seg@[0] == '.' && seg@[1] == '.'); }
        }
        if seg.len() == 0 || is_dot {
            match k {
                None => { return None; },
                Some(k) => {
                    assert(q.subrange(0, k as int) =~= p@.subrange(0, k as int));
                    end = k;
                },
            }
        } else if is_dotdot {
            return None;
        } else {
            match k {
                None => {
                    assert(p@.subrange(0, 0) =~= seq![]);
                    return Some((0, seg));
                },
                Some(k) => {
                    assert(q.subrange(0, k as int) =~= p@.subrange(0, k as int));
                    return Some((k, seg));
                },
            }
        }
    }
}

/// The file name of a path, as `file_name`.
pub fn path_file_name(p: &Vec<char>) -> (r: Option<Vec<char>>)
    ensures
        r.is_some() == file_name(p@).is_some(),
        r.is_some() ==> r.unwrap()@ == file_name(p@).unwrap(),
{
    match path_parent_and_name(p) {
        Some((_, name)) => Some(name),
        None => None,
    }
}

/// Branch base of a tarball path: the sanitized file stem, or `tar-image`.
pub fn tar_path_to_branch(tar_path: &str) -> (r: String)
    ensures
        r@ == tar_branch(tar_path@),
{
    let p = chars_of(tar_path);
    match path_file_name(&p) {
        Some(name) => {
            let k = find_last_dot(&name);
            let st = match k {
                Some(k) => if k == 0 { name } else { slice_chars(&name, 0, k) },
                None => name,
            };
            let s = string_of(st.as_slice());
            sanitize_branch_name(s.as_str())
        },
        None => {
            let s = String::from_str("tar-image");
            proof {
                reveal_strlit("tar-image");
                assert(s@ =~= tar_image_fallback());
            }
            sanitize_branch_name(s.as_str())
        },
    }
}

/// The tag that joins a branch base to the next part.
pub open spec fn with_part(base: Seq<char>, part: Seq<char>) -> Seq<char> {
    base + seq!['#'] + part
}

/// A branch base followed by the short digest, or the whole digest when it
/// lacks the `sha256:` prefix.
pub open spec fn branch_with_digest(base: Seq<char>, digest: Seq<char>) -> Seq<char> {
    match short_digest(digest) {
        Some(d) => with_part(base, d),
        None => with_part(base, digest),
    }
}

/// Joins `a`, `#` and `b`.
fn join_hash(a: &str, b: &str) -> (r: String)
    ensures
        r@ == with_part(a@, b@),
{
    let mut v = chars_of(a);
    v.push('#');
    let w = chars_of(b);
    push_all(&mut v, &w);
    string_of(v.as_slice())
}

/// `base#short-digest`, or `base#digest` when the digest has no `sha256:` prefix.
pub fn combine_branch_with_digest(base_branch: &str, image_digest: &str) -> (r: String)
    ensures
        r@ == branch_with_digest(base_branch@, image_digest@),
{
    match extract_short_digest(image_digest) {
        Some(d) => join_hash(base_branch, d.as_str()),
        None => join_hash(base_branch, image_digest),
    }
}

/// The full branch name: base, platform and digest, joined by `#`.
pub open spec fn full_branch(base: Seq<char>, os_arch: Seq<char>, digest: Seq<char>) -> Seq<char> {
    branch_with_digest(with_part(base, os_arch), digest)
}

/// `base#os_arch#short-digest` (see `full_branch`).
pub fn branch_for_platform(base_branch: &str, os_arch: &str, image_digest: &str) -> (r: String)
    ensures
        r@ == full_branch(base_branch@, os_arch@, image_digest@),
{
    let b = join_hash(base_branch, os_arch);
    combine_branch_with_digest(b.as_str(), image_digest)
}

/// Branch base of a tarball path (the naming the tar source uses).
pub fn tar_to_branch(tar_path: &str) -> (r: String)
    ensures
        r@ == tar_branch(tar_path@),
{
    tar_path_to_branch(tar_path)
}

} // verus!
