//! One row of the layer-history table in `Image.md`: rendering, tokenizing on
//! unescaped pipes, and reading the row back.
use vstd::prelude::*;
use crate::digest_tracker::{LayerDigest, LayerRecord, opt_view};
use crate::text::{chars_of, push_all, string_of};

verus! {

/// `s` with every `|` written as `\|`.
pub open spec fn escape_pipes(s: Seq<char>) -> Seq<char>
    decreases s.len(),
{
    if s.len() == 0 {
        seq![]
    } else if s.last() == '|' {
        escape_pipes(s.drop_last()) + seq!['\\', '|']
    } else {
        escape_pipes(s.drop_last()).push(s.last())
    }
}

/// `s` with every `\|` read back as `|`.
pub open spec fn unescape_pipes(s: Seq<char>) -> Seq<char>
    decreases s.len(),
{
    if s.len() >= 2 && s.last() == '|' && s[s.len() - 2] == '\\' {
        unescape_pipes(s.subrange(0, s.len() - 2)).push('|')
    } else if s.len() == 0 {
        seq![]
    } else {
        unescape_pipes(s.drop_last()).push(s.last())
    }
}

/// `s` without backticks.
pub open spec fn strip_backticks(s: Seq<char>) -> Seq<char>
    decreases s.len(),
{
    if s.len() == 0 {
        seq![]
    } else if s.last() == '`' {
        strip_backticks(s.drop_last())
    } else {
        strip_backticks(s.drop_last()).push(s.last())
    }
}

/// Space or tab.
pub open spec fn is_blank(c: char) -> bool {
    c == ' ' || c == '\t'
}

/// Number of leading blanks.
pub open spec fn lead_blanks(s: Seq<char>) -> int
    decreases s.len(),
{
    if s.len() == 0 {
        0
    } else if is_blank(s[0]) {
        1 + lead_blanks(s.drop_first())
    } else {
        0
    }
}

/// Number of trailing blanks.
pub open spec fn trail_blanks(s: Seq<char>) -> int
    decreases s.len(),
{
    if s.len() == 0 {
        0
    } else if is_blank(s.last()) {
        1 + trail_blanks(s.drop_last())
    } else {
        0
    }
}

/// `s` without leading and trailing blanks.
pub open spec fn trim_blanks(s: Seq<char>) -> Seq<char> {
    let a = lead_blanks(s);
    if a >= s.len() { seq![] } else { s.subrange(a, s.len() - trail_blanks(s)) }
}

/// Whether the `|` at index `i` separates cells (it is not preceded by `\`).
pub open spec fn is_separator(s: Seq<char>, i: int) -> bool {
    s[i] == '|' && !(i > 0 && s[i - 1] == '\\')
}

/// Cells completed so far and the cell being read, after reading `s`.
pub open spec fn cell_scan(s: Seq<char>) -> (Seq<Seq<char>>, Seq<char>)
    decreases s.len(),
{
    if s.len() == 0 {
        (seq![], seq![])
    } else {
        let (done, cur) = cell_scan(s.drop_last());
        if is_separator(s, s.len() - 1) {
            (done.push(cur), seq![])
        } else {
            (done, cur.push(s.last()))
        }
    }
}

/// The cells of a table row: the text between unescaped pipes, the text before
/// the first one included, a non-empty remainder after the last one included.
pub open spec fn row_cells(s: Seq<char>) -> Seq<Seq<char>> {
    let (done, cur) = cell_scan(s);
    if cur.len() > 0 { done.push(cur) } else { done }
}

/// `true` spelled out.
pub open spec fn true_word() -> Seq<char> {
    seq!['t', 'r', 'u', 'e']
}

/// `false` spelled out.
pub open spec fn false_word() -> Seq<char> {
    seq!['f', 'a', 'l', 's', 'e']
}

/// The layer a table row describes, if it has at least six cells and both a
/// creation time and a digest.
pub open spec fn row_record(line: Seq<char>) -> Option<LayerRecord> {
    let c = row_cells(line);
    if c.len() >= 6 {
        let created = trim_blanks(c[1]);
        let command = unescape_pipes(strip_backticks(trim_blanks(c[2])));
        let comment = unescape_pipes(trim_blanks(c[3]));
        let digest = strip_backticks(trim_blanks(c[4]));
        let is_empty = trim_blanks(c[5]) == true_word();
        if created.len() > 0 && digest.len() > 0 {
            Some(LayerRecord {
                digest,
                command,
                created,
                is_empty,
                comment: if comment.len() == 0 { None } else { Some(comment) },
            })
        } else {
            None
        }
    } else {
        None
    }
}

/// The table row of a layer:
/// `| created | `command` | comment | `digest` | true/false |`.
pub open spec fn row_line(r: LayerRecord) -> Seq<char> {
    let comment = match r.comment {
        Some(c) => c,
        None => seq![],
    };
    seq!['|', ' '] + r.created + seq![' ', '|', ' ', '`'] + escape_pipes(r.command) + seq!['`', ' ', '|', ' ']
        + escape_pipes(comment) + seq![' ', '|', ' ', '`'] + r.digest + seq!['`', ' ', '|', ' ']
        + (if r.is_empty { true_word() } else { false_word() }) + seq![' ', '|']
}

/// Whether every `|` in `x` is preceded by `\`.
pub open spec fn pipes_escaped(x: Seq<char>) -> bool {
    forall|i: int| 0 <= i < x.len() && #[trigger] x[i] == '|' ==> i > 0 && x[i - 1] == '\\'
}

/// Whether `s` holds no line break.
pub open spec fn single_line(s: Seq<char>) -> bool {
    !s.contains('\n') && !s.contains('\r')
}

/// Whether `s` neither starts nor ends with a blank.
pub open spec fn unpadded(s: Seq<char>) -> bool {
    s.len() > 0 ==> !is_blank(s[0]) && !is_blank(s.last())
}

/// What a layer's fields must satisfy for its row to read back unchanged: no
/// line breaks; no blanks at the ends of the plain cells; a creation time and
/// a digest that are present and hold no pipe; no backtick in the command or the
/// digest; and a comment that is absent rather than empty.
pub open spec fn row_safe(r: LayerRecord) -> bool {
    &&& single_line(r.created) && single_line(r.command) && single_line(r.digest)
    &&& r.created.len() > 0 && unpadded(r.created) && !r.created.contains('|')
    &&& r.digest.len() > 0 && unpadded(r.digest) && !r.digest.contains('|') && !r.digest.contains('`')
    &&& !r.command.contains('`')
    &&& match r.comment {
        Some(c) => c.len() > 0 && unpadded(c) && single_line(c),
        None => true,
    }
}

// ---------------------------------------------------------------------------
// Lemmas

proof fn lemma_unescape_escape(s: Seq<char>)
    ensures
        unescape_pipes(escape_pipes(s)) == s,
    decreases s.len(),
{
    if s.len() > 0 {
        let p = s.drop_last();
        lemma_unescape_escape(p);
        let e = escape_pipes(s);
        if s.last() == '|' {
            assert(e.subrange(0, e.len() - 2) =~= escape_pipes(p));
        } else {
            assert(e.drop_last() =~= escape_pipes(p));
            lemma_escape_last(p);
        }
        assert(p.push(s.last()) =~= s);
    }
}

proof fn lemma_escape_last(s: Seq<char>)
    ensures
        escape_pipes(s).len() >= s.len(),
        s.len() > 0 && s.last() != '|' ==> escape_pipes(s).last() == s.last(),
        s.len() > 0 && s.last() == '|' ==> escape_pipes(s).last() == '|',
    decreases s.len(),
{
    if s.len() > 0 {
        lemma_escape_last(s.drop_last());
    }
}

pub(crate) proof fn lemma_escape_props(s: Seq<char>)
    ensures
        !s.contains('`') ==> !escape_pipes(s).contains('`'),
        pipes_escaped(escape_pipes(s)),
        escape_pipes(s).len() > 0 ==> escape_pipes(s)[0] == (if s[0] == '|' { '\\' } else { s[0] }),
        escape_pipes(s).len() > 0 ==> escape_pipes(s).last() == s.last(),
        escape_pipes(s).len() == 0 <==> s.len() == 0,
        single_line(s) ==> single_line(escape_pipes(s)),
    decreases s.len(),
{
    if s.len() > 0 {
        let p = s.drop_last();
        lemma_escape_props(p);
        let e = escape_pipes(s);
        let ep = escape_pipes(p);
        if s.last() == '|' {
            assert(e =~= ep + seq!['\\', '|']);
        } else {
            assert(e =~= ep.push(s.last()));
        }
        if !s.contains('`') {
            assert(!p.contains('`')) by {
                if p.contains('`') {
                    let j = choose|j: int| 0 <= j < p.len() && p[j] == '`';
                    assert(s[j] == '`');
                }
            }
            assert(s.last() != '`') by {
                assert(s[s.len() - 1] == s.last());
            }
            assert forall|i: int| 0 <= i < e.len() implies e[i] != '`' by {
                if i < ep.len() {
                    assert(e[i] == ep[i]);
                    assert(!ep.contains('`'));
                }
            }
        }
        if single_line(s) {
            assert(single_line(p)) by {
                if p.contains('\n') {
                    let j = choose|j: int| 0 <= j < p.len() && p[j] == '\n';
                    assert(s[j] == '\n');
                }
                if p.contains('\r') {
                    let j = choose|j: int| 0 <= j < p.len() && p[j] == '\r';
                    assert(s[j] == '\r');
                }
            }
            assert(s[s.len() - 1] == s.last());
            assert forall|i: int| 0 <= i < e.len() implies e[i] != '\n' && e[i] != '\r' by {
                if i < ep.len() {
                    assert(e[i] == ep[i]);
                    assert(!ep.contains(e[i]) || (e[i] != '\n' && e[i] != '\r'));
                }
            }
        }
        assert forall|i: int| 0 <= i < e.len() && #[trigger] e[i] == '|' implies i > 0 && e[i - 1] == '\\' by {
            if i < ep.len() {
                assert(e[i] == ep[i]);
                if i > 0 { assert(e[i - 1] == ep[i - 1]); }
            } else if s.last() == '|' {
                if i == ep.len() {
                    assert(e[i] == '\\');
                } else {
                    assert(e[i - 1] == '\\');
                }
            }
        }
        if p.len() == 0 {
            assert(ep.len() == 0);
            assert(s[0] == s.last());
        } else {
            assert(s[0] == p[0]);
        }
    }
}

/// Reading a run of characters with no separating pipe only extends the open cell.
proof fn lemma_scan_plain(a: Seq<char>, b: Seq<char>)
    requires
        pipes_escaped(b),
    ensures
        cell_scan(a + b) == (cell_scan(a).0, cell_scan(a).1 + b),
    decreases b.len(),
{
    if b.len() == 0 {
        assert(a + b =~= a);
        assert(cell_scan(a).1 + b =~= cell_scan(a).1);
    } else {
        let bp = b.drop_last();
        assert forall|i: int| 0 <= i < bp.len() && #[trigger] bp[i] == '|' implies i > 0 && bp[i - 1] == '\\' by {
            assert(b[i] == bp[i]);
            assert(b[i - 1] == bp[i - 1]);
        }
        lemma_scan_plain(a, bp);
        let s = a + b;
        assert(s.drop_last() =~= a + bp);
        let k = b.len() - 1;
        if b[k] == '|' {
            assert(s[s.len() - 2] == b[k - 1]);
        }
        assert(cell_scan(a).1 + bp.push(b.last()) =~= cell_scan(a).1 + b);
    }
}

/// A pipe after a non-backslash closes the open cell.
proof fn lemma_scan_pipe(a: Seq<char>)
    requires
        a.len() == 0 || a.last() != '\\',
    ensures
        cell_scan(a.push('|')) == (cell_scan(a).0.push(cell_scan(a).1), Seq::<char>::empty()),
{
    let s = a.push('|');
    assert(s.drop_last() =~= a);
    if a.len() > 0 {
        assert(s[s.len() - 2] == a.last());
    }
}

proof fn lemma_trim_padded(x: Seq<char>)
    requires
        unpadded(x),
    ensures
        trim_blanks(seq![' '] + x + seq![' ']) == x,
{
    let s = seq![' '] + x + seq![' '];
    assert(s.drop_first() =~= x + seq![' ']);
    if x.len() == 0 {
        assert(s.drop_first().drop_first().len() == 0);
        assert(lead_blanks(s.drop_first().drop_first()) == 0);
        assert(s.drop_first()[0] == ' ');
        assert(lead_blanks(s.drop_first()) == 1);
        assert(s[0] == ' ');
        assert(lead_blanks(s) == 2);
    } else {
        assert((x + seq![' '])[0] == x[0]);
        assert(lead_blanks(x + seq![' ']) == 0);
        assert(lead_blanks(s) == 1);
        assert(s.drop_last() =~= seq![' '] + x);
        assert((seq![' '] + x).last() == x.last());
        assert(trail_blanks(seq![' '] + x) == 0);
        assert(trail_blanks(s) == 1);
        assert(s.subrange(1, s.len() - 1) =~= x);
    }
}

proof fn lemma_strip_plain(x: Seq<char>)
    requires
        !x.contains('`'),
    ensures
        strip_backticks(x) == x,
    decreases x.len(),
{
    if x.len() > 0 {
        let p = x.drop_last();
        assert(!p.contains('`')) by {
            if p.contains('`') {
                let j = choose|j: int| 0 <= j < p.len() && p[j] == '`';
                assert(x[j] == '`');
            }
        }
        lemma_strip_plain(p);
        assert(x[x.len() - 1] == x.last());
        assert(p.push(x.last()) =~= x);
    }
}

proof fn lemma_strip_wrapped(x: Seq<char>)
    requires
        !x.contains('`'),
    ensures
        strip_backticks(seq!['`'] + x + seq!['`']) == x,
    decreases x.len(),
{
    let s = seq!['`'] + x + seq!['`'];
    assert(s.drop_last() =~= seq!['`'] + x);
    lemma_strip_front(x);
}

proof fn lemma_strip_front(x: Seq<char>)
    requires
        !x.contains('`'),
    ensures
        strip_backticks(seq!['`'] + x) == x,
    decreases x.len(),
{
    if x.len() == 0 {
        let s = seq!['`'];
        assert(s.drop_last() =~= Seq::<char>::empty());
        assert(s.last() == '`');
        assert(strip_backticks(Seq::<char>::empty()) == Seq::<char>::empty());
        assert(seq!['`'] + x =~= s);
    } else {
        let p = x.drop_last();
        assert(!p.contains('`')) by {
            if p.contains('`') {
                let j = choose|j: int| 0 <= j < p.len() && p[j] == '`';
                assert(x[j] == '`');
            }
        }
        lemma_strip_front(p);
        assert((seq!['`'] + x).drop_last() =~= seq!['`'] + p);
        assert((seq!['`'] + x).last() == x.last());
        assert(x[x.len() - 1] == x.last());
        assert(p.push(x.last()) =~= x);
    }
}

proof fn lemma_no_pipe_plain(x: Seq<char>)
    requires
        !x.contains('|'),
    ensures
        pipes_escaped(x),
{
    assert forall|i: int| 0 <= i < x.len() && #[trigger] x[i] == '|' implies i > 0 && x[i - 1] == '\\' by {
        assert(x.contains('|'));
    }
}

proof fn lemma_plain_concat(x: Seq<char>, y: Seq<char>)
    requires
        pipes_escaped(x),
        pipes_escaped(y),
    ensures
        pipes_escaped(x + y),
{
    assert forall|i: int| 0 <= i < (x + y).len() && #[trigger] (x + y)[i] == '|' implies i > 0 && (x + y)[i - 1] == '\\' by {
        if i < x.len() {
            assert((x + y)[i] == x[i]);
        } else {
            assert((x + y)[i] == y[i - x.len()]);
            if i - x.len() > 0 {
                assert((x + y)[i - 1] == y[i - x.len() - 1]);
            }
        }
    }
}

/// Appends a pipe-free piece followed by ` |` to a scan state.
proof fn lemma_scan_cell(a: Seq<char>, b: Seq<char>)
    requires
        pipes_escaped(b),
    ensures
        cell_scan(a + b + seq![' ', '|']) == (cell_scan(a).0.push(cell_scan(a).1 + b + seq![' ']), Seq::<char>::empty()),
{
    let bb = b + seq![' '];
    assert forall|i: int| 0 <= i < bb.len() && #[trigger] bb[i] == '|' implies i > 0 && bb[i - 1] == '\\' by {
        assert(bb[i] == b[i]);
        assert(bb[i - 1] == b[i - 1]);
    }
    lemma_scan_plain(a, bb);
    assert(a + b + seq![' ', '|'] =~= (a + bb).push('|'));
    assert((a + bb).last() == ' ');
    lemma_scan_pipe(a + bb);
    assert(cell_scan(a).1 + bb =~= cell_scan(a).1 + b + seq![' ']);
}

/// The cells of a layer's row.
#[verifier::rlimit(100)]
#[verifier::spinoff_prover]
proof fn lemma_row_cells(r: LayerRecord)
    requires
        row_safe(r),
    ensures
        ({
            let comment = match r.comment { Some(c) => c, None => seq![] };
            let flag = if r.is_empty { true_word() } else { false_word() };
            row_cells(row_line(r)) == seq![
                Seq::<char>::empty(),
                seq![' '] + r.created + seq![' '],
                seq![' '] + (seq!['`'] + escape_pipes(r.command) + seq!['`']) + seq![' '],
                seq![' '] + escape_pipes(comment) + seq![' '],
                seq![' '] + (seq!['`'] + r.digest + seq!['`']) + seq![' '],
                seq![' '] + flag + seq![' '],
            ]
        }),
{
    let comment = match r.comment { Some(c) => c, None => seq![] };
    let ec = escape_pipes(r.command);
    let em = escape_pipes(comment);
    let flag = if r.is_empty { true_word() } else { false_word() };
    lemma_escape_props(r.command);
    lemma_escape_props(comment);
    lemma_no_pipe_plain(r.created);
    lemma_no_pipe_plain(r.digest);
    lemma_no_pipe_plain(flag);
    let piece1 = seq![' '] + r.created;
    let piece2 = seq![' ', '`'] + ec + seq!['`'];
    let piece3 = seq![' '] + em;
    let piece4 = seq![' ', '`'] + r.digest + seq!['`'];
    let piece5 = seq![' '] + flag;
    lemma_no_pipe_plain(seq![' ']);
    lemma_no_pipe_plain(seq![' ', '`']);
    lemma_no_pipe_plain(seq!['`']);
    lemma_plain_concat(seq![' '], r.created);
    lemma_plain_concat(seq![' ', '`'], ec);
    lemma_plain_concat(seq![' ', '`'] + ec, seq!['`']);
    lemma_plain_concat(seq![' '], em);
    lemma_plain_concat(seq![' ', '`'], r.digest);
    lemma_plain_concat(seq![' ', '`'] + r.digest, seq!['`']);
    lemma_plain_concat(seq![' '], flag);
    let s0 = seq!['|'];
    let s1 = s0 + piece1 + seq![' ', '|'];
    let s2 = s1 + piece2 + seq![' ', '|'];
    let s3 = s2 + piece3 + seq![' ', '|'];
    let s4 = s3 + piece4 + seq![' ', '|'];
    let s5 = s4 + piece5 + seq![' ', '|'];
    assert(s5 =~= row_line(r));
    let e = Seq::<char>::empty();
    assert(cell_scan(e) == (Seq::<Seq<char>>::empty(), e));
    lemma_scan_pipe(e);
    assert(e.push('|') =~= s0);
    lemma_scan_cell(s0, piece1);
    lemma_scan_cell(s1, piece2);
    lemma_scan_cell(s2, piece3);
    lemma_scan_cell(s3, piece4);
    lemma_scan_cell(s4, piece5);
    assert(e + piece1 + seq![' '] =~= seq![' '] + r.created + seq![' ']);
    assert(e + piece2 + seq![' '] =~= seq![' '] + (seq!['`'] + ec + seq!['`']) + seq![' ']);
    assert(e + piece3 + seq![' '] =~= seq![' '] + em + seq![' ']);
    assert(e + piece4 + seq![' '] =~= seq![' '] + (seq!['`'] + r.digest + seq!['`']) + seq![' ']);
    assert(e + piece5 + seq![' '] =~= seq![' '] + flag + seq![' ']);
}

/// A layer whose fields are `row_safe` reads back from its row unchanged.
pub proof fn lemma_row_round_trip(r: LayerRecord)
    requires
        row_safe(r),
    ensures
        row_record(row_line(r)) == Some(r),
{
    let comment = match r.comment { Some(c) => c, None => seq![] };
    let ec = escape_pipes(r.command);
    let em = escape_pipes(comment);
    let flag = if r.is_empty { true_word() } else { false_word() };
    lemma_row_cells(r);
    lemma_escape_props(r.command);
    lemma_escape_props(comment);
    lemma_trim_padded(r.created);
    assert(unpadded(seq!['`'] + ec + seq!['`'])) by {
        assert((seq!['`'] + ec + seq!['`'])[0] == '`');
        assert((seq!['`'] + ec + seq!['`']).last() == '`');
    }
    lemma_trim_padded(seq!['`'] + ec + seq!['`']);
    lemma_strip_wrapped(ec);
    lemma_unescape_escape(r.command);
    assert(unpadded(em)) by {
        if em.len() > 0 {
            assert(!is_blank(comment[0]) && !is_blank(comment.last()));
        }
    }
    lemma_trim_padded(em);
    lemma_unescape_escape(comment);
    assert(unpadded(seq!['`'] + r.digest + seq!['`'])) by {
        assert((seq!['`'] + r.digest + seq!['`'])[0] == '`');
        assert((seq!['`'] + r.digest + seq!['`']).last() == '`');
    }
    lemma_trim_padded(seq!['`'] + r.digest + seq!['`']);
    lemma_strip_wrapped(r.digest);
    assert(unpadded(flag)) by {
        assert(flag[0] != ' ' && flag[0] != '\t');
        assert(flag.last() == 'e');
    }
    lemma_trim_padded(flag);
    assert(true_word() != false_word()) by {
        assert(true_word().len() != false_word().len());
    }
    match r.comment {
        Some(c) => {},
        None => {
            assert(comment.len() == 0);
        },
    }
}

// ---------------------------------------------------------------------------
// Executable codec

/// Appends `escape_pipes(s)` to `out`.
fn push_escaped(out: &mut Vec<char>, s: &Vec<char>)
    ensures
        final(out)@ == old(out)@ + escape_pipes(s@),
{
    let mut i: usize = 0;
    while i < s.len()
        invariant
            i <= s.len(),
            out@ == old(out)@ + escape_pipes(s@.subrange(0, i as int)),
        decreases s.len() - i,
    {
        let ghost q = s@.subrange(0, i + 1);
        assert(q.drop_last() =~= s@.subrange(0, i as int));
        let ghost before = out@;
        if s[i] == '|' {
            out.push('\\');
            out.push('|');
            assert(out@ =~= before + seq!['\\', '|']);
        } else {
            out.push(s[i]);
        }
        i = i + 1;
    }
    assert(s@.subrange(0, s.len() as int) =~= s@);
}

/// `unescape_pipes(s)`.
pub fn unescaped(s: &Vec<char>) -> (r: Vec<char>)
    ensures
        r@ == unescape_pipes(s@),
{
    let mut out: Vec<char> = Vec::new();
    let mut i: usize = 0;
    while i < s.len()
        invariant
            i <= s.len(),
            out@ == unescape_pipes(s@.subrange(0, i as int)),
            0 < i < s.len() && s@[i - 1] == '\\' ==> s@[i as int] != '|',
        decreases s.len() - i,
    {
        if s[i] == '\\' && i + 1 < s.len() && s[i + 1] == '|' {
            let ghost q = s@.subrange(0, i + 2);
            assert(q.subrange(0, q.len() - 2) =~= s@.subrange(0, i as int));
            assert(q.last() == '|' && q[q.len() - 2] == '\\');
            out.push('|');
            i = i + 2;
        } else {
            let ghost q = s@.subrange(0, i + 1);
            assert(q.drop_last() =~= s@.subrange(0, i as int));
            assert(!(q.len() >= 2 && q.last() == '|' && q[q.len() - 2] == '\\'));
            out.push(s[i]);
            i = i + 1;
        }
    }
    assert(s@.subrange(0, s.len() as int) =~= s@);
    out
}

/// `strip_backticks(s)`.
pub fn without_backticks(s: &Vec<char>) -> (r: Vec<char>)
    ensures
        r@ == strip_backticks(s@),
{
    let mut out: Vec<char> = Vec::new();
    let mut i: usize = 0;
    while i < s.len()
        invariant
            i <= s.len(),
            out@ == strip_backticks(s@.subrange(0, i as int)),
        decreases s.len() - i,
    {
        let ghost q = s@.subrange(0, i + 1);
        assert(q.drop_last() =~= s@.subrange(0, i as int));
        if s[i] != '`' {
            out.push(s[i]);
        }
        i = i + 1;
    }
    assert(s@.subrange(0, s.len() as int) =~= s@);
    out
}

/// `trim_blanks(s)`.
pub fn trimmed(s: &Vec<char>) -> (r: Vec<char>)
    ensures
        r@ == trim_blanks(s@),
{
    let mut a: usize = 0;
    assert(s@.subrange(0, s.len() as int) =~= s@);
    while a < s.len() && (s[a] == ' ' || s[a] == '\t')
        invariant
            a <= s.len(),
            lead_blanks(s@) == a + lead_blanks(s@.subrange(a as int, s.len() as int)),
        decreases s.len() - a,
    {
        let ghost t = s@.subrange(a as int, s.len() as int);
        assert(t.drop_first() =~= s@.subrange(a + 1, s.len() as int));
        assert(t[0] == s@[a as int]);
        a = a + 1;
    }
    proof {
        let t = s@.subrange(a as int, s.len() as int);
        if a < s.len() {
            assert(t[0] == s@[a as int]);
        }
        assert(lead_blanks(t) == 0);
    }
    if a >= s.len() {
        return Vec::new();
    }
    let mut b: usize = s.len();
    while b > 0 && (s[b - 1] == ' ' || s[b - 1] == '\t')
        invariant
            b <= s.len(),
            a < s.len(),
            !is_blank(s@[a as int]),
            a < b,
            trail_blanks(s@) == (s.len() - b) + trail_blanks(s@.subrange(0, b as int)),
        decreases b,
    {
        let ghost t = s@.subrange(0, b as int);
        assert(t.drop_last() =~= s@.subrange(0, b - 1));
        assert(t.last() == s@[b - 1]);
        b = b - 1;
    }
    proof {
        let t = s@.subrange(0, b as int);
        assert(t.last() == s@[b - 1]);
        assert(trail_blanks(t) == 0);
    }
    crate::text::slice_chars(s, a, b)
}

/// The characters of each vector.
pub open spec fn views(v: Seq<Vec<char>>) -> Seq<Seq<char>> {
    Seq::new(v.len(), |i: int| v[i]@)
}

/// `row_cells(s)`.
pub fn cells_of(s: &Vec<char>) -> (r: Vec<Vec<char>>)
    ensures
        views(r@) == row_cells(s@),
{
    let mut done: Vec<Vec<char>> = Vec::new();
    let mut cur: Vec<char> = Vec::new();
    let mut i: usize = 0;
    while i < s.len()
        invariant
            i <= s.len(),
            (views(done@), cur@) == cell_scan(s@.subrange(0, i as int)),
        decreases s.len() - i,
    {
        let ghost q = s@.subrange(0, i + 1);
        assert(q.drop_last() =~= s@.subrange(0, i as int));
        if s[i] == '|' && !(i > 0 && s[i - 1] == '\\') {
            assert(is_separator(q, q.len() - 1));
            let ghost d0 = views(done@);
            let ghost c0 = cur@;
            done.push(cur);
            cur = Vec::new();
            assert(views(done@) =~= d0.push(c0));
        } else {
            assert(!is_separator(q, q.len() - 1));
            cur.push(s[i]);
        }
        i = i + 1;
    }
    assert(s@.subrange(0, s.len() as int) =~= s@);
    if cur.len() > 0 {
        let ghost d0 = views(done@);
        let ghost c0 = cur@;
        done.push(cur);
        assert(views(done@) =~= d0.push(c0));
    }
    done
}

/// Appends a ` | ` separator, with `tick` after it when asked.
fn push_sep(out: &mut Vec<char>, tick: bool)
    ensures
        final(out)@ == old(out)@ + (if tick { seq![' ', '|', ' ', '`'] } else { seq![' ', '|', ' '] }),
{
    out.push(' ');
    out.push('|');
    out.push(' ');
    if tick {
        out.push('`');
    }
    assert(out@ =~= old(out)@ + (if tick { seq![' ', '|', ' ', '`'] } else { seq![' ', '|', ' '] }));
}

/// Appends a closing backtick and a ` | ` separator.
fn push_tick_sep(out: &mut Vec<char>)
    ensures
        final(out)@ == old(out)@ + seq!['`', ' ', '|', ' '],
{
    out.push('`');
    out.push(' ');
    out.push('|');
    out.push(' ');
    assert(out@ =~= old(out)@ + seq!['`', ' ', '|', ' ']);
}

/// Appends `true` or `false` and the closing ` |`.
fn push_flag(out: &mut Vec<char>, b: bool)
    ensures
        final(out)@ == old(out)@ + (if b { true_word() } else { false_word() }) + seq![' ', '|'],
{
    if b {
        out.push('t');
        out.push('r');
        out.push('u');
        out.push('e');
    } else {
        out.push('f');
        out.push('a');
        out.push('l');
        out.push('s');
        out.push('e');
    }
    out.push(' ');
    out.push('|');
    assert(out@ =~= old(out)@ + (if b { true_word() } else { false_word() }) + seq![' ', '|']);
}

/// The row of a layer (see `row_line`).
pub fn render_row(l: &LayerDigest) -> (r: Vec<char>)
    ensures
        r@ == row_line(l@),
{
    let mut out: Vec<char> = Vec::new();
    out.push('|');
    out.push(' ');
    let ghost g0 = out@;
    assert(g0 =~= seq!['|', ' ']);
    push_all(&mut out, &chars_of(l.created.as_str()));
    push_sep(&mut out, true);
    let ghost g1 = out@;
    push_escaped(&mut out, &chars_of(l.command.as_str()));
    push_tick_sep(&mut out);
    let ghost g2 = out@;
    let ghost comment = match l@.comment { Some(c) => c, None => seq![] };
    match &l.comment {
        Some(c) => push_escaped(&mut out, &chars_of(c.as_str())),
        None => {
            assert(escape_pipes(Seq::<char>::empty()) =~= Seq::<char>::empty());
            assert(out@ + escape_pipes(Seq::<char>::empty()) =~= out@);
        },
    }
    assert(out@ == g2 + escape_pipes(comment));
    push_sep(&mut out, true);
    let ghost g3 = out@;
    push_all(&mut out, &chars_of(l.digest.as_str()));
    push_tick_sep(&mut out);
    push_flag(&mut out, l.is_empty);
    assert(out@ =~= row_line(l@));
    out
}

/// Whether `s` is exactly the characters `w`.
fn is_word(s: &Vec<char>, w: &str) -> (r: bool)
    ensures
        r == (s@ == w@),
{
    let v = chars_of(w);
    crate::digest_tracker::chars_eq(s, &v)
}

/// The layer a table row describes (see `row_record`).
pub fn parse_row(line: &Vec<char>) -> (r: Option<LayerDigest>)
    ensures
        r.is_some() == row_record(line@).is_some(),
        r.is_some() ==> r.unwrap()@ == row_record(line@).unwrap(),
{
    let cells = cells_of(line);
    proof {
        assert(views(cells@).len() == cells@.len());
    }
    if cells.len() < 6 {
        return None;
    }
    proof {
        assert(views(cells@)[1] == cells@[1]@);
        assert(views(cells@)[2] == cells@[2]@);
        assert(views(cells@)[3] == cells@[3]@);
        assert(views(cells@)[4] == cells@[4]@);
        assert(views(cells@)[5] == cells@[5]@);
    }
    let created = trimmed(&cells[1]);
    let command = unescaped(&without_backticks(&trimmed(&cells[2])));
    let comment = unescaped(&trimmed(&cells[3]));
    let digest = without_backticks(&trimmed(&cells[4]));
    let flag = trimmed(&cells[5]);
    let is_empty = is_word(&flag, "true");
    proof {
        reveal_strlit("true");
        assert("true"@ =~= true_word());
    }
    if created.len() > 0 && digest.len() > 0 {
        let comment = if comment.len() == 0 { None } else { Some(string_of(comment.as_slice())) };
        Some(LayerDigest {
            digest: string_of(digest.as_slice()),
            command: string_of(command.as_slice()),
            created: string_of(created.as_slice()),
            is_empty,
            comment,
        })
    } else {
        None
    }
}

} // verus!
