//! `Image.md`: the metadata document committed with every layer. It renders
//! basic image facts, the container configuration and the layer chain as
//! Markdown, and reads each of them back.
use vstd::prelude::*;
use crate::digest_tracker::{DigestTracker, LayerDigest, LayerRecord, records, chars_eq};
use crate::markdown_row::{escape_pipes, false_word, true_word, lemma_escape_props, render_row, parse_row, row_line, row_record, row_safe, single_line, views, lemma_row_round_trip};
use crate::markdown_text::{lemma_t_arch, lemma_t_basic, lemma_t_cmd, lemma_t_comma, lemma_t_config, lemma_t_created, lemma_t_entry, lemma_t_env, lemma_t_fence, lemma_t_id, lemma_t_key_row, lemma_t_label_a, lemma_t_label_b, lemma_t_label_c, lemma_t_label_head, lemma_t_label_sep, lemma_t_labels, lemma_t_layers, lemma_t_name, lemma_t_os, lemma_t_port, lemma_t_ports, lemma_t_root, lemma_t_table_head, lemma_t_table_sep, lemma_t_tags, lemma_t_tick, lemma_t_title, lemma_t_unknown, lemma_t_workdir, t_arch, t_basic, t_cmd, t_comma, t_config, t_created, t_entry, t_env, t_fence, t_id, t_key_row, t_label_a, t_label_b, t_label_c, t_label_head, t_label_sep, t_labels, t_layers, t_name, t_os, t_port, t_ports, t_root, t_table_head, t_table_sep, t_tags, t_tick, t_title, t_unknown, t_workdir, x_arch, x_basic, x_cmd, x_comma, x_config, x_created, x_entry, x_env, x_fence, x_id, x_key_row, x_label_a, x_label_b, x_label_c, x_label_head, x_label_sep, x_labels, x_layers, x_name, x_os, x_port, x_ports, x_root, x_table_head, x_table_sep, x_tags, x_tick, x_title, x_unknown, x_workdir};
use crate::text::{chars_of, push_all, string_of};
use crate::markdown_header::{field_after, fenced_run, label_run, last_trimmed, port_run, split_on, trimmed_at, label_views, keys_unique,
    find_last_trimmed, read_field, read_fenced, read_labels, read_ports, read_trimmed_at, split_by};
use crate::markdown_row::strip_backticks;

verus! {

/// The first section of `Image.md`.
#[derive(Debug, Clone)]
pub struct BasicInfo {
    pub name: String,
    pub id: String,
    pub tags: Vec<String>,
    pub created: String,
    pub architecture: String,
    pub os: String,
}

/// The container configuration section; `labels` keeps one entry per key, in
/// the order the keys were first seen.
#[derive(Debug, Clone)]
pub struct ContainerConfig {
    pub environment_variables: Vec<String>,
    pub command: Option<String>,
    pub entrypoint: Option<String>,
    pub working_directory: String,
    pub exposed_ports: Vec<String>,
    pub labels: Vec<(String, String)>,
}

/// Everything `Image.md` holds.
#[derive(Debug, Clone)]
pub struct ImageMetadata {
    pub basic_info: Option<BasicInfo>,
    pub container_config: Option<ContainerConfig>,
    pub layer_digests: Vec<LayerDigest>,
}

/// Why `Image.md` could not be read.
#[derive(Debug, Clone, PartialEq, Eq, Structural)]
pub enum MetadataError {
    /// The document is not in the expected shape.
    Malformed,
}

// ---------------------------------------------------------------------------
// Lines

/// The characters of each string.
pub open spec fn strs(v: Seq<String>) -> Seq<Seq<char>> {
    Seq::new(v.len(), |i: int| v[i]@)
}

/// Each line followed by a line feed, concatenated.
pub open spec fn join_lines(ls: Seq<Seq<char>>) -> Seq<char>
    decreases ls.len(),
{
    if ls.len() == 0 {
        seq![]
    } else {
        ls[0] + seq!['\n'] + join_lines(ls.drop_first())
    }
}

/// Index of the first `c` in `s`, or -1.
pub open spec fn first_index_of(s: Seq<char>, c: char) -> int
    decreases s.len(),
{
    if s.len() == 0 {
        -1
    } else if s[0] == c {
        0
    } else {
        let k = first_index_of(s.drop_first(), c);
        if k < 0 { -1 } else { k + 1 }
    }
}

/// A line without the carriage return that may end it.
pub open spec fn strip_cr(l: Seq<char>) -> Seq<char> {
    if l.len() > 0 && l.last() == '\r' { l.drop_last() } else { l }
}

/// The lines of a text: split at each line feed, a final carriage return of
/// each line dropped, no empty line after a final line feed.
pub open spec fn lines_of(s: Seq<char>) -> Seq<Seq<char>>
    decreases s.len(),
{
    if s.len() == 0 {
        seq![]
    } else {
        let k = first_index_of(s, '\n');
        if k < 0 || k >= s.len() {
            seq![strip_cr(s)]
        } else {
            seq![strip_cr(s.subrange(0, k))] + lines_of(s.subrange(k + 1, s.len() as int))
        }
    }
}

/// `parts` joined with `sep` between neighbours.
pub open spec fn join_with(parts: Seq<Seq<char>>, sep: Seq<char>) -> Seq<char>
    decreases parts.len(),
{
    if parts.len() == 0 {
        seq![]
    } else if parts.len() == 1 {
        parts[0]
    } else {
        join_with(parts.drop_last(), sep) + sep + parts.last()
    }
}

// ---------------------------------------------------------------------------
// The rendered document

/// The title line and the blank line after it.
pub open spec fn title_lines(m: ImageMetadata) -> Seq<Seq<char>> {
    let name = match m.basic_info {
        Some(b) => b.name@,
        None => t_unknown(),
    };
    seq![t_title() + name, seq![]]
}

/// The basic-information section.
pub open spec fn basic_lines(b: BasicInfo) -> Seq<Seq<char>> {
    seq![t_basic(), seq![], t_name() + b.name@, t_id() + b.id@ + t_tick()]
        + (if b.tags@.len() > 0 { seq![t_tags() + join_with(strs(b.tags@), t_comma())] } else { seq![] })
        + seq![t_created() + b.created@, t_arch() + b.architecture@, t_os() + b.os@, seq![]]
}

/// A titled fenced block holding one line, when there is one.
pub open spec fn fenced_block(title: Seq<char>, o: Option<String>) -> Seq<Seq<char>> {
    match o {
        Some(x) => seq![title, seq![], t_fence(), x@, t_fence(), seq![]],
        None => seq![],
    }
}

/// The environment block.
pub open spec fn env_block(env: Seq<String>) -> Seq<Seq<char>> {
    if env.len() > 0 {
        seq![t_env(), seq![], t_fence()] + strs(env) + seq![t_fence(), seq![]]
    } else {
        seq![]
    }
}

/// The working-directory block.
pub open spec fn workdir_block(wd: Seq<char>) -> Seq<Seq<char>> {
    if wd.len() > 0 { seq![t_workdir(), seq![], t_tick() + wd + t_tick(), seq![]] } else { seq![] }
}

/// The line of one exposed port.
pub open spec fn port_line(p: Seq<char>) -> Seq<char> {
    t_port() + p + t_tick()
}

/// The exposed-ports block.
pub open spec fn ports_block(ports: Seq<String>) -> Seq<Seq<char>> {
    if ports.len() > 0 {
        seq![t_ports(), seq![]] + Seq::new(ports.len(), |i: int| port_line(ports[i]@)) + seq![seq![]]
    } else {
        seq![]
    }
}

/// The table row of one label.
pub open spec fn label_line(k: Seq<char>, v: Seq<char>) -> Seq<char> {
    t_label_a() + k + t_label_b() + v + t_label_c()
}

/// The labels block.
pub open spec fn labels_block(labels: Seq<(String, String)>) -> Seq<Seq<char>> {
    if labels.len() > 0 {
        seq![t_labels(), seq![], t_label_head(), t_label_sep()]
            + Seq::new(labels.len(), |i: int| label_line(labels[i].0@, labels[i].1@)) + seq![seq![]]
    } else {
        seq![]
    }
}

/// The container-configuration section.
pub open spec fn config_lines(c: ContainerConfig) -> Seq<Seq<char>> {
    seq![t_config(), seq![]] + env_block(c.environment_variables@) + fenced_block(t_cmd(), c.command)
        + fenced_block(t_entry(), c.entrypoint) + workdir_block(c.working_directory@)
        + ports_block(c.exposed_ports@) + labels_block(c.labels@)
}

/// The layer-history section: the table of the chain, when it is not empty.
pub open spec fn layer_lines(v: Seq<LayerDigest>) -> Seq<Seq<char>> {
    if v.len() > 0 {
        seq![t_layers(), seq![], t_table_head(), t_table_sep()] + Seq::new(v.len(), |i: int| row_line(v[i]@))
            + seq![seq![]]
    } else {
        seq![]
    }
}

/// Every line of `Image.md` before the layer history.
pub open spec fn head_lines(m: ImageMetadata) -> Seq<Seq<char>> {
    title_lines(m) + (match m.basic_info {
        Some(b) => basic_lines(b),
        None => seq![],
    }) + (match m.container_config {
        Some(c) => config_lines(c),
        None => seq![],
    })
}

/// Every line of `Image.md`, in order.
pub open spec fn doc_lines(m: ImageMetadata) -> Seq<Seq<char>> {
    head_lines(m) + layer_lines(m.layer_digests@)
}

/// The text of `Image.md`.
pub open spec fn rendered(m: ImageMetadata) -> Seq<char> {
    join_lines(doc_lines(m))
}

// ---------------------------------------------------------------------------
// Reading the layer chain back

/// Index of the last line equal to `x`, or -1.
pub open spec fn last_line_index(ls: Seq<Seq<char>>, x: Seq<char>) -> int
    decreases ls.len(),
{
    if ls.len() == 0 {
        -1
    } else if ls.last() == x {
        ls.len() - 1
    } else {
        last_line_index(ls.drop_last(), x)
    }
}

/// Whether a line belongs to a table.
pub open spec fn is_table_line(l: Seq<char>) -> bool {
    l.len() > 0 && l[0] == '|'
}

/// The layers read from the run of table lines that starts at `j`; rows that
/// do not describe a layer are passed over.
pub open spec fn table_rows(ls: Seq<Seq<char>>, j: int) -> Seq<LayerRecord>
    decreases ls.len() - j,
{
    if 0 <= j < ls.len() && is_table_line(ls[j]) {
        match row_record(ls[j]) {
            Some(r) => seq![r] + table_rows(ls, j + 1),
            None => table_rows(ls, j + 1),
        }
    } else {
        seq![]
    }
}

/// Where the rows of the layer table start, after the section title at `k`:
/// past the blank line, the column header and the separator line.
pub open spec fn rows_start(ls: Seq<Seq<char>>, k: int) -> int {
    let a = k + 2;
    let b = if 0 <= a < ls.len() && ls[a] == t_table_head() { a + 1 } else { a };
    if 0 <= b < ls.len() && ls[b].len() >= 2 && ls[b][0] == '|' && ls[b][1] == '-' { b + 1 } else { b }
}

/// The layer chain that a document holds: the rows of the table under its last
/// `## Layer History` line, or none without such a line.
pub open spec fn layer_chain(ls: Seq<Seq<char>>) -> Seq<LayerRecord> {
    let k = last_line_index(ls, t_layers());
    if k < 0 { seq![] } else { table_rows(ls, rows_start(ls, k)) }
}

// ---------------------------------------------------------------------------
// Executable rendering

/// Appends `l` and a line feed.
fn push_line(out: &mut Vec<char>, l: &Vec<char>, ls: Ghost<Seq<Seq<char>>>)
    requires
        old(out)@ == join_lines(ls@),
    ensures
        final(out)@ == join_lines(ls@.push(l@)),
{
    push_all(out, l);
    out.push('\n');
    proof {
        lemma_join_push(ls@, l@);
    }
}

proof fn lemma_join_push(ls: Seq<Seq<char>>, l: Seq<char>)
    ensures
        join_lines(ls.push(l)) == join_lines(ls) + l + seq!['\n'],
    decreases ls.len(),
{
    if ls.len() == 0 {
        assert(ls.push(l).drop_first() =~= Seq::<Seq<char>>::empty());
        assert(join_lines(Seq::<Seq<char>>::empty()) == Seq::<char>::empty());
        assert(ls.push(l)[0] == l);
        assert(join_lines(ls) == Seq::<char>::empty());
        assert(join_lines(ls.push(l)) =~= l + seq!['\n']);
    } else {
        lemma_join_push(ls.drop_first(), l);
        assert(ls.push(l).drop_first() =~= ls.drop_first().push(l));
        assert(ls.push(l)[0] == ls[0]);
    }
}

/// `a + b` as one vector.
fn cat(a: &Vec<char>, b: &Vec<char>) -> (r: Vec<char>)
    ensures
        r@ == a@ + b@,
{
    let mut r: Vec<char> = Vec::new();
    push_all(&mut r, a);
    push_all(&mut r, b);
    assert(r@ =~= a@ + b@);
    r
}

/// `a + b + c` as one vector.
fn cat3(a: &Vec<char>, b: &Vec<char>, c: &Vec<char>) -> (r: Vec<char>)
    ensures
        r@ == a@ + b@ + c@,
{
    let ab = cat(a, b);
    cat(&ab, c)
}

/// `parts` joined by `, `.
fn join_tags(tags: &Vec<String>) -> (r: Vec<char>)
    ensures
        r@ == join_with(strs(tags@), t_comma()),
{
    join_strings(tags, x_comma())
}

/// `parts` joined by `sep`.
fn join_strings(tags: &Vec<String>, sep: Vec<char>) -> (r: Vec<char>)
    ensures
        r@ == join_with(strs(tags@), sep@),
{
    let mut out: Vec<char> = Vec::new();
    let mut i: usize = 0;
    while i < tags.len()
        invariant
            i <= tags.len(),
            out@ == join_with(strs(tags@).subrange(0, i as int), sep@),
        decreases tags.len() - i,
    {
        let ghost q = strs(tags@).subrange(0, i + 1);
        assert(q.drop_last() =~= strs(tags@).subrange(0, i as int));
        assert(q.last() == tags@[i as int]@);
        if i > 0 {
            push_all(&mut out, &sep);
        } else {
            assert(q.len() == 1);
        }
        push_all(&mut out, &chars_of(tags[i].as_str()));
        proof {
            if i == 0 {
                assert(out@ =~= q[0]);
            }
        }
        i = i + 1;
    }
    assert(strs(tags@).subrange(0, tags.len() as int) =~= strs(tags@));
    out
}

/// Appends the basic-information section.
fn emit_basic(out: &mut Vec<char>, b: &BasicInfo, ls: Ghost<Seq<Seq<char>>>)
    requires
        old(out)@ == join_lines(ls@),
    ensures
        final(out)@ == join_lines(ls@ + basic_lines(*b)),
{
    let ghost mut cur = ls@;
    push_line(out, &x_basic(), Ghost(cur));
    proof { cur = cur.push(t_basic()); }
    push_line(out, &Vec::new(), Ghost(cur));
    proof { cur = cur.push(seq![]); }
    push_line(out, &cat(&x_name(), &chars_of(b.name.as_str())), Ghost(cur));
    proof { cur = cur.push(t_name() + b.name@); }
    push_line(out, &cat3(&x_id(), &chars_of(b.id.as_str()), &x_tick()), Ghost(cur));
    proof { cur = cur.push(t_id() + b.id@ + t_tick()); }
    if b.tags.len() > 0 {
        push_line(out, &cat(&x_tags(), &join_tags(&b.tags)), Ghost(cur));
        proof { cur = cur.push(t_tags() + join_with(strs(b.tags@), t_comma())); }
    }
    push_line(out, &cat(&x_created(), &chars_of(b.created.as_str())), Ghost(cur));
    proof { cur = cur.push(t_created() + b.created@); }
    push_line(out, &cat(&x_arch(), &chars_of(b.architecture.as_str())), Ghost(cur));
    proof { cur = cur.push(t_arch() + b.architecture@); }
    push_line(out, &cat(&x_os(), &chars_of(b.os.as_str())), Ghost(cur));
    proof { cur = cur.push(t_os() + b.os@); }
    push_line(out, &Vec::new(), Ghost(cur));
    proof { cur = cur.push(seq![]); }
    assert(cur =~= ls@ + basic_lines(*b));
}

/// Appends a titled fenced block.
fn emit_fenced(out: &mut Vec<char>, title: &Vec<char>, o: &Option<String>, ls: Ghost<Seq<Seq<char>>>)
    requires
        old(out)@ == join_lines(ls@),
    ensures
        final(out)@ == join_lines(ls@ + fenced_block(title@, *o)),
{
    let ghost mut cur = ls@;
    match o {
        Some(x) => {
            push_line(out, title, Ghost(cur));
            proof { cur = cur.push(title@); }
            push_line(out, &Vec::new(), Ghost(cur));
            proof { cur = cur.push(seq![]); }
            push_line(out, &x_fence(), Ghost(cur));
            proof { cur = cur.push(t_fence()); }
            push_line(out, &chars_of(x.as_str()), Ghost(cur));
            proof { cur = cur.push(x@); }
            push_line(out, &x_fence(), Ghost(cur));
            proof { cur = cur.push(t_fence()); }
            push_line(out, &Vec::new(), Ghost(cur));
            proof { cur = cur.push(seq![]); }
        },
        None => {},
    }
    assert(cur =~= ls@ + fenced_block(title@, *o));
}

/// Appends the environment block.
fn emit_env(out: &mut Vec<char>, env: &Vec<String>, ls: Ghost<Seq<Seq<char>>>)
    requires
        old(out)@ == join_lines(ls@),
    ensures
        final(out)@ == join_lines(ls@ + env_block(env@)),
{
    let ghost mut cur = ls@;
    if env.len() > 0 {
        push_line(out, &x_env(), Ghost(cur));
        proof { cur = cur.push(t_env()); }
        push_line(out, &Vec::new(), Ghost(cur));
        proof { cur = cur.push(seq![]); }
        push_line(out, &x_fence(), Ghost(cur));
        proof { cur = cur.push(t_fence()); }
        let ghost base = cur;
        let mut i: usize = 0;
        while i < env.len()
            invariant
                i <= env.len(),
                cur == base + strs(env@).subrange(0, i as int),
                out@ == join_lines(cur),
            decreases env.len() - i,
        {
            push_line(out, &chars_of(env[i].as_str()), Ghost(cur));
            proof { cur = cur.push(env@[i as int]@); }
            i = i + 1;
            assert(cur =~= base + strs(env@).subrange(0, i as int));
        }
        assert(strs(env@).subrange(0, env.len() as int) =~= strs(env@));
        push_line(out, &x_fence(), Ghost(cur));
        proof { cur = cur.push(t_fence()); }
        push_line(out, &Vec::new(), Ghost(cur));
        proof { cur = cur.push(seq![]); }
    }
    assert(cur =~= ls@ + env_block(env@));
}

/// Appends the working-directory block.
fn emit_workdir(out: &mut Vec<char>, wd: &String, ls: Ghost<Seq<Seq<char>>>)
    requires
        old(out)@ == join_lines(ls@),
    ensures
        final(out)@ == join_lines(ls@ + workdir_block(wd@)),
{
    let ghost mut cur = ls@;
    let w = chars_of(wd.as_str());
    if w.len() > 0 {
        push_line(out, &x_workdir(), Ghost(cur));
        proof { cur = cur.push(t_workdir()); }
        push_line(out, &Vec::new(), Ghost(cur));
        proof { cur = cur.push(seq![]); }
        push_line(out, &cat3(&x_tick(), &w, &x_tick()), Ghost(cur));
        proof { cur = cur.push(t_tick() + wd@ + t_tick()); }
        push_line(out, &Vec::new(), Ghost(cur));
        proof { cur = cur.push(seq![]); }
    }
    assert(cur =~= ls@ + workdir_block(wd@));
}

/// Appends the exposed-ports block.
fn emit_ports(out: &mut Vec<char>, ports: &Vec<String>, ls: Ghost<Seq<Seq<char>>>)
    requires
        old(out)@ == join_lines(ls@),
    ensures
        final(out)@ == join_lines(ls@ + ports_block(ports@)),
{
    let ghost mut cur = ls@;
    if ports.len() > 0 {
        push_line(out, &x_ports(), Ghost(cur));
        proof { cur = cur.push(t_ports()); }
        push_line(out, &Vec::new(), Ghost(cur));
        proof { cur = cur.push(seq![]); }
        let ghost base = cur;
        let ghost f = Seq::new(ports@.len(), |i: int| port_line(ports@[i]@));
        let mut i: usize = 0;
        while i < ports.len()
            invariant
                i <= ports.len(),
                f == Seq::new(ports@.len(), |i: int| port_line(ports@[i]@)),
                cur == base + f.subrange(0, i as int),
                out@ == join_lines(cur),
            decreases ports.len() - i,
        {
            push_line(out, &cat3(&x_port(), &chars_of(ports[i].as_str()), &x_tick()), Ghost(cur));
            proof { cur = cur.push(port_line(ports@[i as int]@)); }
            i = i + 1;
            assert(cur =~= base + f.subrange(0, i as int));
        }
        assert(f.subrange(0, ports.len() as int) =~= f);
        push_line(out, &Vec::new(), Ghost(cur));
        proof { cur = cur.push(seq![]); }
    }
    assert(cur =~= ls@ + ports_block(ports@));
}

/// Appends the labels block.
fn emit_labels(out: &mut Vec<char>, labels: &Vec<(String, String)>, ls: Ghost<Seq<Seq<char>>>)
    requires
        old(out)@ == join_lines(ls@),
    ensures
        final(out)@ == join_lines(ls@ + labels_block(labels@)),
{
    let ghost mut cur = ls@;
    if labels.len() > 0 {
        push_line(out, &x_labels(), Ghost(cur));
        proof { cur = cur.push(t_labels()); }
        push_line(out, &Vec::new(), Ghost(cur));
        proof { cur = cur.push(seq![]); }
        push_line(out, &x_label_head(), Ghost(cur));
        proof { cur = cur.push(t_label_head()); }
        push_line(out, &x_label_sep(), Ghost(cur));
        proof { cur = cur.push(t_label_sep()); }
        let ghost base = cur;
        let ghost f = Seq::new(labels@.len(), |i: int| label_line(labels@[i].0@, labels@[i].1@));
        let mut i: usize = 0;
        while i < labels.len()
            invariant
                i <= labels.len(),
                f == Seq::new(labels@.len(), |i: int| label_line(labels@[i].0@, labels@[i].1@)),
                cur == base + f.subrange(0, i as int),
                out@ == join_lines(cur),
            decreases labels.len() - i,
        {
            let (k, v) = &labels[i];
            let a = cat3(&x_label_a(), &chars_of(k.as_str()), &x_label_b());
            let line = cat3(&a, &chars_of(v.as_str()), &x_label_c());
            push_line(out, &line, Ghost(cur));
            proof { cur = cur.push(label_line(labels@[i as int].0@, labels@[i as int].1@)); }
            i = i + 1;
            assert(cur =~= base + f.subrange(0, i as int));
        }
        assert(f.subrange(0, labels.len() as int) =~= f);
        push_line(out, &Vec::new(), Ghost(cur));
        proof { cur = cur.push(seq![]); }
    }
    assert(cur =~= ls@ + labels_block(labels@));
}

/// Appends the container-configuration section.
fn emit_config(out: &mut Vec<char>, c: &ContainerConfig, ls: Ghost<Seq<Seq<char>>>)
    requires
        old(out)@ == join_lines(ls@),
    ensures
        final(out)@ == join_lines(ls@ + config_lines(*c)),
{
    let ghost mut cur = ls@;
    push_line(out, &x_config(), Ghost(cur));
    proof { cur = cur.push(t_config()); }
    push_line(out, &Vec::new(), Ghost(cur));
    proof { cur = cur.push(seq![]); }
    emit_env(out, &c.environment_variables, Ghost(cur));
    proof { cur = cur + env_block(c.environment_variables@); }
    emit_fenced(out, &x_cmd(), &c.command, Ghost(cur));
    proof { cur = cur + fenced_block(t_cmd(), c.command); }
    emit_fenced(out, &x_entry(), &c.entrypoint, Ghost(cur));
    proof { cur = cur + fenced_block(t_entry(), c.entrypoint); }
    emit_workdir(out, &c.working_directory, Ghost(cur));
    proof { cur = cur + workdir_block(c.working_directory@); }
    emit_ports(out, &c.exposed_ports, Ghost(cur));
    proof { cur = cur + ports_block(c.exposed_ports@); }
    emit_labels(out, &c.labels, Ghost(cur));
    proof { cur = cur + labels_block(c.labels@); }
    assert(cur =~= ls@ + config_lines(*c));
}

/// Appends the layer-history section.
fn emit_layers(out: &mut Vec<char>, v: &Vec<LayerDigest>, ls: Ghost<Seq<Seq<char>>>)
    requires
        old(out)@ == join_lines(ls@),
    ensures
        final(out)@ == join_lines(ls@ + layer_lines(v@)),
{
    let ghost mut cur = ls@;
    if v.len() > 0 {
        push_line(out, &x_layers(), Ghost(cur));
        proof { cur = cur.push(t_layers()); }
        push_line(out, &Vec::new(), Ghost(cur));
        proof { cur = cur.push(seq![]); }
        push_line(out, &x_table_head(), Ghost(cur));
        proof { cur = cur.push(t_table_head()); }
        push_line(out, &x_table_sep(), Ghost(cur));
        proof { cur = cur.push(t_table_sep()); }
        let ghost base = cur;
        let ghost f = Seq::new(v@.len(), |i: int| row_line(v@[i]@));
        let mut i: usize = 0;
        while i < v.len()
            invariant
                i <= v.len(),
                f == Seq::new(v@.len(), |i: int| row_line(v@[i]@)),
                cur == base + f.subrange(0, i as int),
                out@ == join_lines(cur),
            decreases v.len() - i,
        {
            push_line(out, &render_row(&v[i]), Ghost(cur));
            proof { cur = cur.push(row_line(v@[i as int]@)); }
            i = i + 1;
            assert(cur =~= base + f.subrange(0, i as int));
        }
        assert(f.subrange(0, v.len() as int) =~= f);
        push_line(out, &Vec::new(), Ghost(cur));
        proof { cur = cur.push(seq![]); }
    }
    assert(cur =~= ls@ + layer_lines(v@));
}

// ---------------------------------------------------------------------------
// Executable reading

/// `first_index_of` names a first occurrence, or there is none.
pub proof fn lemma_first_index_facts(s: Seq<char>, c: char)
    ensures
        -1 <= first_index_of(s, c) < s.len(),
        first_index_of(s, c) >= 0 ==> s[first_index_of(s, c)] == c,
        forall|j: int| 0 <= j < s.len() && (first_index_of(s, c) < 0 || j < first_index_of(s, c)) ==> s[j] != c,
    decreases s.len(),
{
    if s.len() > 0 && s[0] != c {
        lemma_first_index_facts(s.drop_first(), c);
        assert forall|j: int| 0 <= j < s.len() && (first_index_of(s, c) < 0 || j < first_index_of(s, c)) implies s[j] != c by {
            if j > 0 {
                assert(s[j] == s.drop_first()[j - 1]);
            }
        }
    }
}

proof fn lemma_first_index(t: Seq<char>, c: char, k: int)
    requires
        0 <= k <= t.len(),
        forall|j: int| 0 <= j < k ==> t[j] != c,
        k < t.len() ==> t[k] == c,
    ensures
        first_index_of(t, c) == (if k < t.len() { k } else { -1 }),
    decreases k,
{
    if t.len() > 0 && k > 0 {
        lemma_first_index(t.drop_first(), c, k - 1);
    }
}

/// Drops a final carriage return.
fn without_cr(l: Vec<char>) -> (r: Vec<char>)
    ensures
        r@ == strip_cr(l@),
{
    let mut l = l;
    if l.len() > 0 && l[l.len() - 1] == '\r' {
        l.pop();
    }
    l
}

/// The lines of a text (see `lines_of`).
pub fn split_lines(s: &Vec<char>) -> (r: Vec<Vec<char>>)
    ensures
        views(r@) == lines_of(s@),
{
    let mut out: Vec<Vec<char>> = Vec::new();
    let mut start: usize = 0;
    let mut i: usize = 0;
    assert(s@.subrange(0, s.len() as int) =~= s@);
    while i < s.len()
        invariant
            start <= i <= s.len(),
            views(out@) + lines_of(s@.subrange(start as int, s.len() as int)) == lines_of(s@),
            forall|j: int| start <= j < i ==> s@[j] != '\n',
        decreases s.len() - i,
    {
        if s[i] == '\n' {
            let ghost t = s@.subrange(start as int, s.len() as int);
            proof {
                lemma_first_index(t, '\n', i - start);
                assert(t.subrange(0, i - start) =~= s@.subrange(start as int, i as int));
                assert(t.subrange(i - start + 1, t.len() as int) =~= s@.subrange(i + 1, s.len() as int));
            }
            let line = without_cr(crate::text::slice_chars(s, start, i));
            let ghost v0 = views(out@);
            out.push(line);
            assert(views(out@) =~= v0.push(line@));
            assert(views(out@) + lines_of(s@.subrange(i + 1, s.len() as int)) =~= v0 + lines_of(t));
            start = i + 1;
        }
        i = i + 1;
    }
    let ghost t = s@.subrange(start as int, s.len() as int);
    if start < s.len() {
        proof {
            lemma_first_index(t, '\n', t.len() as int);
        }
        let line = without_cr(crate::text::slice_chars(s, start, s.len()));
        let ghost v0 = views(out@);
        out.push(line);
        assert(views(out@) =~= v0 + lines_of(t));
    } else {
        assert(views(out@) + lines_of(t) =~= views(out@));
    }
    out
}

/// Index of the last line equal to `x` (see `last_line_index`).
fn find_last_line(ls: &Vec<Vec<char>>, x: &Vec<char>) -> (r: Option<usize>)
    ensures
        r.is_none() ==> last_line_index(views(ls@), x@) < 0,
        r.is_some() ==> last_line_index(views(ls@), x@) == r.unwrap() as int && r.unwrap() < ls.len(),
{
    let mut i: usize = ls.len();
    assert(views(ls@).subrange(0, i as int) =~= views(ls@));
    while i > 0
        invariant
            i <= ls.len(),
            last_line_index(views(ls@), x@) == last_line_index(views(ls@).subrange(0, i as int), x@),
        decreases i,
    {
        let ghost q = views(ls@).subrange(0, i as int);
        assert(q.last() == ls@[i - 1]@);
        if chars_eq(&ls[i - 1], x) {
            return Some(i - 1);
        }
        assert(q.drop_last() =~= views(ls@).subrange(0, i - 1));
        i = i - 1;
    }
    None
}

/// The layer chain of a document's lines (see `layer_chain`).
pub fn read_layer_chain(ls: &Vec<Vec<char>>) -> (r: Vec<LayerDigest>)
    ensures
        records(r@) == layer_chain(views(ls@)),
{
    let ghost v = views(ls@);
    let header = x_layers();
    match find_last_line(ls, &header) {
        None => {
            let r: Vec<LayerDigest> = Vec::new();
            assert(records(r@) =~= Seq::<LayerRecord>::empty());
            r
        },
        Some(k) => {
            if k + 1 >= ls.len() {
                let r: Vec<LayerDigest> = Vec::new();
                assert(records(r@) =~= Seq::<LayerRecord>::empty());
                assert(table_rows(v, rows_start(v, k as int)) == Seq::<LayerRecord>::empty());
                return r;
            }
            let mut j: usize = k + 2;
            if j < ls.len() && chars_eq(&ls[j], &x_table_head()) {
                j = j + 1;
            }
            if j < ls.len() && ls[j].len() >= 2 && ls[j][0] == '|' && ls[j][1] == '-' {
                j = j + 1;
            }
            assert(j as int == rows_start(v, k as int));
            let ghost c = j as int;
            let mut out: Vec<LayerDigest> = Vec::new();
            while j < ls.len() && ls[j].len() > 0 && ls[j][0] == '|'
                invariant
                    c <= j,
                    v == views(ls@),
                    records(out@) + table_rows(v, j as int) == table_rows(v, c),
                decreases ls.len() - j,
            {
                assert(is_table_line(v[j as int]));
                let ghost o0 = records(out@);
                match parse_row(&ls[j]) {
                    Some(row) => {
                        out.push(row);
                        assert(records(out@) =~= o0.push(row@));
                        assert(o0.push(row@) + table_rows(v, j + 1) =~= o0 + (seq![row@] + table_rows(v, j + 1)));
                    },
                    None => {},
                }
                j = j + 1;
            }
            assert(!(0 <= j < v.len() && is_table_line(v[j as int])));
            assert(records(out@) + table_rows(v, j as int) =~= records(out@));
            out
        },
    }
}

/// The text of an optional field, empty when it is missing.
pub open spec fn or_empty(o: Option<Seq<char>>) -> Seq<char> {
    match o {
        Some(x) => x,
        None => seq![],
    }
}

/// Whether `b` is the basic information that the lines hold: present exactly
/// when a `## Basic Information` line is; each field taken from the last line
/// with its bullet (the name from the `Name` bullet, else from the title), the
/// tags cut at `, `.
pub open spec fn basic_read(ls: Seq<Seq<char>>, b: Option<BasicInfo>) -> bool {
    if last_trimmed(ls, t_basic()) < 0 {
        b.is_none()
    } else {
        match b {
            Some(b) => {
                &&& b.name@ == (match field_after(ls, t_name()) {
                    Some(x) => x,
                    None => or_empty(field_after(ls, t_title())),
                })
                &&& b.id@ == strip_backticks(or_empty(field_after(ls, t_id())))
                &&& strs(b.tags@) == (match field_after(ls, t_tags()) {
                    Some(x) => split_on(x, t_comma()),
                    None => seq![],
                })
                &&& b.created@ == or_empty(field_after(ls, t_created()))
                &&& b.architecture@ == or_empty(field_after(ls, t_arch()))
                &&& b.os@ == or_empty(field_after(ls, t_os()))
            },
            None => false,
        }
    }
}

/// The one line of a titled fenced block, if the block and a line in it are there.
pub open spec fn fenced_value(ls: Seq<Seq<char>>, title: Seq<char>) -> Option<Seq<char>> {
    let k = last_trimmed(ls, title);
    if k < 0 {
        None
    } else {
        match trimmed_at(ls, k + 3) {
            Some(t) => if t != t_fence() { Some(t) } else { None },
            None => None,
        }
    }
}

/// The working directory the lines name, `/` when they name none.
pub open spec fn workdir_read(ls: Seq<Seq<char>>) -> Seq<char> {
    let k = last_trimmed(ls, t_workdir());
    let w = if k < 0 {
        seq![]
    } else {
        match trimmed_at(ls, k + 2) {
            Some(t) => strip_backticks(t),
            None => seq![],
        }
    };
    if w.len() > 0 { w } else { t_root() }
}

/// The characters of each label.
pub open spec fn string_pairs(v: Seq<(String, String)>) -> Seq<(Seq<char>, Seq<char>)> {
    Seq::new(v.len(), |i: int| (v[i].0@, v[i].1@))
}

/// Whether `c` is the container configuration that the lines hold: present
/// exactly when a `## Container Configuration` line is; each part read from
/// its subsection (environment lines up to the closing fence, the single line
/// of the command and entrypoint blocks, the working directory, the port
/// bullets, the label rows with a later row for a key replacing an earlier one).
pub open spec fn config_read(ls: Seq<Seq<char>>, c: Option<ContainerConfig>) -> bool {
    if last_trimmed(ls, t_config()) < 0 {
        c.is_none()
    } else {
        match c {
            Some(c) => {
                &&& strs(c.environment_variables@) == (if last_trimmed(ls, t_env()) < 0 {
                    seq![]
                } else {
                    fenced_run(ls, last_trimmed(ls, t_env()) + 3)
                })
                &&& crate::digest_tracker::opt_view(c.command) == fenced_value(ls, t_cmd())
                &&& crate::digest_tracker::opt_view(c.entrypoint) == fenced_value(ls, t_entry())
                &&& c.working_directory@ == workdir_read(ls)
                &&& strs(c.exposed_ports@) == (if last_trimmed(ls, t_ports()) < 0 {
                    seq![]
                } else {
                    port_run(ls, last_trimmed(ls, t_ports()) + 2)
                })
                &&& string_pairs(c.labels@) == (if last_trimmed(ls, t_labels()) < 0 {
                    seq![]
                } else {
                    label_run(ls, last_trimmed(ls, t_labels()) + 4, seq![])
                })
            },
            None => false,
        }
    }
}

/// A field's text as a `String`, empty when missing.
fn field_string(ls: &Vec<Vec<char>>, p: &Vec<char>) -> (r: String)
    ensures
        r@ == or_empty(field_after(views(ls@), p@)),
{
    match read_field(ls, p) {
        Some(v) => string_of(v.as_slice()),
        None => String::new(),
    }
}

/// Each vector as a `String`.
fn to_strings(v: &Vec<Vec<char>>) -> (r: Vec<String>)
    ensures
        strs(r@) == views(v@),
{
    let mut out: Vec<String> = Vec::new();
    let mut i: usize = 0;
    while i < v.len()
        invariant
            i <= v.len(),
            strs(out@) == views(v@).subrange(0, i as int),
        decreases v.len() - i,
    {
        let ghost o0 = strs(out@);
        let s = string_of(v[i].as_slice());
        let ghost sv = s@;
        out.push(s);
        assert(strs(out@) =~= o0.push(sv));
        assert(sv == views(v@)[i as int]);
        assert(strs(out@) =~= views(v@).subrange(0, i + 1));
        i = i + 1;
    }
    assert(views(v@).subrange(0, v.len() as int) =~= views(v@));
    out
}

/// The basic information the lines hold (see `basic_read`).
fn read_basic(ls: &Vec<Vec<char>>) -> (r: Option<BasicInfo>)
    ensures
        basic_read(views(ls@), r),
{
    if find_last_trimmed(ls, &x_basic()).is_none() {
        return None;
    }
    let name = match read_field(ls, &x_name()) {
        Some(v) => string_of(v.as_slice()),
        None => field_string(ls, &x_title()),
    };
    let id_raw = match read_field(ls, &x_id()) {
        Some(v) => v,
        None => Vec::new(),
    };
    assert(id_raw@ == or_empty(field_after(views(ls@), t_id())));
    let id = string_of(crate::markdown_row::without_backticks(&id_raw).as_slice());
    let tags = match read_field(ls, &x_tags()) {
        Some(v) => {
            let comma = x_comma();
            proof {
                lemma_t_comma();
            }
            to_strings(&split_by(&v, &comma))
        },
        None => {
            let t: Vec<String> = Vec::new();
            assert(strs(t@) =~= Seq::<Seq<char>>::empty());
            t
        },
    };
    Some(BasicInfo {
        name,
        id,
        tags,
        created: field_string(ls, &x_created()),
        architecture: field_string(ls, &x_arch()),
        os: field_string(ls, &x_os()),
    })
}

/// The single line of a titled fenced block (see `fenced_value`).
fn read_fenced_value(ls: &Vec<Vec<char>>, title: &Vec<char>) -> (r: Option<String>)
    ensures
        crate::digest_tracker::opt_view(r) == fenced_value(views(ls@), title@),
{
    match find_last_trimmed(ls, title) {
        None => None,
        Some(k) => {
            if ls.len() - k < 3 {
                return None;
            }
            match read_trimmed_at(ls, k + 3) {
                Some(t) => {
                    if crate::digest_tracker::chars_eq(&t, &x_fence()) {
                        None
                    } else {
                        Some(string_of(t.as_slice()))
                    }
                },
                None => None,
            }
        },
    }
}

/// Each pair as a pair of `String`s.
fn to_string_pairs(v: &Vec<(Vec<char>, Vec<char>)>) -> (r: Vec<(String, String)>)
    ensures
        string_pairs(r@) == label_views(v@),
{
    let mut out: Vec<(String, String)> = Vec::new();
    let mut i: usize = 0;
    while i < v.len()
        invariant
            i <= v.len(),
            string_pairs(out@) == label_views(v@).subrange(0, i as int),
        decreases v.len() - i,
    {
        let (a, b) = &v[i];
        let ghost o0 = string_pairs(out@);
        let sa = string_of(a.as_slice());
        let sb = string_of(b.as_slice());
        let ghost pv = (sa@, sb@);
        out.push((sa, sb));
        assert(string_pairs(out@) =~= o0.push(pv));
        assert(pv == label_views(v@)[i as int]);
        assert(string_pairs(out@) =~= label_views(v@).subrange(0, i + 1));
        i = i + 1;
    }
    assert(label_views(v@).subrange(0, v.len() as int) =~= label_views(v@));
    out
}

/// The container configuration the lines hold (see `config_read`).
fn read_config(ls: &Vec<Vec<char>>) -> (r: Option<ContainerConfig>)
    ensures
        config_read(views(ls@), r),
{
    if find_last_trimmed(ls, &x_config()).is_none() {
        return None;
    }
    let env = match find_last_trimmed(ls, &x_env()) {
        Some(k) => if ls.len() - k >= 3 { to_strings(&read_fenced(ls, k + 3)) } else {
            let t: Vec<String> = Vec::new();
            assert(strs(t@) =~= fenced_run(views(ls@), k + 3));
            t
        },
        None => {
            let t: Vec<String> = Vec::new();
            assert(strs(t@) =~= Seq::<Seq<char>>::empty());
            t
        },
    };
    let wd_raw = match find_last_trimmed(ls, &x_workdir()) {
        Some(k) => if ls.len() - k >= 2 {
            match read_trimmed_at(ls, k + 2) {
                Some(t) => crate::markdown_row::without_backticks(&t),
                None => Vec::new(),
            }
        } else {
            Vec::new()
        },
        None => Vec::new(),
    };
    let working_directory = if wd_raw.len() > 0 { string_of(wd_raw.as_slice()) } else { string_of(x_root().as_slice()) };
    let ports = match find_last_trimmed(ls, &x_ports()) {
        Some(k) => if ls.len() - k >= 2 { to_strings(&read_ports(ls, k + 2)) } else {
            let t: Vec<String> = Vec::new();
            assert(strs(t@) =~= port_run(views(ls@), k + 2));
            t
        },
        None => {
            let t: Vec<String> = Vec::new();
            assert(strs(t@) =~= Seq::<Seq<char>>::empty());
            t
        },
    };
    let labels = match find_last_trimmed(ls, &x_labels()) {
        Some(k) => if ls.len() - k >= 4 { to_string_pairs(&read_labels(ls, k + 4)) } else {
            let t: Vec<(String, String)> = Vec::new();
            assert(string_pairs(t@) =~= label_run(views(ls@), k + 4, seq![]));
            t
        },
        None => {
            let t: Vec<(String, String)> = Vec::new();
            assert(string_pairs(t@) =~= Seq::<(Seq<char>, Seq<char>)>::empty());
            t
        },
    };
    Some(ContainerConfig {
        environment_variables: env,
        command: read_fenced_value(ls, &x_cmd()),
        entrypoint: read_fenced_value(ls, &x_entry()),
        working_directory,
        exposed_ports: ports,
        labels,
    })
}

/// The words of a command joined by single spaces, when there is a command.
pub open spec fn joined_words(o: Option<Vec<String>>) -> Option<Seq<char>> {
    match o {
        Some(v) => Some(join_with(strs(v@), seq![' '])),
        None => None,
    }
}

/// The words joined by single spaces.
fn join_words(o: &Option<Vec<String>>) -> (r: Option<String>)
    ensures
        crate::digest_tracker::opt_view(r) == joined_words(*o),
{
    match o {
        Some(v) => {
            let mut sp: Vec<char> = Vec::new();
            sp.push(' ');
            assert(sp@ =~= seq![' ']);
            Some(string_of(join_strings(v, sp).as_slice()))
        },
        None => None,
    }
}

/// A copy of a list of strings.
fn copy_strings(v: &Vec<String>) -> (r: Vec<String>)
    ensures
        strs(r@) == strs(v@),
{
    let mut out: Vec<String> = Vec::new();
    let mut i: usize = 0;
    while i < v.len()
        invariant
            i <= v.len(),
            strs(out@) == strs(v@).subrange(0, i as int),
        decreases v.len() - i,
    {
        let ghost o0 = strs(out@);
        let s = v[i].clone();
        let ghost sv = s@;
        out.push(s);
        assert(strs(out@) =~= o0.push(sv));
        assert(strs(out@) =~= strs(v@).subrange(0, i + 1));
        i = i + 1;
    }
    assert(strs(v@).subrange(0, v.len() as int) =~= strs(v@));
    out
}

/// A copy of a list of string pairs.
fn copy_pairs(v: &Vec<(String, String)>) -> (r: Vec<(String, String)>)
    ensures
        string_pairs(r@) == string_pairs(v@),
{
    let mut out: Vec<(String, String)> = Vec::new();
    let mut i: usize = 0;
    while i < v.len()
        invariant
            i <= v.len(),
            string_pairs(out@) == string_pairs(v@).subrange(0, i as int),
        decreases v.len() - i,
    {
        let ghost o0 = string_pairs(out@);
        let a = v[i].0.clone();
        let b = v[i].1.clone();
        let ghost pv = (a@, b@);
        out.push((a, b));
        assert(string_pairs(out@) =~= o0.push(pv));
        assert(string_pairs(out@) =~= string_pairs(v@).subrange(0, i + 1));
        i = i + 1;
    }
    assert(string_pairs(v@).subrange(0, v.len() as int) =~= string_pairs(v@));
    out
}

/// Whether `r` is the complete metadata made from the image's configuration,
/// its layer chain and the name it was asked for by.
pub open spec fn made_from(r: ImageMetadata, legacy: crate::metadata::ImageMetadata, chain: Seq<LayerDigest>, image_name: Seq<char>) -> bool {
    let c = legacy.container_config;
    &&& r.basic_info.is_some()
    &&& r.basic_info.unwrap().name@ == image_name
    &&& r.basic_info.unwrap().id@ == legacy.id@
    &&& strs(r.basic_info.unwrap().tags@) == strs(legacy.repo_tags@)
    &&& r.basic_info.unwrap().created@ == legacy.created@
    &&& r.basic_info.unwrap().architecture@ == legacy.architecture@
    &&& r.basic_info.unwrap().os@ == legacy.os@
    &&& r.container_config.is_some()
    &&& strs(r.container_config.unwrap().environment_variables@) == strs(c.env@)
    &&& crate::digest_tracker::opt_view(r.container_config.unwrap().command) == joined_words(c.cmd)
    &&& crate::digest_tracker::opt_view(r.container_config.unwrap().entrypoint) == joined_words(c.entrypoint)
    &&& r.container_config.unwrap().working_directory@ == (match c.working_dir {
        Some(w) => w@,
        None => t_root(),
    })
    &&& strs(r.container_config.unwrap().exposed_ports@) == (match c.exposed_ports {
        Some(p) => strs(p@),
        None => seq![],
    })
    &&& string_pairs(r.container_config.unwrap().labels@) == (match c.labels {
        Some(l) => string_pairs(l@),
        None => seq![],
    })
    &&& records(r.layer_digests@) == records(chain)
}

/// A copy of a layer chain.
pub fn copy_chain(v: &Vec<LayerDigest>) -> (r: Vec<LayerDigest>)
    ensures
        records(r@) == records(v@),
{
    let mut out: Vec<LayerDigest> = Vec::new();
    let mut i: usize = 0;
    while i < v.len()
        invariant
            i <= v.len(),
            records(out@) == records(v@).subrange(0, i as int),
        decreases v.len() - i,
    {
        let ghost o0 = records(out@);
        let c = v[i].copy();
        let ghost cv = c@;
        out.push(c);
        assert(records(out@) =~= o0.push(cv));
        assert(cv == records(v@)[i as int]);
        assert(records(out@) =~= records(v@).subrange(0, i + 1));
        i = i + 1;
    }
    assert(records(v@).subrange(0, v.len() as int) =~= records(v@));
    out
}

impl ImageMetadata {
    /// Metadata with the given sections and an empty layer chain.
    pub fn new(basic_info: Option<BasicInfo>, container_config: Option<ContainerConfig>) -> (r: Self)
        ensures
            r.basic_info == basic_info,
            r.container_config == container_config,
            r.layer_digests@.len() == 0,
    {
        ImageMetadata { basic_info, container_config, layer_digests: Vec::new() }
    }

    /// The document text (see `doc_lines`: title, basic information, container
    /// configuration, then the layer table, each line ended by a line feed).
    pub fn render_markdown(&self) -> (r: String)
        ensures
            r@ == rendered(*self),
    {
        let mut out: Vec<char> = Vec::new();
        let ghost mut cur: Seq<Seq<char>> = seq![];
        assert(out@ =~= join_lines(cur));
        let name = match &self.basic_info {
            Some(b) => chars_of(b.name.as_str()),
            None => x_unknown(),
        };
        push_line(&mut out, &cat(&x_title(), &name), Ghost(cur));
        proof { cur = cur.push(t_title() + name@); }
        push_line(&mut out, &Vec::new(), Ghost(cur));
        proof { cur = cur.push(seq![]); }
        assert(cur =~= title_lines(*self));
        match &self.basic_info {
            Some(b) => {
                emit_basic(&mut out, b, Ghost(cur));
                proof { cur = cur + basic_lines(*b); }
            },
            None => {
                assert(cur + seq![] =~= cur);
            },
        }
        match &self.container_config {
            Some(c) => {
                emit_config(&mut out, c, Ghost(cur));
                proof { cur = cur + config_lines(*c); }
            },
            None => {},
        }
        assert(cur =~= head_lines(*self));
        emit_layers(&mut out, &self.layer_digests, Ghost(cur));
        string_of(out.as_slice())
    }

    /// Reads a document back: the layer chain as `layer_chain` says, the
    /// sections above it as `basic_read` and `config_read` say. Reading
    /// always succeeds; what is not recognised is passed over.
    pub fn parse_markdown(content: &str) -> (r: Result<Self, MetadataError>)
        ensures
            r.is_ok(),
            records(r.unwrap().layer_digests@) == layer_chain(lines_of(content@)),
            basic_read(lines_of(content@), r.unwrap().basic_info),
            config_read(lines_of(content@), r.unwrap().container_config),
    {
        let text = chars_of(content);
        let ls = split_lines(&text);
        Ok(ImageMetadata {
            basic_info: read_basic(&ls),
            container_config: read_config(&ls),
            layer_digests: read_layer_chain(&ls),
        })
    }

    /// The complete metadata for the final commit: basic facts and container
    /// configuration from the image, the layer chain from the tracker (see `made_from`).
    pub fn from_legacy(legacy: &crate::metadata::ImageMetadata, digest_tracker: &DigestTracker, image_name: &str) -> (r: Self)
        ensures
            made_from(r, *legacy, digest_tracker.layer_digests@, image_name@),
    {
        let c = &legacy.container_config;
        let basic_info = BasicInfo {
            name: String::from_str(image_name),
            id: legacy.id.clone(),
            tags: copy_strings(&legacy.repo_tags),
            created: legacy.created.clone(),
            architecture: legacy.architecture.clone(),
            os: legacy.os.clone(),
        };
        let working_directory = match &c.working_dir {
            Some(w) => w.clone(),
            None => string_of(x_root().as_slice()),
        };
        let exposed_ports = match &c.exposed_ports {
            Some(p) => copy_strings(p),
            None => {
                let t: Vec<String> = Vec::new();
                assert(strs(t@) =~= Seq::<Seq<char>>::empty());
                t
            },
        };
        let labels = match &c.labels {
            Some(l) => copy_pairs(l),
            None => {
                let t: Vec<(String, String)> = Vec::new();
                assert(string_pairs(t@) =~= Seq::<(Seq<char>, Seq<char>)>::empty());
                t
            },
        };
        let container_config = ContainerConfig {
            environment_variables: copy_strings(&c.env),
            command: join_words(&c.cmd),
            entrypoint: join_words(&c.entrypoint),
            working_directory,
            exposed_ports,
            labels,
        };
        ImageMetadata {
            basic_info: Some(basic_info),
            container_config: Some(container_config),
            layer_digests: copy_chain(&digest_tracker.layer_digests),
        }
    }

    /// Replaces the layer chain with the tracker's.
    pub fn update_layer_digests(&mut self, digest_tracker: &DigestTracker)
        ensures
            records(final(self).layer_digests@) == records(digest_tracker.layer_digests@),
            final(self).basic_info == old(self).basic_info,
            final(self).container_config == old(self).container_config,
    {
        self.layer_digests = copy_chain(&digest_tracker.layer_digests);
    }
}


// ---------------------------------------------------------------------------
// The layer chain survives rendering and reading back

/// Whether a line is free of line breaks and is not the layer-history title.
pub open spec fn line_fine(l: Seq<char>) -> bool {
    single_line(l) && l != t_layers()
}

/// Whether every line is `line_fine`.
pub open spec fn all_fine(ls: Seq<Seq<char>>) -> bool {
    forall|i: int| 0 <= i < ls.len() ==> line_fine(#[trigger] ls[i])
}

/// Whether every line is free of line breaks.
pub open spec fn all_single(ls: Seq<Seq<char>>) -> bool {
    forall|i: int| 0 <= i < ls.len() ==> single_line(#[trigger] ls[i])
}

/// Whether every string is free of line breaks.
pub open spec fn strings_single(v: Seq<String>) -> bool {
    forall|i: int| 0 <= i < v.len() ==> single_line(#[trigger] v[i]@)
}

/// What the metadata must satisfy for its layer chain to read back unchanged
/// from `Image.md`: no field holds a line break; no environment entry, command
/// or entrypoint is the line `## Layer History`; every layer is `row_safe`.
pub open spec fn codec_safe(m: ImageMetadata) -> bool {
    &&& match m.basic_info {
        Some(b) => single_line(b.name@) && single_line(b.id@) && strings_single(b.tags@)
            && single_line(b.created@) && single_line(b.architecture@) && single_line(b.os@),
        None => true,
    }
    &&& match m.container_config {
        Some(c) => {
            &&& strings_single(c.environment_variables@)
            &&& forall|i: int| 0 <= i < c.environment_variables@.len() ==> #[trigger] c.environment_variables@[i]@ != t_layers()
            &&& match c.command { Some(x) => single_line(x@) && x@ != t_layers(), None => true }
            &&& match c.entrypoint { Some(x) => single_line(x@) && x@ != t_layers(), None => true }
            &&& single_line(c.working_directory@)
            &&& strings_single(c.exposed_ports@)
            &&& forall|i: int| 0 <= i < c.labels@.len() ==> single_line(#[trigger] c.labels@[i].0@) && single_line(c.labels@[i].1@)
        },
        None => true,
    }
    &&& forall|i: int| 0 <= i < m.layer_digests@.len() ==> row_safe(#[trigger] m.layer_digests@[i]@)
}

proof fn lemma_single_concat(a: Seq<char>, b: Seq<char>)
    requires
        single_line(a),
        single_line(b),
    ensures
        single_line(a + b),
{
    assert forall|i: int| 0 <= i < (a + b).len() implies (a + b)[i] != '\n' && (a + b)[i] != '\r' by {
        if i < a.len() {
            assert((a + b)[i] == a[i]);
        } else {
            assert((a + b)[i] == b[i - a.len()]);
        }
    }
}

proof fn lemma_empty_single()
    ensures
        single_line(Seq::<char>::empty()),
        Seq::<char>::empty() != t_layers(),
{
    lemma_t_layers();
}

/// A line that differs from the layer-history title at position `k` of its prefix.
proof fn lemma_prefix_differs(p: Seq<char>, x: Seq<char>, k: int)
    requires
        0 <= k < p.len(),
        k < 16,
        t_layers().len() == 16,
        p[k] != t_layers()[k],
    ensures
        p + x != t_layers(),
        p != t_layers(),
{
    assert((p + x)[k] == p[k]);
}

proof fn lemma_fine_concat(a: Seq<Seq<char>>, b: Seq<Seq<char>>)
    requires
        all_fine(a),
        all_fine(b),
    ensures
        all_fine(a + b),
{
    assert forall|i: int| 0 <= i < (a + b).len() implies line_fine(#[trigger] (a + b)[i]) by {
        if i < a.len() {
            assert((a + b)[i] == a[i]);
        } else {
            assert((a + b)[i] == b[i - a.len()]);
        }
    }
}

proof fn lemma_single_seq_concat(a: Seq<Seq<char>>, b: Seq<Seq<char>>)
    requires
        all_single(a),
        all_single(b),
    ensures
        all_single(a + b),
{
    assert forall|i: int| 0 <= i < (a + b).len() implies single_line(#[trigger] (a + b)[i]) by {
        if i < a.len() {
            assert((a + b)[i] == a[i]);
        } else {
            assert((a + b)[i] == b[i - a.len()]);
        }
    }
}

proof fn lemma_join_with_single(parts: Seq<Seq<char>>, sep: Seq<char>)
    requires
        all_single(parts),
        single_line(sep),
    ensures
        single_line(join_with(parts, sep)),
    decreases parts.len(),
{
    if parts.len() == 1 {
        assert(single_line(parts[0]));
    } else if parts.len() > 1 {
        let p = parts.drop_last();
        assert forall|i: int| 0 <= i < p.len() implies single_line(#[trigger] p[i]) by {
            assert(p[i] == parts[i]);
        }
        lemma_join_with_single(p, sep);
        assert(single_line(parts[parts.len() - 1]));
        lemma_single_concat(join_with(p, sep), sep);
        lemma_single_concat(join_with(p, sep) + sep, parts.last());
    } else {
        lemma_empty_single();
    }
}

proof fn lemma_basic_fine(b: BasicInfo)
    requires
        single_line(b.name@) && single_line(b.id@) && strings_single(b.tags@) && single_line(b.created@)
            && single_line(b.architecture@) && single_line(b.os@),
    ensures
        all_fine(basic_lines(b)),
{
    lemma_t_layers();
    lemma_t_basic();
    lemma_t_name();
    lemma_t_id();
    lemma_t_tick();
    lemma_t_tags();
    lemma_t_comma();
    lemma_t_created();
    lemma_t_arch();
    lemma_t_os();
    lemma_empty_single();
    lemma_prefix_differs(t_basic(), seq![], 3);
    lemma_prefix_differs(t_name(), b.name@, 0);
    lemma_prefix_differs(t_id(), b.id@ + t_tick(), 0);
    assert(t_id() + b.id@ + t_tick() == t_id() + (b.id@ + t_tick()));
    lemma_prefix_differs(t_created(), b.created@, 0);
    lemma_prefix_differs(t_arch(), b.architecture@, 0);
    lemma_prefix_differs(t_os(), b.os@, 0);
    lemma_single_concat(t_name(), b.name@);
    lemma_single_concat(t_id(), b.id@);
    lemma_single_concat(t_id() + b.id@, t_tick());
    lemma_single_concat(t_created(), b.created@);
    lemma_single_concat(t_arch(), b.architecture@);
    lemma_single_concat(t_os(), b.os@);
    if b.tags@.len() > 0 {
        let ts = strs(b.tags@);
        assert forall|i: int| 0 <= i < ts.len() implies single_line(#[trigger] ts[i]) by {
            assert(ts[i] == b.tags@[i]@);
        }
        lemma_join_with_single(ts, t_comma());
        lemma_single_concat(t_tags(), join_with(ts, t_comma()));
        lemma_prefix_differs(t_tags(), join_with(ts, t_comma()), 0);
    }
    let ls = basic_lines(b);
    assert forall|i: int| 0 <= i < ls.len() implies line_fine(#[trigger] ls[i]) by {
        if b.tags@.len() > 0 {
            assert(ls[4] == t_tags() + join_with(strs(b.tags@), t_comma()));
        }
    }
}

proof fn lemma_fenced_fine(title: Seq<char>, o: Option<String>)
    requires
        line_fine(title),
        match o { Some(x) => single_line(x@) && x@ != t_layers(), None => true },
    ensures
        all_fine(fenced_block(title, o)),
{
    lemma_t_layers();
    lemma_t_fence();
    lemma_empty_single();
    lemma_prefix_differs(t_fence(), seq![], 0);
}

proof fn lemma_config_fine(c: ContainerConfig)
    requires
        strings_single(c.environment_variables@),
        forall|i: int| 0 <= i < c.environment_variables@.len() ==> #[trigger] c.environment_variables@[i]@ != t_layers(),
        match c.command { Some(x) => single_line(x@) && x@ != t_layers(), None => true },
        match c.entrypoint { Some(x) => single_line(x@) && x@ != t_layers(), None => true },
        single_line(c.working_directory@),
        strings_single(c.exposed_ports@),
        forall|i: int| 0 <= i < c.labels@.len() ==> single_line(#[trigger] c.labels@[i].0@) && single_line(c.labels@[i].1@),
    ensures
        all_fine(config_lines(c)),
{
    lemma_t_layers();
    lemma_t_config();
    lemma_t_env();
    lemma_t_fence();
    lemma_t_cmd();
    lemma_t_entry();
    lemma_t_workdir();
    lemma_t_tick();
    lemma_t_ports();
    lemma_t_port();
    lemma_t_labels();
    lemma_t_label_head();
    lemma_t_label_sep();
    lemma_t_label_a();
    lemma_t_label_b();
    lemma_t_label_c();
    lemma_empty_single();
    lemma_prefix_differs(t_config(), seq![], 3);
    lemma_prefix_differs(t_env(), seq![], 2);
    lemma_prefix_differs(t_fence(), seq![], 0);
    lemma_prefix_differs(t_cmd(), seq![], 2);
    lemma_prefix_differs(t_entry(), seq![], 2);
    lemma_prefix_differs(t_workdir(), seq![], 2);
    lemma_prefix_differs(t_ports(), seq![], 2);
    lemma_prefix_differs(t_labels(), seq![], 2);
    lemma_prefix_differs(t_label_head(), seq![], 0);
    lemma_prefix_differs(t_label_sep(), seq![], 0);
    let head = seq![t_config(), Seq::<char>::empty()];
    assert(all_fine(head)) by {
        assert forall|i: int| 0 <= i < head.len() implies line_fine(#[trigger] head[i]) by {}
    }
    let env = env_block(c.environment_variables@);
    assert(all_fine(env)) by {
        if c.environment_variables@.len() > 0 {
            let e = c.environment_variables@;
            let a = seq![t_env(), Seq::<char>::empty(), t_fence()];
            let s = strs(e);
            let z = seq![t_fence(), Seq::<char>::empty()];
            assert(all_fine(a)) by {
                assert forall|i: int| 0 <= i < a.len() implies line_fine(#[trigger] a[i]) by {}
            }
            assert(all_fine(s)) by {
                assert forall|i: int| 0 <= i < s.len() implies line_fine(#[trigger] s[i]) by {
                    assert(s[i] == e[i]@);
                }
            }
            assert(all_fine(z)) by {
                assert forall|i: int| 0 <= i < z.len() implies line_fine(#[trigger] z[i]) by {}
            }
            lemma_fine_concat(a, s);
            lemma_fine_concat(a + s, z);
        }
    }
    lemma_fenced_fine(t_cmd(), c.command);
    lemma_fenced_fine(t_entry(), c.entrypoint);
    let wd = workdir_block(c.working_directory@);
    assert(all_fine(wd)) by {
        lemma_single_concat(t_tick(), c.working_directory@);
        lemma_single_concat(t_tick() + c.working_directory@, t_tick());
        lemma_prefix_differs(t_tick(), c.working_directory@ + t_tick(), 0);
        assert(t_tick() + c.working_directory@ + t_tick() == t_tick() + (c.working_directory@ + t_tick()));
        assert forall|i: int| 0 <= i < wd.len() implies line_fine(#[trigger] wd[i]) by {}
    }
    let ports = ports_block(c.exposed_ports@);
    assert(all_fine(ports)) by {
        if c.exposed_ports@.len() > 0 {
            let p = c.exposed_ports@;
            let a = seq![t_ports(), Seq::<char>::empty()];
            let s = Seq::new(p.len(), |i: int| port_line(p[i]@));
            let z = seq![Seq::<char>::empty()];
            assert(all_fine(a)) by {
                assert forall|i: int| 0 <= i < a.len() implies line_fine(#[trigger] a[i]) by {}
            }
            assert(all_fine(s)) by {
                assert forall|i: int| 0 <= i < s.len() implies line_fine(#[trigger] s[i]) by {
                    assert(single_line(p[i]@));
                    lemma_single_concat(t_port(), p[i]@);
                    lemma_single_concat(t_port() + p[i]@, t_tick());
                    lemma_prefix_differs(t_port(), p[i]@ + t_tick(), 0);
                    assert(t_port() + p[i]@ + t_tick() == t_port() + (p[i]@ + t_tick()));
                }
            }
            assert(all_fine(z)) by {
                assert forall|i: int| 0 <= i < z.len() implies line_fine(#[trigger] z[i]) by {}
            }
            lemma_fine_concat(a, s);
            lemma_fine_concat(a + s, z);
        }
    }
    let labels = labels_block(c.labels@);
    assert(all_fine(labels)) by {
        if c.labels@.len() > 0 {
            let l = c.labels@;
            let a = seq![t_labels(), Seq::<char>::empty(), t_label_head(), t_label_sep()];
            let s = Seq::new(l.len(), |i: int| label_line(l[i].0@, l[i].1@));
            let z = seq![Seq::<char>::empty()];
            assert(all_fine(a)) by {
                assert forall|i: int| 0 <= i < a.len() implies line_fine(#[trigger] a[i]) by {}
            }
            assert(all_fine(s)) by {
                assert forall|i: int| 0 <= i < s.len() implies line_fine(#[trigger] s[i]) by {
                    let k = l[i].0@;
                    let v = l[i].1@;
                    assert(single_line(k) && single_line(v));
                    lemma_single_concat(t_label_a(), k);
                    lemma_single_concat(t_label_a() + k, t_label_b());
                    lemma_single_concat(t_label_a() + k + t_label_b(), v);
                    lemma_single_concat(t_label_a() + k + t_label_b() + v, t_label_c());
                    lemma_prefix_differs(t_label_a(), k + t_label_b() + v + t_label_c(), 0);
                    assert(t_label_a() + k + t_label_b() + v + t_label_c() == t_label_a() + (k + t_label_b() + v + t_label_c()));
                }
            }
            assert(all_fine(z)) by {
                assert forall|i: int| 0 <= i < z.len() implies line_fine(#[trigger] z[i]) by {}
            }
            lemma_fine_concat(a, s);
            lemma_fine_concat(a + s, z);
        }
    }
    lemma_fine_concat(head, env);
    lemma_fine_concat(head + env, fenced_block(t_cmd(), c.command));
    lemma_fine_concat(head + env + fenced_block(t_cmd(), c.command), fenced_block(t_entry(), c.entrypoint));
    lemma_fine_concat(head + env + fenced_block(t_cmd(), c.command) + fenced_block(t_entry(), c.entrypoint), wd);
    lemma_fine_concat(head + env + fenced_block(t_cmd(), c.command) + fenced_block(t_entry(), c.entrypoint) + wd, ports);
    lemma_fine_concat(head + env + fenced_block(t_cmd(), c.command) + fenced_block(t_entry(), c.entrypoint) + wd + ports, labels);
}

proof fn lemma_head_fine(m: ImageMetadata)
    requires
        codec_safe(m),
    ensures
        all_fine(head_lines(m)),
{
    lemma_t_layers();
    lemma_t_title();
    lemma_t_unknown();
    lemma_empty_single();
    let name = match m.basic_info { Some(b) => b.name@, None => t_unknown() };
    lemma_single_concat(t_title(), name);
    lemma_prefix_differs(t_title(), name, 1);
    let t = title_lines(m);
    assert(all_fine(t)) by {
        assert forall|i: int| 0 <= i < t.len() implies line_fine(#[trigger] t[i]) by {}
    }
    let b = match m.basic_info { Some(b) => basic_lines(b), None => seq![] };
    assert(all_fine(b)) by {
        match m.basic_info {
            Some(bi) => lemma_basic_fine(bi),
            None => {},
        }
    }
    let c = match m.container_config { Some(c) => config_lines(c), None => seq![] };
    assert(all_fine(c)) by {
        match m.container_config {
            Some(ci) => lemma_config_fine(ci),
            None => {},
        }
    }
    lemma_fine_concat(t, b);
    lemma_fine_concat(t + b, c);
}

proof fn lemma_row_line_single(r: LayerRecord)
    requires
        row_safe(r),
    ensures
        single_line(row_line(r)),
        row_line(r).len() >= 2,
        row_line(r)[0] == '|',
        row_line(r)[1] == ' ',
{
    let comment = match r.comment { Some(c) => c, None => seq![] };
    lemma_escape_props(r.command);
    lemma_escape_props(comment);
    assert(single_line(comment)) by {
        match r.comment {
            Some(c) => {},
            None => lemma_empty_single(),
        }
    }
    let a = seq!['|', ' '];
    let b = seq![' ', '|', ' ', '`'];
    let c = seq!['`', ' ', '|', ' '];
    let d = seq![' ', '|'];
    let f = if r.is_empty { true_word() } else { false_word() };
    assert(single_line(a)) by {
        assert forall|i: int| 0 <= i < a.len() implies a[i] != '\n' && a[i] != '\r' by {
            if i == 0 {} else {}
        }
    }
    assert(single_line(b)) by {
        assert forall|i: int| 0 <= i < b.len() implies b[i] != '\n' && b[i] != '\r' by {
            if i == 0 {} else if i == 1 {} else if i == 2 {} else {}
        }
    }
    assert(single_line(c)) by {
        assert forall|i: int| 0 <= i < c.len() implies c[i] != '\n' && c[i] != '\r' by {
            if i == 0 {} else if i == 1 {} else if i == 2 {} else {}
        }
    }
    assert(single_line(d)) by {
        assert forall|i: int| 0 <= i < d.len() implies d[i] != '\n' && d[i] != '\r' by {
            if i == 0 {} else {}
        }
    }
    assert(single_line(f)) by {
        assert forall|i: int| 0 <= i < f.len() implies f[i] != '\n' && f[i] != '\r' by {
            if i == 0 {} else if i == 1 {} else if i == 2 {} else if i == 3 {} else {}
        }
    }
    let ec = escape_pipes(r.command);
    let em = escape_pipes(comment);
    lemma_single_concat(a, r.created);
    lemma_single_concat(a + r.created, b);
    lemma_single_concat(a + r.created + b, ec);
    lemma_single_concat(a + r.created + b + ec, c);
    lemma_single_concat(a + r.created + b + ec + c, em);
    lemma_single_concat(a + r.created + b + ec + c + em, b);
    lemma_single_concat(a + r.created + b + ec + c + em + b, r.digest);
    lemma_single_concat(a + r.created + b + ec + c + em + b + r.digest, c);
    lemma_single_concat(a + r.created + b + ec + c + em + b + r.digest + c, f);
    lemma_single_concat(a + r.created + b + ec + c + em + b + r.digest + c + f, d);
    assert(row_line(r) =~= a + r.created + b + ec + c + em + b + r.digest + c + f + d);
}

proof fn lemma_lines_join(ls: Seq<Seq<char>>)
    requires
        all_single(ls),
    ensures
        lines_of(join_lines(ls)) == ls,
    decreases ls.len(),
{
    if ls.len() > 0 {
        let rest = ls.drop_first();
        assert forall|i: int| 0 <= i < rest.len() implies single_line(#[trigger] rest[i]) by {
            assert(rest[i] == ls[i + 1]);
        }
        lemma_lines_join(rest);
        let l = ls[0];
        assert(single_line(l));
        let s = join_lines(ls);
        assert(s == l + seq!['\n'] + join_lines(rest));
        assert forall|j: int| 0 <= j < l.len() implies s[j] != '\n' by {
            assert(s[j] == l[j]);
        }
        assert(s[l.len() as int] == '\n');
        lemma_first_index(s, '\n', l.len() as int);
        assert(s.subrange(0, l.len() as int) =~= l);
        assert(s.subrange(l.len() as int + 1, s.len() as int) =~= join_lines(rest));
        assert(strip_cr(l) == l) by {
            if l.len() > 0 {
                assert(l[l.len() - 1] == l.last());
            }
        }
        assert(seq![l] + rest =~= ls);
    }
}

proof fn lemma_last_absent(ls: Seq<Seq<char>>, x: Seq<char>)
    requires
        forall|i: int| 0 <= i < ls.len() ==> #[trigger] ls[i] != x,
    ensures
        last_line_index(ls, x) == -1,
    decreases ls.len(),
{
    if ls.len() > 0 {
        let p = ls.drop_last();
        assert forall|i: int| 0 <= i < p.len() implies #[trigger] p[i] != x by {
            assert(p[i] == ls[i]);
        }
        assert(ls[ls.len() - 1] == ls.last());
        lemma_last_absent(p, x);
    }
}

proof fn lemma_last_suffix(a: Seq<Seq<char>>, b: Seq<Seq<char>>, x: Seq<char>)
    requires
        forall|i: int| 0 <= i < b.len() ==> #[trigger] b[i] != x,
    ensures
        last_line_index(a + b, x) == last_line_index(a, x),
    decreases b.len(),
{
    if b.len() == 0 {
        assert(a + b =~= a);
    } else {
        let p = b.drop_last();
        assert forall|i: int| 0 <= i < p.len() implies #[trigger] p[i] != x by {
            assert(p[i] == b[i]);
        }
        lemma_last_suffix(a, p, x);
        assert((a + b).drop_last() =~= a + p);
        assert((a + b).last() == b[b.len() - 1]);
    }
}

proof fn lemma_table_rows(doc: Seq<Seq<char>>, base: int, v: Seq<LayerDigest>, i: int)
    requires
        0 <= base,
        0 <= i <= v.len(),
        base + v.len() < doc.len(),
        forall|j: int| 0 <= j < v.len() ==> doc[base + j] == row_line(#[trigger] v[j]@),
        forall|j: int| 0 <= j < v.len() ==> row_safe(#[trigger] v[j]@),
        doc[base + v.len()] == Seq::<char>::empty(),
    ensures
        table_rows(doc, base + i) == records(v).subrange(i, v.len() as int),
    decreases v.len() - i,
{
    if i == v.len() {
        assert(!is_table_line(doc[base + i]));
        assert(records(v).subrange(i, v.len() as int) =~= Seq::<LayerRecord>::empty());
    } else {
        lemma_table_rows(doc, base, v, i + 1);
        let r = v[i]@;
        assert(doc[base + i] == row_line(v[i]@));
        lemma_row_line_single(r);
        lemma_row_round_trip(r);
        assert(is_table_line(doc[base + i]));
        assert(records(v).subrange(i, v.len() as int) =~= seq![r] + records(v).subrange(i + 1, v.len() as int));
    }
}

/// The layer chain reads back unchanged: the chain read from the lines of the
/// rendered `Image.md` is the metadata's own chain, commands and comments
/// included, whenever the metadata is `codec_safe`.
pub proof fn lemma_layer_chain_round_trip(m: ImageMetadata)
    requires
        codec_safe(m),
    ensures
        layer_chain(lines_of(rendered(m))) == records(m.layer_digests@),
{
    let head = head_lines(m);
    let v = m.layer_digests@;
    let tail = layer_lines(v);
    lemma_head_fine(m);
    lemma_t_layers();
    lemma_t_table_head();
    lemma_t_table_sep();
    lemma_empty_single();
    assert(all_single(tail)) by {
        assert forall|i: int| 0 <= i < tail.len() implies single_line(#[trigger] tail[i]) by {
            if v.len() > 0 && 4 <= i < 4 + v.len() {
                assert(tail[i] == row_line(v[i - 4]@));
                lemma_row_line_single(v[i - 4]@);
            }
        }
    }
    assert(all_single(head)) by {
        assert forall|i: int| 0 <= i < head.len() implies single_line(#[trigger] head[i]) by {
            assert(line_fine(head[i]));
        }
    }
    lemma_single_seq_concat(head, tail);
    lemma_lines_join(head + tail);
    assert(lines_of(rendered(m)) == head + tail);
    let doc = head + tail;
    assert forall|i: int| 0 <= i < head.len() implies #[trigger] head[i] != t_layers() by {
        assert(line_fine(head[i]));
    }
    if v.len() == 0 {
        assert(doc =~= head);
        lemma_last_absent(head, t_layers());
        assert(records(v) =~= Seq::<LayerRecord>::empty());
    } else {
        let k = head.len() as int;
        let rows = Seq::new(v.len(), |i: int| row_line(v[i]@));
        let after = seq![Seq::<char>::empty(), t_table_head(), t_table_sep()] + rows + seq![Seq::<char>::empty()];
        assert(doc =~= head.push(t_layers()) + after);
        assert forall|i: int| 0 <= i < after.len() implies #[trigger] after[i] != t_layers() by {
            if i == 0 {
            } else if i == 1 {
                lemma_prefix_differs(t_table_head(), seq![], 0);
            } else if i == 2 {
                lemma_prefix_differs(t_table_sep(), seq![], 0);
            } else if i < 3 + v.len() {
                assert(after[i] == row_line(v[i - 3]@));
                lemma_row_line_single(v[i - 3]@);
                lemma_prefix_differs(row_line(v[i - 3]@), seq![], 0);
            } else {
            }
        }
        lemma_last_suffix(head.push(t_layers()), after, t_layers());
        assert(head.push(t_layers()).last() == t_layers());
        assert(last_line_index(doc, t_layers()) == k);
        assert(doc[k + 2] == t_table_head());
        assert(doc[k + 3] == t_table_sep());
        assert(rows_start(doc, k) == k + 4);
        assert forall|j: int| 0 <= j < v.len() implies doc[k + 4 + j] == row_line(#[trigger] v[j]@) by {
            assert(doc[k + 4 + j] == rows[j]);
        }
        lemma_table_rows(doc, k + 4, v, 0);
        assert(records(v).subrange(0, v.len() as int) =~= records(v));
    }
}

/// Two metadata values with the same sections and the same layer records
/// render the same text.
pub proof fn lemma_rendered_by_records(a: ImageMetadata, b: ImageMetadata)
    requires
        a.basic_info == b.basic_info,
        a.container_config == b.container_config,
        records(a.layer_digests@) == records(b.layer_digests@),
    ensures
        rendered(a) == rendered(b),
{
    let va = a.layer_digests@;
    let vb = b.layer_digests@;
    assert(va.len() == records(va).len());
    assert(vb.len() == records(vb).len());
    assert(Seq::new(va.len(), |i: int| row_line(va[i]@)) =~= Seq::new(vb.len(), |i: int| row_line(vb[i]@))) by {
        assert forall|i: int| 0 <= i < va.len() implies va[i]@ == vb[i]@ by {
            assert(records(va)[i] == va[i]@);
            assert(records(vb)[i] == vb[i]@);
        }
    }
    assert(layer_lines(va) == layer_lines(vb));
    assert(head_lines(a) == head_lines(b));
}

} // verus!
