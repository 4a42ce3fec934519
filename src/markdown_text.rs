//! The fixed text of `Image.md`: section titles, bullet prefixes and table frames.
use vstd::prelude::*;
use crate::text::chars_of;
use crate::markdown_row::single_line;

verus! {

/// `# Image: `
pub open spec fn t_title() -> Seq<char> {
    seq!['#', ' ', 'I', 'm', 'a', 'g', 'e', ':', ' ']
}

/// Exec copy of `t_title`.
pub fn x_title() -> (r: Vec<char>)
    ensures
        r@ == t_title(),
{
    let r = chars_of("# Image: ");
    proof {
        reveal_strlit("# Image: ");
        assert(r@ =~= t_title());
    }
    r
}

/// `Unknown`
pub open spec fn t_unknown() -> Seq<char> {
    seq!['U', 'n', 'k', 'n', 'o', 'w', 'n']
}

/// Exec copy of `t_unknown`.
pub fn x_unknown() -> (r: Vec<char>)
    ensures
        r@ == t_unknown(),
{
    let r = chars_of("Unknown");
    proof {
        reveal_strlit("Unknown");
        assert(r@ =~= t_unknown());
    }
    r
}

/// `## Basic Information`
pub open spec fn t_basic() -> Seq<char> {
    seq!['#', '#', ' ', 'B', 'a', 's', 'i', 'c', ' ', 'I', 'n', 'f', 'o', 'r', 'm', 'a', 't', 'i', 'o', 'n']
}

/// Exec copy of `t_basic`.
pub fn x_basic() -> (r: Vec<char>)
    ensures
        r@ == t_basic(),
{
    let r = chars_of("## Basic Information");
    proof {
        reveal_strlit("## Basic Information");
        assert(r@ =~= t_basic());
    }
    r
}

/// `- **Name**: `
pub open spec fn t_name() -> Seq<char> {
    seq!['-', ' ', '*', '*', 'N', 'a', 'm', 'e', '*', '*', ':', ' ']
}

/// Exec copy of `t_name`.
pub fn x_name() -> (r: Vec<char>)
    ensures
        r@ == t_name(),
{
    let r = chars_of("- **Name**: ");
    proof {
        reveal_strlit("- **Name**: ");
        assert(r@ =~= t_name());
    }
    r
}

/// The text "- **ID**: `".
pub open spec fn t_id() -> Seq<char> {
    seq!['-', ' ', '*', '*', 'I', 'D', '*', '*', ':', ' ', '`']
}

/// Exec copy of `t_id`.
pub fn x_id() -> (r: Vec<char>)
    ensures
        r@ == t_id(),
{
    let r = chars_of("- **ID**: `");
    proof {
        reveal_strlit("- **ID**: `");
        assert(r@ =~= t_id());
    }
    r
}

/// The text "`".
pub open spec fn t_tick() -> Seq<char> {
    seq!['`']
}

/// Exec copy of `t_tick`.
pub fn x_tick() -> (r: Vec<char>)
    ensures
        r@ == t_tick(),
{
    let r = chars_of("`");
    proof {
        reveal_strlit("`");
        assert(r@ =~= t_tick());
    }
    r
}

/// `- **Tags**: `
pub open spec fn t_tags() -> Seq<char> {
    seq!['-', ' ', '*', '*', 'T', 'a', 'g', 's', '*', '*', ':', ' ']
}

/// Exec copy of `t_tags`.
pub fn x_tags() -> (r: Vec<char>)
    ensures
        r@ == t_tags(),
{
    let r = chars_of("- **Tags**: ");
    proof {
        reveal_strlit("- **Tags**: ");
        assert(r@ =~= t_tags());
    }
    r
}

/// `, `
pub open spec fn t_comma() -> Seq<char> {
    seq![',', ' ']
}

/// Exec copy of `t_comma`.
pub fn x_comma() -> (r: Vec<char>)
    ensures
        r@ == t_comma(),
{
    let r = chars_of(", ");
    proof {
        reveal_strlit(", ");
        assert(r@ =~= t_comma());
    }
    r
}

/// `- **Created**: `
pub open spec fn t_created() -> Seq<char> {
    seq!['-', ' ', '*', '*', 'C', 'r', 'e', 'a', 't', 'e', 'd', '*', '*', ':', ' ']
}

/// Exec copy of `t_created`.
pub fn x_created() -> (r: Vec<char>)
    ensures
        r@ == t_created(),
{
    let r = chars_of("- **Created**: ");
    proof {
        reveal_strlit("- **Created**: ");
        assert(r@ =~= t_created());
    }
    r
}

/// `- **Architecture**: `
pub open spec fn t_arch() -> Seq<char> {
    seq!['-', ' ', '*', '*', 'A', 'r', 'c', 'h', 'i', 't', 'e', 'c', 't', 'u', 'r', 'e', '*', '*', ':', ' ']
}

/// Exec copy of `t_arch`.
pub fn x_arch() -> (r: Vec<char>)
    ensures
        r@ == t_arch(),
{
    let r = chars_of("- **Architecture**: ");
    proof {
        reveal_strlit("- **Architecture**: ");
        assert(r@ =~= t_arch());
    }
    r
}

/// `- **OS**: `
pub open spec fn t_os() -> Seq<char> {
    seq!['-', ' ', '*', '*', 'O', 'S', '*', '*', ':', ' ']
}

/// Exec copy of `t_os`.
pub fn x_os() -> (r: Vec<char>)
    ensures
        r@ == t_os(),
{
    let r = chars_of("- **OS**: ");
    proof {
        reveal_strlit("- **OS**: ");
        assert(r@ =~= t_os());
    }
    r
}

/// `## Container Configuration`
pub open spec fn t_config() -> Seq<char> {
    seq!['#', '#', ' ', 'C', 'o', 'n', 't', 'a', 'i', 'n', 'e', 'r', ' ', 'C', 'o', 'n', 'f', 'i', 'g', 'u', 'r', 'a', 't', 'i', 'o', 'n']
}

/// Exec copy of `t_config`.
pub fn x_config() -> (r: Vec<char>)
    ensures
        r@ == t_config(),
{
    let r = chars_of("## Container Configuration");
    proof {
        reveal_strlit("## Container Configuration");
        assert(r@ =~= t_config());
    }
    r
}

/// `### Environment Variables`
pub open spec fn t_env() -> Seq<char> {
    seq!['#', '#', '#', ' ', 'E', 'n', 'v', 'i', 'r', 'o', 'n', 'm', 'e', 'n', 't', ' ', 'V', 'a', 'r', 'i', 'a', 'b', 'l', 'e', 's']
}

/// Exec copy of `t_env`.
pub fn x_env() -> (r: Vec<char>)
    ensures
        r@ == t_env(),
{
    let r = chars_of("### Environment Variables");
    proof {
        reveal_strlit("### Environment Variables");
        assert(r@ =~= t_env());
    }
    r
}

/// The text "```".
pub open spec fn t_fence() -> Seq<char> {
    seq!['`', '`', '`']
}

/// Exec copy of `t_fence`.
pub fn x_fence() -> (r: Vec<char>)
    ensures
        r@ == t_fence(),
{
    let r = chars_of("```");
    proof {
        reveal_strlit("```");
        assert(r@ =~= t_fence());
    }
    r
}

/// `### Command`
pub open spec fn t_cmd() -> Seq<char> {
    seq!['#', '#', '#', ' ', 'C', 'o', 'm', 'm', 'a', 'n', 'd']
}

/// Exec copy of `t_cmd`.
pub fn x_cmd() -> (r: Vec<char>)
    ensures
        r@ == t_cmd(),
{
    let r = chars_of("### Command");
    proof {
        reveal_strlit("### Command");
        assert(r@ =~= t_cmd());
    }
    r
}

/// `### Entrypoint`
pub open spec fn t_entry() -> Seq<char> {
    seq!['#', '#', '#', ' ', 'E', 'n', 't', 'r', 'y', 'p', 'o', 'i', 'n', 't']
}

/// Exec copy of `t_entry`.
pub fn x_entry() -> (r: Vec<char>)
    ensures
        r@ == t_entry(),
{
    let r = chars_of("### Entrypoint");
    proof {
        reveal_strlit("### Entrypoint");
        assert(r@ =~= t_entry());
    }
    r
}

/// `### Working Directory`
pub open spec fn t_workdir() -> Seq<char> {
    seq!['#', '#', '#', ' ', 'W', 'o', 'r', 'k', 'i', 'n', 'g', ' ', 'D', 'i', 'r', 'e', 'c', 't', 'o', 'r', 'y']
}

/// Exec copy of `t_workdir`.
pub fn x_workdir() -> (r: Vec<char>)
    ensures
        r@ == t_workdir(),
{
    let r = chars_of("### Working Directory");
    proof {
        reveal_strlit("### Working Directory");
        assert(r@ =~= t_workdir());
    }
    r
}

/// `### Exposed Ports`
pub open spec fn t_ports() -> Seq<char> {
    seq!['#', '#', '#', ' ', 'E', 'x', 'p', 'o', 's', 'e', 'd', ' ', 'P', 'o', 'r', 't', 's']
}

/// Exec copy of `t_ports`.
pub fn x_ports() -> (r: Vec<char>)
    ensures
        r@ == t_ports(),
{
    let r = chars_of("### Exposed Ports");
    proof {
        reveal_strlit("### Exposed Ports");
        assert(r@ =~= t_ports());
    }
    r
}

/// The text "- `".
pub open spec fn t_port() -> Seq<char> {
    seq!['-', ' ', '`']
}

/// Exec copy of `t_port`.
pub fn x_port() -> (r: Vec<char>)
    ensures
        r@ == t_port(),
{
    let r = chars_of("- `");
    proof {
        reveal_strlit("- `");
        assert(r@ =~= t_port());
    }
    r
}

/// `### Labels`
pub open spec fn t_labels() -> Seq<char> {
    seq!['#', '#', '#', ' ', 'L', 'a', 'b', 'e', 'l', 's']
}

/// Exec copy of `t_labels`.
pub fn x_labels() -> (r: Vec<char>)
    ensures
        r@ == t_labels(),
{
    let r = chars_of("### Labels");
    proof {
        reveal_strlit("### Labels");
        assert(r@ =~= t_labels());
    }
    r
}

/// `| Key | Value |`
pub open spec fn t_label_head() -> Seq<char> {
    seq!['|', ' ', 'K', 'e', 'y', ' ', '|', ' ', 'V', 'a', 'l', 'u', 'e', ' ', '|']
}

/// Exec copy of `t_label_head`.
pub fn x_label_head() -> (r: Vec<char>)
    ensures
        r@ == t_label_head(),
{
    let r = chars_of("| Key | Value |");
    proof {
        reveal_strlit("| Key | Value |");
        assert(r@ =~= t_label_head());
    }
    r
}

/// `|-----|-------|`
pub open spec fn t_label_sep() -> Seq<char> {
    seq!['|', '-', '-', '-', '-', '-', '|', '-', '-', '-', '-', '-', '-', '-', '|']
}

/// Exec copy of `t_label_sep`.
pub fn x_label_sep() -> (r: Vec<char>)
    ensures
        r@ == t_label_sep(),
{
    let r = chars_of("|-----|-------|");
    proof {
        reveal_strlit("|-----|-------|");
        assert(r@ =~= t_label_sep());
    }
    r
}

/// The text "| `".
pub open spec fn t_label_a() -> Seq<char> {
    seq!['|', ' ', '`']
}

/// Exec copy of `t_label_a`.
pub fn x_label_a() -> (r: Vec<char>)
    ensures
        r@ == t_label_a(),
{
    let r = chars_of("| `");
    proof {
        reveal_strlit("| `");
        assert(r@ =~= t_label_a());
    }
    r
}

/// The text "` | `".
pub open spec fn t_label_b() -> Seq<char> {
    seq!['`', ' ', '|', ' ', '`']
}

/// Exec copy of `t_label_b`.
pub fn x_label_b() -> (r: Vec<char>)
    ensures
        r@ == t_label_b(),
{
    let r = chars_of("` | `");
    proof {
        reveal_strlit("` | `");
        assert(r@ =~= t_label_b());
    }
    r
}

/// The text "` |".
pub open spec fn t_label_c() -> Seq<char> {
    seq!['`', ' ', '|']
}

/// Exec copy of `t_label_c`.
pub fn x_label_c() -> (r: Vec<char>)
    ensures
        r@ == t_label_c(),
{
    let r = chars_of("` |");
    proof {
        reveal_strlit("` |");
        assert(r@ =~= t_label_c());
    }
    r
}

/// `## Layer History`
pub open spec fn t_layers() -> Seq<char> {
    seq!['#', '#', ' ', 'L', 'a', 'y', 'e', 'r', ' ', 'H', 'i', 's', 't', 'o', 'r', 'y']
}

/// Exec copy of `t_layers`.
pub fn x_layers() -> (r: Vec<char>)
    ensures
        r@ == t_layers(),
{
    let r = chars_of("## Layer History");
    proof {
        reveal_strlit("## Layer History");
        assert(r@ =~= t_layers());
    }
    r
}

/// `| Created | Command | Comment | Digest | Empty |`
pub open spec fn t_table_head() -> Seq<char> {
    seq!['|', ' ', 'C', 'r', 'e', 'a', 't', 'e', 'd', ' ', '|', ' ', 'C', 'o', 'm', 'm', 'a', 'n', 'd', ' ', '|', ' ', 'C', 'o', 'm', 'm', 'e', 'n', 't', ' ', '|', ' ', 'D', 'i', 'g', 'e', 's', 't', ' ', '|', ' ', 'E', 'm', 'p', 't', 'y', ' ', '|']
}

/// Exec copy of `t_table_head`.
pub fn x_table_head() -> (r: Vec<char>)
    ensures
        r@ == t_table_head(),
{
    let r = chars_of("| Created | Command | Comment | Digest | Empty |");
    proof {
        reveal_strlit("| Created | Command | Comment | Digest | Empty |");
        assert(r@ =~= t_table_head());
    }
    r
}

/// `|---------|---------|---------|--------|-------|`
pub open spec fn t_table_sep() -> Seq<char> {
    seq!['|', '-', '-', '-', '-', '-', '-', '-', '-', '-', '|', '-', '-', '-', '-', '-', '-', '-', '-', '-', '|', '-', '-', '-', '-', '-', '-', '-', '-', '-', '|', '-', '-', '-', '-', '-', '-', '-', '-', '|', '-', '-', '-', '-', '-', '-', '-', '|']
}

/// Exec copy of `t_table_sep`.
pub fn x_table_sep() -> (r: Vec<char>)
    ensures
        r@ == t_table_sep(),
{
    let r = chars_of("|---------|---------|---------|--------|-------|");
    proof {
        reveal_strlit("|---------|---------|---------|--------|-------|");
        assert(r@ =~= t_table_sep());
    }
    r
}

/// `| Key |`
pub open spec fn t_key_row() -> Seq<char> {
    seq!['|', ' ', 'K', 'e', 'y', ' ', '|']
}

/// Exec copy of `t_key_row`.
pub fn x_key_row() -> (r: Vec<char>)
    ensures
        r@ == t_key_row(),
{
    let r = chars_of("| Key |");
    proof {
        reveal_strlit("| Key |");
        assert(r@ =~= t_key_row());
    }
    r
}

/// `/`
pub open spec fn t_root() -> Seq<char> {
    seq!['/']
}

/// Exec copy of `t_root`.
pub fn x_root() -> (r: Vec<char>)
    ensures
        r@ == t_root(),
{
    let r = chars_of("/");
    proof {
        reveal_strlit("/");
        assert(r@ =~= t_root());
    }
    r
}

/// `t_title` is one line of 9 characters, with the leading characters shown.
pub proof fn lemma_t_title()
    ensures
        t_title().len() == 9,
        single_line(t_title()),
        t_title()[0] == '#',
        t_title()[1] == ' ',
        t_title()[2] == 'I',
        t_title()[3] == 'm',
{
    let t = t_title();
    assert forall|i: int| 0 <= i < 9 implies t[i] != '\n' && t[i] != '\r' by {
        if i == 0 {
            assert(t[0] == '#');
        } else if i == 1 {
            assert(t[1] == ' ');
        } else if i == 2 {
            assert(t[2] == 'I');
        } else if i == 3 {
            assert(t[3] == 'm');
        } else if i == 4 {
            assert(t[4] == 'a');
        } else if i == 5 {
            assert(t[5] == 'g');
        } else if i == 6 {
            assert(t[6] == 'e');
        } else if i == 7 {
            assert(t[7] == ':');
        } else if i == 8 {
            assert(t[8] == ' ');
        }
    }
}

/// `t_unknown` is one line of 7 characters, with the leading characters shown.
pub proof fn lemma_t_unknown()
    ensures
        t_unknown().len() == 7,
        single_line(t_unknown()),
        t_unknown()[0] == 'U',
        t_unknown()[1] == 'n',
        t_unknown()[2] == 'k',
        t_unknown()[3] == 'n',
{
    let t = t_unknown();
    assert forall|i: int| 0 <= i < 7 implies t[i] != '\n' && t[i] != '\r' by {
        if i == 0 {
            assert(t[0] == 'U');
        } else if i == 1 {
            assert(t[1] == 'n');
        } else if i == 2 {
            assert(t[2] == 'k');
        } else if i == 3 {
            assert(t[3] == 'n');
        } else if i == 4 {
            assert(t[4] == 'o');
        } else if i == 5 {
            assert(t[5] == 'w');
        } else if i == 6 {
            assert(t[6] == 'n');
        }
    }
}

/// `t_basic` is one line of 20 characters, with the leading characters shown.
pub proof fn lemma_t_basic()
    ensures
        t_basic().len() == 20,
        single_line(t_basic()),
        t_basic()[0] == '#',
        t_basic()[1] == '#',
        t_basic()[2] == ' ',
        t_basic()[3] == 'B',
{
    let t = t_basic();
    assert forall|i: int| 0 <= i < 20 implies t[i] != '\n' && t[i] != '\r' by {
        if i == 0 {
            assert(t[0] == '#');
        } else if i == 1 {
            assert(t[1] == '#');
        } else if i == 2 {
            assert(t[2] == ' ');
        } else if i == 3 {
            assert(t[3] == 'B');
        } else if i == 4 {
            assert(t[4] == 'a');
        } else if i == 5 {
            assert(t[5] == 's');
        } else if i == 6 {
            assert(t[6] == 'i');
        } else if i == 7 {
            assert(t[7] == 'c');
        } else if i == 8 {
            assert(t[8] == ' ');
        } else if i == 9 {
            assert(t[9] == 'I');
        } else if i == 10 {
            assert(t[10] == 'n');
        } else if i == 11 {
            assert(t[11] == 'f');
        } else if i == 12 {
            assert(t[12] == 'o');
        } else if i == 13 {
            assert(t[13] == 'r');
        } else if i == 14 {
            assert(t[14] == 'm');
        } else if i == 15 {
            assert(t[15] == 'a');
        } else if i == 16 {
            assert(t[16] == 't');
        } else if i == 17 {
            assert(t[17] == 'i');
        } else if i == 18 {
            assert(t[18] == 'o');
        } else if i == 19 {
            assert(t[19] == 'n');
        }
    }
}

/// `t_name` is one line of 12 characters, with the leading characters shown.
pub proof fn lemma_t_name()
    ensures
        t_name().len() == 12,
        single_line(t_name()),
        t_name()[0] == '-',
        t_name()[1] == ' ',
        t_name()[2] == '*',
        t_name()[3] == '*',
{
    let t = t_name();
    assert forall|i: int| 0 <= i < 12 implies t[i] != '\n' && t[i] != '\r' by {
        if i == 0 {
            assert(t[0] == '-');
        } else if i == 1 {
            assert(t[1] == ' ');
        } else if i == 2 {
            assert(t[2] == '*');
        } else if i == 3 {
            assert(t[3] == '*');
        } else if i == 4 {
            assert(t[4] == 'N');
        } else if i == 5 {
            assert(t[5] == 'a');
        } else if i == 6 {
            assert(t[6] == 'm');
        } else if i == 7 {
            assert(t[7] == 'e');
        } else if i == 8 {
            assert(t[8] == '*');
        } else if i == 9 {
            assert(t[9] == '*');
        } else if i == 10 {
            assert(t[10] == ':');
        } else if i == 11 {
            assert(t[11] == ' ');
        }
    }
}

/// `t_id` is one line of 11 characters, with the leading characters shown.
pub proof fn lemma_t_id()
    ensures
        t_id().len() == 11,
        single_line(t_id()),
        t_id()[0] == '-',
        t_id()[1] == ' ',
        t_id()[2] == '*',
        t_id()[3] == '*',
{
    let t = t_id();
    assert forall|i: int| 0 <= i < 11 implies t[i] != '\n' && t[i] != '\r' by {
        if i == 0 {
            assert(t[0] == '-');
        } else if i == 1 {
            assert(t[1] == ' ');
        } else if i == 2 {
            assert(t[2] == '*');
        } else if i == 3 {
            assert(t[3] == '*');
        } else if i == 4 {
            assert(t[4] == 'I');
        } else if i == 5 {
            assert(t[5] == 'D');
        } else if i == 6 {
            assert(t[6] == '*');
        } else if i == 7 {
            assert(t[7] == '*');
        } else if i == 8 {
            assert(t[8] == ':');
        } else if i == 9 {
            assert(t[9] == ' ');
        } else if i == 10 {
            assert(t[10] == '`');
        }
    }
}

/// `t_tick` is one line of 1 characters, with the leading characters shown.
pub proof fn lemma_t_tick()
    ensures
        t_tick().len() == 1,
        single_line(t_tick()),
        t_tick()[0] == '`',
{
    let t = t_tick();
    assert forall|i: int| 0 <= i < 1 implies t[i] != '\n' && t[i] != '\r' by {
        if i == 0 {
            assert(t[0] == '`');
        }
    }
}

/// `t_tags` is one line of 12 characters, with the leading characters shown.
pub proof fn lemma_t_tags()
    ensures
        t_tags().len() == 12,
        single_line(t_tags()),
        t_tags()[0] == '-',
        t_tags()[1] == ' ',
        t_tags()[2] == '*',
        t_tags()[3] == '*',
{
    let t = t_tags();
    assert forall|i: int| 0 <= i < 12 implies t[i] != '\n' && t[i] != '\r' by {
        if i == 0 {
            assert(t[0] == '-');
        } else if i == 1 {
            assert(t[1] == ' ');
        } else if i == 2 {
            assert(t[2] == '*');
        } else if i == 3 {
            assert(t[3] == '*');
        } else if i == 4 {
            assert(t[4] == 'T');
        } else if i == 5 {
            assert(t[5] == 'a');
        } else if i == 6 {
            assert(t[6] == 'g');
        } else if i == 7 {
            assert(t[7] == 's');
        } else if i == 8 {
            assert(t[8] == '*');
        } else if i == 9 {
            assert(t[9] == '*');
        } else if i == 10 {
            assert(t[10] == ':');
        } else if i == 11 {
            assert(t[11] == ' ');
        }
    }
}

/// `t_comma` is one line of 2 characters, with the leading characters shown.
pub proof fn lemma_t_comma()
    ensures
        t_comma().len() == 2,
        single_line(t_comma()),
        t_comma()[0] == ',',
        t_comma()[1] == ' ',
{
    let t = t_comma();
    assert forall|i: int| 0 <= i < 2 implies t[i] != '\n' && t[i] != '\r' by {
        if i == 0 {
            assert(t[0] == ',');
        } else if i == 1 {
            assert(t[1] == ' ');
        }
    }
}

/// `t_created` is one line of 15 characters, with the leading characters shown.
pub proof fn lemma_t_created()
    ensures
        t_created().len() == 15,
        single_line(t_created()),
        t_created()[0] == '-',
        t_created()[1] == ' ',
        t_created()[2] == '*',
        t_created()[3] == '*',
{
    let t = t_created();
    assert forall|i: int| 0 <= i < 15 implies t[i] != '\n' && t[i] != '\r' by {
        if i == 0 {
            assert(t[0] == '-');
        } else if i == 1 {
            assert(t[1] == ' ');
        } else if i == 2 {
            assert(t[2] == '*');
        } else if i == 3 {
            assert(t[3] == '*');
        } else if i == 4 {
            assert(t[4] == 'C');
        } else if i == 5 {
            assert(t[5] == 'r');
        } else if i == 6 {
            assert(t[6] == 'e');
        } else if i == 7 {
            assert(t[7] == 'a');
        } else if i == 8 {
            assert(t[8] == 't');
        } else if i == 9 {
            assert(t[9] == 'e');
        } else if i == 10 {
            assert(t[10] == 'd');
        } else if i == 11 {
            assert(t[11] == '*');
        } else if i == 12 {
            assert(t[12] == '*');
        } else if i == 13 {
            assert(t[13] == ':');
        } else if i == 14 {
            assert(t[14] == ' ');
        }
    }
}

/// `t_arch` is one line of 20 characters, with the leading characters shown.
pub proof fn lemma_t_arch()
    ensures
        t_arch().len() == 20,
        single_line(t_arch()),
        t_arch()[0] == '-',
        t_arch()[1] == ' ',
        t_arch()[2] == '*',
        t_arch()[3] == '*',
{
    let t = t_arch();
    assert forall|i: int| 0 <= i < 20 implies t[i] != '\n' && t[i] != '\r' by {
        if i == 0 {
            assert(t[0] == '-');
        } else if i == 1 {
            assert(t[1] == ' ');
        } else if i == 2 {
            assert(t[2] == '*');
        } else if i == 3 {
            assert(t[3] == '*');
        } else if i == 4 {
            assert(t[4] == 'A');
        } else if i == 5 {
            assert(t[5] == 'r');
        } else if i == 6 {
            assert(t[6] == 'c');
        } else if i == 7 {
            assert(t[7] == 'h');
        } else if i == 8 {
            assert(t[8] == 'i');
        } else if i == 9 {
            assert(t[9] == 't');
        } else if i == 10 {
            assert(t[10] == 'e');
        } else if i == 11 {
            assert(t[11] == 'c');
        } else if i == 12 {
            assert(t[12] == 't');
        } else if i == 13 {
            assert(t[13] == 'u');
        } else if i == 14 {
            assert(t[14] == 'r');
        } else if i == 15 {
            assert(t[15] == 'e');
        } else if i == 16 {
            assert(t[16] == '*');
        } else if i == 17 {
            assert(t[17] == '*');
        } else if i == 18 {
            assert(t[18] == ':');
        } else if i == 19 {
            assert(t[19] == ' ');
        }
    }
}

/// `t_os` is one line of 10 characters, with the leading characters shown.
pub proof fn lemma_t_os()
    ensures
        t_os().len() == 10,
        single_line(t_os()),
        t_os()[0] == '-',
        t_os()[1] == ' ',
        t_os()[2] == '*',
        t_os()[3] == '*',
{
    let t = t_os();
    assert forall|i: int| 0 <= i < 10 implies t[i] != '\n' && t[i] != '\r' by {
        if i == 0 {
            assert(t[0] == '-');
        } else if i == 1 {
            assert(t[1] == ' ');
        } else if i == 2 {
            assert(t[2] == '*');
        } else if i == 3 {
            assert(t[3] == '*');
        } else if i == 4 {
            assert(t[4] == 'O');
        } else if i == 5 {
            assert(t[5] == 'S');
        } else if i == 6 {
            assert(t[6] == '*');
        } else if i == 7 {
            assert(t[7] == '*');
        } else if i == 8 {
            assert(t[8] == ':');
        } else if i == 9 {
            assert(t[9] == ' ');
        }
    }
}

/// `t_config` is one line of 26 characters, with the leading characters shown.
pub proof fn lemma_t_config()
    ensures
        t_config().len() == 26,
        single_line(t_config()),
        t_config()[0] == '#',
        t_config()[1] == '#',
        t_config()[2] == ' ',
        t_config()[3] == 'C',
{
    let t = t_config();
    assert forall|i: int| 0 <= i < 26 implies t[i] != '\n' && t[i] != '\r' by {
        if i == 0 {
            assert(t[0] == '#');
        } else if i == 1 {
            assert(t[1] == '#');
        } else if i == 2 {
            assert(t[2] == ' ');
        } else if i == 3 {
            assert(t[3] == 'C');
        } else if i == 4 {
            assert(t[4] == 'o');
        } else if i == 5 {
            assert(t[5] == 'n');
        } else if i == 6 {
            assert(t[6] == 't');
        } else if i == 7 {
            assert(t[7] == 'a');
        } else if i == 8 {
            assert(t[8] == 'i');
        } else if i == 9 {
            assert(t[9] == 'n');
        } else if i == 10 {
            assert(t[10] == 'e');
        } else if i == 11 {
            assert(t[11] == 'r');
        } else if i == 12 {
            assert(t[12] == ' ');
        } else if i == 13 {
            assert(t[13] == 'C');
        } else if i == 14 {
            assert(t[14] == 'o');
        } else if i == 15 {
            assert(t[15] == 'n');
        } else if i == 16 {
            assert(t[16] == 'f');
        } else if i == 17 {
            assert(t[17] == 'i');
        } else if i == 18 {
            assert(t[18] == 'g');
        } else if i == 19 {
            assert(t[19] == 'u');
        } else if i == 20 {
            assert(t[20] == 'r');
        } else if i == 21 {
            assert(t[21] == 'a');
        } else if i == 22 {
            assert(t[22] == 't');
        } else if i == 23 {
            assert(t[23] == 'i');
        } else if i == 24 {
            assert(t[24] == 'o');
        } else if i == 25 {
            assert(t[25] == 'n');
        }
    }
}

/// `t_env` is one line of 25 characters, with the leading characters shown.
pub proof fn lemma_t_env()
    ensures
        t_env().len() == 25,
        single_line(t_env()),
        t_env()[0] == '#',
        t_env()[1] == '#',
        t_env()[2] == '#',
        t_env()[3] == ' ',
{
    let t = t_env();
    assert forall|i: int| 0 <= i < 25 implies t[i] != '\n' && t[i] != '\r' by {
        if i == 0 {
            assert(t[0] == '#');
        } else if i == 1 {
            assert(t[1] == '#');
        } else if i == 2 {
            assert(t[2] == '#');
        } else if i == 3 {
            assert(t[3] == ' ');
        } else if i == 4 {
            assert(t[4] == 'E');
        } else if i == 5 {
            assert(t[5] == 'n');
        } else if i == 6 {
            assert(t[6] == 'v');
        } else if i == 7 {
            assert(t[7] == 'i');
        } else if i == 8 {
            assert(t[8] == 'r');
        } else if i == 9 {
            assert(t[9] == 'o');
        } else if i == 10 {
            assert(t[10] == 'n');
        } else if i == 11 {
            assert(t[11] == 'm');
        } else if i == 12 {
            assert(t[12] == 'e');
        } else if i == 13 {
            assert(t[13] == 'n');
        } else if i == 14 {
            assert(t[14] == 't');
        } else if i == 15 {
            assert(t[15] == ' ');
        } else if i == 16 {
            assert(t[16] == 'V');
        } else if i == 17 {
            assert(t[17] == 'a');
        } else if i == 18 {
            assert(t[18] == 'r');
        } else if i == 19 {
            assert(t[19] == 'i');
        } else if i == 20 {
            assert(t[20] == 'a');
        } else if i == 21 {
            assert(t[21] == 'b');
        } else if i == 22 {
            assert(t[22] == 'l');
        } else if i == 23 {
            assert(t[23] == 'e');
        } else if i == 24 {
            assert(t[24] == 's');
        }
    }
}

/// `t_fence` is one line of 3 characters, with the leading characters shown.
pub proof fn lemma_t_fence()
    ensures
        t_fence().len() == 3,
        single_line(t_fence()),
        t_fence()[0] == '`',
        t_fence()[1] == '`',
        t_fence()[2] == '`',
{
    let t = t_fence();
    assert forall|i: int| 0 <= i < 3 implies t[i] != '\n' && t[i] != '\r' by {
        if i == 0 {
            assert(t[0] == '`');
        } else if i == 1 {
            assert(t[1] == '`');
        } else if i == 2 {
            assert(t[2] == '`');
        }
    }
}

/// `t_cmd` is one line of 11 characters, with the leading characters shown.
pub proof fn lemma_t_cmd()
    ensures
        t_cmd().len() == 11,
        single_line(t_cmd()),
        t_cmd()[0] == '#',
        t_cmd()[1] == '#',
        t_cmd()[2] == '#',
        t_cmd()[3] == ' ',
{
    let t = t_cmd();
    assert forall|i: int| 0 <= i < 11 implies t[i] != '\n' && t[i] != '\r' by {
        if i == 0 {
            assert(t[0] == '#');
        } else if i == 1 {
            assert(t[1] == '#');
        } else if i == 2 {
            assert(t[2] == '#');
        } else if i == 3 {
            assert(t[3] == ' ');
        } else if i == 4 {
            assert(t[4] == 'C');
        } else if i == 5 {
            assert(t[5] == 'o');
        } else if i == 6 {
            assert(t[6] == 'm');
        } else if i == 7 {
            assert(t[7] == 'm');
        } else if i == 8 {
            assert(t[8] == 'a');
        } else if i == 9 {
            assert(t[9] == 'n');
        } else if i == 10 {
            assert(t[10] == 'd');
        }
    }
}

/// `t_entry` is one line of 14 characters, with the leading characters shown.
pub proof fn lemma_t_entry()
    ensures
        t_entry().len() == 14,
        single_line(t_entry()),
        t_entry()[0] == '#',
        t_entry()[1] == '#',
        t_entry()[2] == '#',
        t_entry()[3] == ' ',
{
    let t = t_entry();
    assert forall|i: int| 0 <= i < 14 implies t[i] != '\n' && t[i] != '\r' by {
        if i == 0 {
            assert(t[0] == '#');
        } else if i == 1 {
            assert(t[1] == '#');
        } else if i == 2 {
            assert(t[2] == '#');
        } else if i == 3 {
            assert(t[3] == ' ');
        } else if i == 4 {
            assert(t[4] == 'E');
        } else if i == 5 {
            assert(t[5] == 'n');
        } else if i == 6 {
            assert(t[6] == 't');
        } else if i == 7 {
            assert(t[7] == 'r');
        } else if i == 8 {
            assert(t[8] == 'y');
        } else if i == 9 {
            assert(t[9] == 'p');
        } else if i == 10 {
            assert(t[10] == 'o');
        } else if i == 11 {
            assert(t[11] == 'i');
        } else if i == 12 {
            assert(t[12] == 'n');
        } else if i == 13 {
            assert(t[13] == 't');
        }
    }
}

/// `t_workdir` is one line of 21 characters, with the leading characters shown.
pub proof fn lemma_t_workdir()
    ensures
        t_workdir().len() == 21,
        single_line(t_workdir()),
        t_workdir()[0] == '#',
        t_workdir()[1] == '#',
        t_workdir()[2] == '#',
        t_workdir()[3] == ' ',
{
    let t = t_workdir();
    assert forall|i: int| 0 <= i < 21 implies t[i] != '\n' && t[i] != '\r' by {
        if i == 0 {
            assert(t[0] == '#');
        } else if i == 1 {
            assert(t[1] == '#');
        } else if i == 2 {
            assert(t[2] == '#');
        } else if i == 3 {
            assert(t[3] == ' ');
        } else if i == 4 {
            assert(t[4] == 'W');
        } else if i == 5 {
            assert(t[5] == 'o');
        } else if i == 6 {
            assert(t[6] == 'r');
        } else if i == 7 {
            assert(t[7] == 'k');
        } else if i == 8 {
            assert(t[8] == 'i');
        } else if i == 9 {
            assert(t[9] == 'n');
        } else if i == 10 {
            assert(t[10] == 'g');
        } else if i == 11 {
            assert(t[11] == ' ');
        } else if i == 12 {
            assert(t[12] == 'D');
        } else if i == 13 {
            assert(t[13] == 'i');
        } else if i == 14 {
            assert(t[14] == 'r');
        } else if i == 15 {
            assert(t[15] == 'e');
        } else if i == 16 {
            assert(t[16] == 'c');
        } else if i == 17 {
            assert(t[17] == 't');
        } else if i == 18 {
            assert(t[18] == 'o');
        } else if i == 19 {
            assert(t[19] == 'r');
        } else if i == 20 {
            assert(t[20] == 'y');
        }
    }
}

/// `t_ports` is one line of 17 characters, with the leading characters shown.
pub proof fn lemma_t_ports()
    ensures
        t_ports().len() == 17,
        single_line(t_ports()),
        t_ports()[0] == '#',
        t_ports()[1] == '#',
        t_ports()[2] == '#',
        t_ports()[3] == ' ',
{
    let t = t_ports();
    assert forall|i: int| 0 <= i < 17 implies t[i] != '\n' && t[i] != '\r' by {
        if i == 0 {
            assert(t[0] == '#');
        } else if i == 1 {
            assert(t[1] == '#');
        } else if i == 2 {
            assert(t[2] == '#');
        } else if i == 3 {
            assert(t[3] == ' ');
        } else if i == 4 {
            assert(t[4] == 'E');
        } else if i == 5 {
            assert(t[5] == 'x');
        } else if i == 6 {
            assert(t[6] == 'p');
        } else if i == 7 {
            assert(t[7] == 'o');
        } else if i == 8 {
            assert(t[8] == 's');
        } else if i == 9 {
            assert(t[9] == 'e');
        } else if i == 10 {
            assert(t[10] == 'd');
        } else if i == 11 {
            assert(t[11] == ' ');
        } else if i == 12 {
            assert(t[12] == 'P');
        } else if i == 13 {
            assert(t[13] == 'o');
        } else if i == 14 {
            assert(t[14] == 'r');
        } else if i == 15 {
            assert(t[15] == 't');
        } else if i == 16 {
            assert(t[16] == 's');
        }
    }
}

/// `t_port` is one line of 3 characters, with the leading characters shown.
pub proof fn lemma_t_port()
    ensures
        t_port().len() == 3,
        single_line(t_port()),
        t_port()[0] == '-',
        t_port()[1] == ' ',
        t_port()[2] == '`',
{
    let t = t_port();
    assert forall|i: int| 0 <= i < 3 implies t[i] != '\n' && t[i] != '\r' by {
        if i == 0 {
            assert(t[0] == '-');
        } else if i == 1 {
            assert(t[1] == ' ');
        } else if i == 2 {
            assert(t[2] == '`');
        }
    }
}

/// `t_labels` is one line of 10 characters, with the leading characters shown.
pub proof fn lemma_t_labels()
    ensures
        t_labels().len() == 10,
        single_line(t_labels()),
        t_labels()[0] == '#',
        t_labels()[1] == '#',
        t_labels()[2] == '#',
        t_labels()[3] == ' ',
{
    let t = t_labels();
    assert forall|i: int| 0 <= i < 10 implies t[i] != '\n' && t[i] != '\r' by {
        if i == 0 {
            assert(t[0] == '#');
        } else if i == 1 {
            assert(t[1] == '#');
        } else if i == 2 {
            assert(t[2] == '#');
        } else if i == 3 {
            assert(t[3] == ' ');
        } else if i == 4 {
            assert(t[4] == 'L');
        } else if i == 5 {
            assert(t[5] == 'a');
        } else if i == 6 {
            assert(t[6] == 'b');
        } else if i == 7 {
            assert(t[7] == 'e');
        } else if i == 8 {
            assert(t[8] == 'l');
        } else if i == 9 {
            assert(t[9] == 's');
        }
    }
}

/// `t_label_head` is one line of 15 characters, with the leading characters shown.
pub proof fn lemma_t_label_head()
    ensures
        t_label_head().len() == 15,
        single_line(t_label_head()),
        t_label_head()[0] == '|',
        t_label_head()[1] == ' ',
        t_label_head()[2] == 'K',
        t_label_head()[3] == 'e',
{
    let t = t_label_head();
    assert forall|i: int| 0 <= i < 15 implies t[i] != '\n' && t[i] != '\r' by {
        if i == 0 {
            assert(t[0] == '|');
        } else if i == 1 {
            assert(t[1] == ' ');
        } else if i == 2 {
            assert(t[2] == 'K');
        } else if i == 3 {
            assert(t[3] == 'e');
        } else if i == 4 {
            assert(t[4] == 'y');
        } else if i == 5 {
            assert(t[5] == ' ');
        } else if i == 6 {
            assert(t[6] == '|');
        } else if i == 7 {
            assert(t[7] == ' ');
        } else if i == 8 {
            assert(t[8] == 'V');
        } else if i == 9 {
            assert(t[9] == 'a');
        } else if i == 10 {
            assert(t[10] == 'l');
        } else if i == 11 {
            assert(t[11] == 'u');
        } else if i == 12 {
            assert(t[12] == 'e');
        } else if i == 13 {
            assert(t[13] == ' ');
        } else if i == 14 {
            assert(t[14] == '|');
        }
    }
}

/// `t_label_sep` is one line of 15 characters, with the leading characters shown.
pub proof fn lemma_t_label_sep()
    ensures
        t_label_sep().len() == 15,
        single_line(t_label_sep()),
        t_label_sep()[0] == '|',
        t_label_sep()[1] == '-',
        t_label_sep()[2] == '-',
        t_label_sep()[3] == '-',
{
    let t = t_label_sep();
    assert forall|i: int| 0 <= i < 15 implies t[i] != '\n' && t[i] != '\r' by {
        if i == 0 {
            assert(t[0] == '|');
        } else if i == 1 {
            assert(t[1] == '-');
        } else if i == 2 {
            assert(t[2] == '-');
        } else if i == 3 {
            assert(t[3] == '-');
        } else if i == 4 {
            assert(t[4] == '-');
        } else if i == 5 {
            assert(t[5] == '-');
        } else if i == 6 {
            assert(t[6] == '|');
        } else if i == 7 {
            assert(t[7] == '-');
        } else if i == 8 {
            assert(t[8] == '-');
        } else if i == 9 {
            assert(t[9] == '-');
        } else if i == 10 {
            assert(t[10] == '-');
        } else if i == 11 {
            assert(t[11] == '-');
        } else if i == 12 {
            assert(t[12] == '-');
        } else if i == 13 {
            assert(t[13] == '-');
        } else if i == 14 {
            assert(t[14] == '|');
        }
    }
}

/// `t_label_a` is one line of 3 characters, with the leading characters shown.
pub proof fn lemma_t_label_a()
    ensures
        t_label_a().len() == 3,
        single_line(t_label_a()),
        t_label_a()[0] == '|',
        t_label_a()[1] == ' ',
        t_label_a()[2] == '`',
{
    let t = t_label_a();
    assert forall|i: int| 0 <= i < 3 implies t[i] != '\n' && t[i] != '\r' by {
        if i == 0 {
            assert(t[0] == '|');
        } else if i == 1 {
            assert(t[1] == ' ');
        } else if i == 2 {
            assert(t[2] == '`');
        }
    }
}

/// `t_label_b` is one line of 5 characters, with the leading characters shown.
pub proof fn lemma_t_label_b()
    ensures
        t_label_b().len() == 5,
        single_line(t_label_b()),
        t_label_b()[0] == '`',
        t_label_b()[1] == ' ',
        t_label_b()[2] == '|',
        t_label_b()[3] == ' ',
{
    let t = t_label_b();
    assert forall|i: int| 0 <= i < 5 implies t[i] != '\n' && t[i] != '\r' by {
        if i == 0 {
            assert(t[0] == '`');
        } else if i == 1 {
            assert(t[1] == ' ');
        } else if i == 2 {
            assert(t[2] == '|');
        } else if i == 3 {
            assert(t[3] == ' ');
        } else if i == 4 {
            assert(t[4] == '`');
        }
    }
}

/// `t_label_c` is one line of 3 characters, with the leading characters shown.
pub proof fn lemma_t_label_c()
    ensures
        t_label_c().len() == 3,
        single_line(t_label_c()),
        t_label_c()[0] == '`',
        t_label_c()[1] == ' ',
        t_label_c()[2] == '|',
{
    let t = t_label_c();
    assert forall|i: int| 0 <= i < 3 implies t[i] != '\n' && t[i] != '\r' by {
        if i == 0 {
            assert(t[0] == '`');
        } else if i == 1 {
            assert(t[1] == ' ');
        } else if i == 2 {
            assert(t[2] == '|');
        }
    }
}

/// `t_layers` is one line of 16 characters, with the leading characters shown.
pub proof fn lemma_t_layers()
    ensures
        t_layers().len() == 16,
        single_line(t_layers()),
        t_layers()[0] == '#',
        t_layers()[1] == '#',
        t_layers()[2] == ' ',
        t_layers()[3] == 'L',
{
    let t = t_layers();
    assert forall|i: int| 0 <= i < 16 implies t[i] != '\n' && t[i] != '\r' by {
        if i == 0 {
            assert(t[0] == '#');
        } else if i == 1 {
            assert(t[1] == '#');
        } else if i == 2 {
            assert(t[2] == ' ');
        } else if i == 3 {
            assert(t[3] == 'L');
        } else if i == 4 {
            assert(t[4] == 'a');
        } else if i == 5 {
            assert(t[5] == 'y');
        } else if i == 6 {
            assert(t[6] == 'e');
        } else if i == 7 {
            assert(t[7] == 'r');
        } else if i == 8 {
            assert(t[8] == ' ');
        } else if i == 9 {
            assert(t[9] == 'H');
        } else if i == 10 {
            assert(t[10] == 'i');
        } else if i == 11 {
            assert(t[11] == 's');
        } else if i == 12 {
            assert(t[12] == 't');
        } else if i == 13 {
            assert(t[13] == 'o');
        } else if i == 14 {
            assert(t[14] == 'r');
        } else if i == 15 {
            assert(t[15] == 'y');
        }
    }
}

/// `t_table_head` is one line of 48 characters, with the leading characters shown.
pub proof fn lemma_t_table_head()
    ensures
        t_table_head().len() == 48,
        single_line(t_table_head()),
        t_table_head()[0] == '|',
        t_table_head()[1] == ' ',
        t_table_head()[2] == 'C',
        t_table_head()[3] == 'r',
{
    let t = t_table_head();
    assert forall|i: int| 0 <= i < 48 implies t[i] != '\n' && t[i] != '\r' by {
        if i == 0 {
            assert(t[0] == '|');
        } else if i == 1 {
            assert(t[1] == ' ');
        } else if i == 2 {
            assert(t[2] == 'C');
        } else if i == 3 {
            assert(t[3] == 'r');
        } else if i == 4 {
            assert(t[4] == 'e');
        } else if i == 5 {
            assert(t[5] == 'a');
        } else if i == 6 {
            assert(t[6] == 't');
        } else if i == 7 {
            assert(t[7] == 'e');
        } else if i == 8 {
            assert(t[8] == 'd');
        } else if i == 9 {
            assert(t[9] == ' ');
        } else if i == 10 {
            assert(t[10] == '|');
        } else if i == 11 {
            assert(t[11] == ' ');
        } else if i == 12 {
            assert(t[12] == 'C');
        } else if i == 13 {
            assert(t[13] == 'o');
        } else if i == 14 {
            assert(t[14] == 'm');
        } else if i == 15 {
            assert(t[15] == 'm');
        } else if i == 16 {
            assert(t[16] == 'a');
        } else if i == 17 {
            assert(t[17] == 'n');
        } else if i == 18 {
            assert(t[18] == 'd');
        } else if i == 19 {
            assert(t[19] == ' ');
        } else if i == 20 {
            assert(t[20] == '|');
        } else if i == 21 {
            assert(t[21] == ' ');
        } else if i == 22 {
            assert(t[22] == 'C');
        } else if i == 23 {
            assert(t[23] == 'o');
        } else if i == 24 {
            assert(t[24] == 'm');
        } else if i == 25 {
            assert(t[25] == 'm');
        } else if i == 26 {
            assert(t[26] == 'e');
        } else if i == 27 {
            assert(t[27] == 'n');
        } else if i == 28 {
            assert(t[28] == 't');
        } else if i == 29 {
            assert(t[29] == ' ');
        } else if i == 30 {
            assert(t[30] == '|');
        } else if i == 31 {
            assert(t[31] == ' ');
        } else if i == 32 {
            assert(t[32] == 'D');
        } else if i == 33 {
            assert(t[33] == 'i');
        } else if i == 34 {
            assert(t[34] == 'g');
        } else if i == 35 {
            assert(t[35] == 'e');
        } else if i == 36 {
            assert(t[36] == 's');
        } else if i == 37 {
            assert(t[37] == 't');
        } else if i == 38 {
            assert(t[38] == ' ');
        } else if i == 39 {
            assert(t[39] == '|');
        } else if i == 40 {
            assert(t[40] == ' ');
        } else if i == 41 {
            assert(t[41] == 'E');
        } else if i == 42 {
            assert(t[42] == 'm');
        } else if i == 43 {
            assert(t[43] == 'p');
        } else if i == 44 {
            assert(t[44] == 't');
        } else if i == 45 {
            assert(t[45] == 'y');
        } else if i == 46 {
            assert(t[46] == ' ');
        } else if i == 47 {
            assert(t[47] == '|');
        }
    }
}

/// `t_table_sep` is one line of 48 characters, with the leading characters shown.
pub proof fn lemma_t_table_sep()
    ensures
        t_table_sep().len() == 48,
        single_line(t_table_sep()),
        t_table_sep()[0] == '|',
        t_table_sep()[1] == '-',
        t_table_sep()[2] == '-',
        t_table_sep()[3] == '-',
{
    let t = t_table_sep();
    assert forall|i: int| 0 <= i < 48 implies t[i] != '\n' && t[i] != '\r' by {
        if i == 0 {
            assert(t[0] == '|');
        } else if i == 1 {
            assert(t[1] == '-');
        } else if i == 2 {
            assert(t[2] == '-');
        } else if i == 3 {
            assert(t[3] == '-');
        } else if i == 4 {
            assert(t[4] == '-');
        } else if i == 5 {
            assert(t[5] == '-');
        } else if i == 6 {
            assert(t[6] == '-');
        } else if i == 7 {
            assert(t[7] == '-');
        } else if i == 8 {
            assert(t[8] == '-');
        } else if i == 9 {
            assert(t[9] == '-');
        } else if i == 10 {
            assert(t[10] == '|');
        } else if i == 11 {
            assert(t[11] == '-');
        } else if i == 12 {
            assert(t[12] == '-');
        } else if i == 13 {
            assert(t[13] == '-');
        } else if i == 14 {
            assert(t[14] == '-');
        } else if i == 15 {
            assert(t[15] == '-');
        } else if i == 16 {
            assert(t[16] == '-');
        } else if i == 17 {
            assert(t[17] == '-');
        } else if i == 18 {
            assert(t[18] == '-');
        } else if i == 19 {
            assert(t[19] == '-');
        } else if i == 20 {
            assert(t[20] == '|');
        } else if i == 21 {
            assert(t[21] == '-');
        } else if i == 22 {
            assert(t[22] == '-');
        } else if i == 23 {
            assert(t[23] == '-');
        } else if i == 24 {
            assert(t[24] == '-');
        } else if i == 25 {
            assert(t[25] == '-');
        } else if i == 26 {
            assert(t[26] == '-');
        } else if i == 27 {
            assert(t[27] == '-');
        } else if i == 28 {
            assert(t[28] == '-');
        } else if i == 29 {
            assert(t[29] == '-');
        } else if i == 30 {
            assert(t[30] == '|');
        } else if i == 31 {
            assert(t[31] == '-');
        } else if i == 32 {
            assert(t[32] == '-');
        } else if i == 33 {
            assert(t[33] == '-');
        } else if i == 34 {
            assert(t[34] == '-');
        } else if i == 35 {
            assert(t[35] == '-');
        } else if i == 36 {
            assert(t[36] == '-');
        } else if i == 37 {
            assert(t[37] == '-');
        } else if i == 38 {
            assert(t[38] == '-');
        } else if i == 39 {
            assert(t[39] == '|');
        } else if i == 40 {
            assert(t[40] == '-');
        } else if i == 41 {
            assert(t[41] == '-');
        } else if i == 42 {
            assert(t[42] == '-');
        } else if i == 43 {
            assert(t[43] == '-');
        } else if i == 44 {
            assert(t[44] == '-');
        } else if i == 45 {
            assert(t[45] == '-');
        } else if i == 46 {
            assert(t[46] == '-');
        } else if i == 47 {
            assert(t[47] == '|');
        }
    }
}

/// `t_key_row` is one line of 7 characters, with the leading characters shown.
pub proof fn lemma_t_key_row()
    ensures
        t_key_row().len() == 7,
        single_line(t_key_row()),
        t_key_row()[0] == '|',
        t_key_row()[1] == ' ',
        t_key_row()[2] == 'K',
        t_key_row()[3] == 'e',
{
    let t = t_key_row();
    assert forall|i: int| 0 <= i < 7 implies t[i] != '\n' && t[i] != '\r' by {
        if i == 0 {
            assert(t[0] == '|');
        } else if i == 1 {
            assert(t[1] == ' ');
        } else if i == 2 {
            assert(t[2] == 'K');
        } else if i == 3 {
            assert(t[3] == 'e');
        } else if i == 4 {
            assert(t[4] == 'y');
        } else if i == 5 {
            assert(t[5] == ' ');
        } else if i == 6 {
            assert(t[6] == '|');
        }
    }
}

/// `t_root` is one line of 1 characters, with the leading characters shown.
pub proof fn lemma_t_root()
    ensures
        t_root().len() == 1,
        single_line(t_root()),
        t_root()[0] == '/',
{
    let t = t_root();
    assert forall|i: int| 0 <= i < 1 implies t[i] != '\n' && t[i] != '\r' by {
        if i == 0 {
            assert(t[0] == '/');
        }
    }
}

} // verus!
