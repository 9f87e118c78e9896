//! The footer under every report: data source, API address, the list of modifiers and
//! the project line.
use vstd::prelude::*;
use crate::text::{push_str, no_escape, lemma_no_escape_concat};

verus! {

/// `n` spaces.
pub open spec fn spaces(n: int) -> Seq<char> {
    Seq::new(n as nat, |i: int| ' ')
}

/// The footer text. `source` names the data source, `api_label` introduces `api_url`,
/// `mods` heads the modifier list (whose continuation lines are indented past it) and
/// `github` the project line; without `mono` the footer is dimmed.
pub open spec fn footer_text(
    source: Seq<char>,
    api_label: Seq<char>,
    api_url: Seq<char>,
    mods: Seq<char>,
    github: Seq<char>,
    version: Seq<char>,
    mono: bool,
) -> Seq<char> {
    let dim = if mono { Seq::empty() } else { "\x1b[90m"@ };
    let reset = if mono { Seq::empty() } else { "\x1b[0m"@ };
    let indent = spaces(mods.len() + 1int);
    "\n"@ + dim + source + "\n"@ + api_label + " "@ + api_url + "\n"@ + "\n"@ + mods
        + " --i-drone-you  --delorean  --units  --lang\n"@ + indent
        + "--i-am-blue  --color-me  --classic-colors  --rainforest  --i-cant-afford-cga\n"@ + indent
        + "--no-eyecandy  --high-charts  --no-charts  --no-table  --tabular-bells\n"@ + "\n"@ + github
        + "  v"@ + version + "\n"@ + reset
}

fn push_spaces(out: &mut Vec<char>, n: usize)
    ensures
        final(out)@ == old(out)@ + spaces(n as int),
{
    let mut i: usize = 0;
    while i < n
        invariant
            i <= n,
            out@ == old(out)@ + spaces(i as int),
        decreases n - i,
    {
        out.push(' ');
        i = i + 1;
        assert(out@ =~= old(out)@ + spaces(i as int));
    }
}

/// Writes the footer into `out`.
pub fn write_footer(
    out: &mut Vec<char>,
    source: &str,
    api_label: &str,
    api_url: &str,
    mods: &str,
    github: &str,
    version: &str,
    mono: bool,
)
    ensures
        final(out)@ == old(out)@ + footer_text(source@, api_label@, api_url@, mods@, github@, version@, mono),
{
    let ghost start = out@;
    let width = mods.unicode_len();
    push_str(out, "\n");
    if !mono {
        push_str(out, "\x1b[90m");
    }
    push_str(out, source);
    push_str(out, "\n");
    push_str(out, api_label);
    push_str(out, " ");
    push_str(out, api_url);
    push_str(out, "\n");
    push_str(out, "\n");
    push_str(out, mods);
    push_str(out, " --i-drone-you  --delorean  --units  --lang\n");
    let ghost part1 = out@;
    push_indent(out, width);
    push_str(out, "--i-am-blue  --color-me  --classic-colors  --rainforest  --i-cant-afford-cga\n");
    push_indent(out, width);
    push_str(out, "--no-eyecandy  --high-charts  --no-charts  --no-table  --tabular-bells\n");
    let ghost part2 = out@;
    push_str(out, "\n");
    push_str(out, github);
    push_str(out, "  v");
    push_str(out, version);
    push_str(out, "\n");
    if !mono {
        push_str(out, "\x1b[0m");
    }
    let ghost dim: Seq<char> = if mono { Seq::empty() } else { "\x1b[90m"@ };
    let ghost reset: Seq<char> = if mono { Seq::empty() } else { "\x1b[0m"@ };
    let ghost indent = spaces(mods@.len() + 1int);
    assert(part1 =~= start + "\n"@ + dim + source@ + "\n"@ + api_label@ + " "@ + api_url@ + "\n"@ + "\n"@ + mods@
        + " --i-drone-you  --delorean  --units  --lang\n"@);
    assert(part2 =~= part1 + indent
        + "--i-am-blue  --color-me  --classic-colors  --rainforest  --i-cant-afford-cga\n"@ + indent
        + "--no-eyecandy  --high-charts  --no-charts  --no-table  --tabular-bells\n"@);
    assert(out@ =~= part2 + "\n"@ + github@ + "  v"@ + version@ + "\n"@ + reset);
    assert(out@ =~= start + footer_text(source@, api_label@, api_url@, mods@, github@, version@, mono));
}

fn push_indent(out: &mut Vec<char>, width: usize)
    ensures
        final(out)@ == old(out)@ + spaces(width + 1int),
{
    push_spaces(out, width);
    out.push(' ');
    assert(out@ =~= old(out)@ + spaces(width + 1int));
}

/// In monochrome mode the footer adds no escape character to the texts it is given.
pub proof fn law_mono_footer_has_no_escape(
    source: Seq<char>,
    api_label: Seq<char>,
    api_url: Seq<char>,
    mods: Seq<char>,
    github: Seq<char>,
    version: Seq<char>,
)
    requires
        no_escape(source),
        no_escape(api_label),
        no_escape(api_url),
        no_escape(mods),
        no_escape(github),
        no_escape(version),
    ensures
        no_escape(footer_text(source, api_label, api_url, mods, github, version, true)),
{
    let nl = "\n"@;
    let sp = " "@;
    let l1 = " --i-drone-you  --delorean  --units  --lang\n"@;
    let l2 = "--i-am-blue  --color-me  --classic-colors  --rainforest  --i-cant-afford-cga\n"@;
    let l3 = "--no-eyecandy  --high-charts  --no-charts  --no-table  --tabular-bells\n"@;
    let v = "  v"@;
    reveal_strlit("\n");
    reveal_strlit(" ");
    reveal_strlit(" --i-drone-you  --delorean  --units  --lang\n");
    reveal_strlit("--i-am-blue  --color-me  --classic-colors  --rainforest  --i-cant-afford-cga\n");
    reveal_strlit("--no-eyecandy  --high-charts  --no-charts  --no-table  --tabular-bells\n");
    reveal_strlit("  v");
    let indent = spaces(mods.len() + 1int);
    let a0 = nl;
    let a1 = a0 + source;
    lemma_no_escape_concat(a0, source);
    let a2 = a1 + nl;
    lemma_no_escape_concat(a1, nl);
    let a3 = a2 + api_label;
    lemma_no_escape_concat(a2, api_label);
    let a4 = a3 + sp;
    lemma_no_escape_concat(a3, sp);
    let a5 = a4 + api_url;
    lemma_no_escape_concat(a4, api_url);
    let a6 = a5 + nl;
    lemma_no_escape_concat(a5, nl);
    let a7 = a6 + nl;
    lemma_no_escape_concat(a6, nl);
    let a8 = a7 + mods;
    lemma_no_escape_concat(a7, mods);
    let a9 = a8 + l1;
    lemma_no_escape_concat(a8, l1);
    let a10 = a9 + indent;
    lemma_no_escape_concat(a9, indent);
    let a11 = a10 + l2;
    lemma_no_escape_concat(a10, l2);
    let a12 = a11 + indent;
    lemma_no_escape_concat(a11, indent);
    let a13 = a12 + l3;
    lemma_no_escape_concat(a12, l3);
    let a14 = a13 + nl;
    lemma_no_escape_concat(a13, nl);
    let a15 = a14 + github;
    lemma_no_escape_concat(a14, github);
    let a16 = a15 + v;
    lemma_no_escape_concat(a15, v);
    let a17 = a16 + version;
    lemma_no_escape_concat(a16, version);
    let a18 = a17 + nl;
    lemma_no_escape_concat(a17, nl);
    assert(footer_text(source, api_label, api_url, mods, github, version, true) =~= a18);
}

} // verus!
