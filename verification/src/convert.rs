//! The markup-to-HTML conversion core.
//!
//! One document flows through five passes: line segmentation (a line break
//! inside an open `{...}` statement does not end the line), block-level
//! markup, inline statement directives, a table sub-formatter, and a final
//! pass toggling the four paired inline styles.
//!
//! Escape rule, used by the statement pass and the primitive pass alike: a
//! backslash escapes exactly the next character, which is emitted to the
//! output verbatim; the backslash itself is not kept.

use vstd::prelude::*;
use vstd::string::StrSliceExecFns;
use vstd::string::StringExecFns;
use crate::case::{kebab_chars, kebab_map};
use crate::escape::{escape_chars, escape_seq};
use crate::text::{
    chars_eq, chars_of, copy_range, dec_chars, dec_rep, join_with, lemma_join_push, lower_of,
    push_all, string_from_chars, trim_chars, trim_spec, views_of,
};
use crate::utils::{ext_part, name_part, separate_filename_ext};

verus! {

// ---------------------------------------------------------------------
// Directives
// ---------------------------------------------------------------------
/// The typed meaning of a `{...}` statement, fixed by the first character
/// inside the braces.  `Text` and `Link` additionally carry a tag read up
/// to the first space.
pub enum Format {
    Text(String),
    Link(String),
    BroadIPA,
    NarrowIPA,
    Phoner,
    Table,
    Replace,
    Comment,
    Unknown,
}

/// The mathematical model of a directive: the same variants over character
/// sequences.
pub enum FormatModel {
    Text(Seq<char>),
    Link(Seq<char>),
    BroadIPA,
    NarrowIPA,
    Phoner,
    Table,
    Replace,
    Comment,
    Unknown,
}

impl View for Format {
    type V = FormatModel;

    open spec fn view(&self) -> FormatModel {
        match self {
            Format::Text(s) => FormatModel::Text(s@),
            Format::Link(s) => FormatModel::Link(s@),
            Format::BroadIPA => FormatModel::BroadIPA,
            Format::NarrowIPA => FormatModel::NarrowIPA,
            Format::Phoner => FormatModel::Phoner,
            Format::Table => FormatModel::Table,
            Format::Replace => FormatModel::Replace,
            Format::Comment => FormatModel::Comment,
            Format::Unknown => FormatModel::Unknown,
        }
    }
}

/// The directive a trigger character selects.
pub open spec fn format_of_char(c: char) -> FormatModel {
    if c == '\'' {
        FormatModel::Text(Seq::empty())
    } else if c == '@' {
        FormatModel::Link(Seq::empty())
    } else if c == '/' {
        FormatModel::BroadIPA
    } else if c == '[' {
        FormatModel::NarrowIPA
    } else if c == '*' {
        FormatModel::Phoner
    } else if c == '|' {
        FormatModel::Table
    } else if c == '$' {
        FormatModel::Replace
    } else if c == '#' {
        FormatModel::Comment
    } else {
        FormatModel::Unknown
    }
}

impl Format {
    /// The directive selected by a trigger character.
    pub fn from(ch: char) -> (r: Format)
        ensures
            r@ == format_of_char(ch),
    {
        match ch {
            '\'' => Format::Text(String::new()),
            '@' => Format::Link(String::new()),
            '/' => Format::BroadIPA,
            '[' => Format::NarrowIPA,
            '*' => Format::Phoner,
            '|' => Format::Table,
            '$' => Format::Replace,
            '#' => Format::Comment,
            _ => Format::Unknown,
        }
    }
}

/// A link target with a `ling` extension is mapped to the `html` build
/// extension; a target without an extension is kept as its name alone.
pub open spec fn link_target(l: Seq<char>) -> Seq<char> {
    if ext_part(l).len() == 0 {
        name_part(l)
    } else if ext_part(l) == "ling"@ {
        name_part(l) + "."@ + "html"@
    } else {
        name_part(l) + "."@ + ext_part(l)
    }
}

/// Replaces a `ling` file extension in a link target with `html`; a target
/// without an extension loses nothing but a trailing dot.
fn format_link(link: &str) -> (r: String)
    ensures
        r@ == link_target(link@),
{
    let (name, ext) = separate_filename_ext(link);
    if ext.unicode_len() == 0 {
        name
    } else {
        let ext_cs = chars_of(ext);
        let ling = chars_of("ling");
        if chars_eq(&ext_cs, &ling) {
            name.concat(".").concat("html")
        } else {
            name.concat(".").concat(ext)
        }
    }
}

/// The rendering of every directive except `Table` (which renders through
/// the table formatter instead; its arm here is unused).
pub open spec fn simple_render(d: FormatModel, s: Seq<char>) -> Seq<char> {
    match d {
        FormatModel::Text(lang) => if lang.len() == 0 {
            "<span class=\"language no-name\"><span class=\"text\"> "@ + s + " </span></span>"@
        } else {
            "<span class=\"language with-name\"><span class=\"name\"> "@ + trim_spec(lang)
                + " </span><span class=\"text\"> "@ + s + " </span></span>"@
        },
        FormatModel::Link(l) => "<a class=\"link\" href=\""@ + link_target(l) + "\"> "@ + s
            + " </a>"@,
        FormatModel::BroadIPA => "<span class=\"ipa broad\"><span class=\"delim before\"> / </span><span class=\"text\"> "@
            + s + " </span><span class=\"delim after\"> / </span></span>"@,
        FormatModel::NarrowIPA => "<span class=\"ipa narrow\"><span class=\"delim before\"> [ </span><span class=\"text\"> "@
            + s + " </span><span class=\"delim after\"> ] </span></span>"@,
        FormatModel::Phoner => {
            let t = trim_spec(s);
            "<code class=\"phoner\"> "@ + (if t.len() > 0 && t.last() == ';' {
                trim_spec(t.drop_last())
            } else {
                t
            }) + " </code>"@
        },
        FormatModel::Table => Seq::empty(),
        FormatModel::Replace => "{$$"@ + s + "}"@,
        FormatModel::Comment => Seq::empty(),
        FormatModel::Unknown => s,
    }
}

/// Renders one non-table directive over character vectors.
fn format_plain(f: &Format, s: &Vec<char>) -> (r: Vec<char>)
    ensures
        r@ == simple_render(f@, s@),
{
    match f {
        Format::Text(lang) => {
            if lang.as_str().unicode_len() == 0 {
                let mut out = chars_of("<span class=\"language no-name\"><span class=\"text\"> ");
                push_all(&mut out, s);
                push_all(&mut out, &chars_of(" </span></span>"));
                out
            } else {
                let mut out = chars_of(
                    "<span class=\"language with-name\"><span class=\"name\"> ",
                );
                let lang_cs = chars_of(lang.as_str());
                push_all(&mut out, &trim_chars(&lang_cs));
                push_all(&mut out, &chars_of(" </span><span class=\"text\"> "));
                push_all(&mut out, s);
                push_all(&mut out, &chars_of(" </span></span>"));
                out
            }
        },
        Format::Link(l) => {
            let mut out = chars_of("<a class=\"link\" href=\"");
            let target = format_link(l.as_str());
            push_all(&mut out, &chars_of(target.as_str()));
            push_all(&mut out, &chars_of("\"> "));
            push_all(&mut out, s);
            push_all(&mut out, &chars_of(" </a>"));
            out
        },
        Format::BroadIPA => {
            let mut out = chars_of(
                "<span class=\"ipa broad\"><span class=\"delim before\"> / </span><span class=\"text\"> ",
            );
            push_all(&mut out, s);
            push_all(&mut out, &chars_of(" </span><span class=\"delim after\"> / </span></span>"));
            out
        },
        Format::NarrowIPA => {
            let mut out = chars_of(
                "<span class=\"ipa narrow\"><span class=\"delim before\"> [ </span><span class=\"text\"> ",
            );
            push_all(&mut out, s);
            push_all(&mut out, &chars_of(" </span><span class=\"delim after\"> ] </span></span>"));
            out
        },
        Format::Phoner => {
            let t = trim_chars(s);
            let inner = if t.len() > 0 && t[t.len() - 1] == ';' {
                let shorter = copy_range(&t, 0, t.len() - 1);
                proof {
                    assert(shorter@ =~= trim_spec(s@).drop_last());
                }
                trim_chars(&shorter)
            } else {
                t
            };
            let mut out = chars_of("<code class=\"phoner\"> ");
            push_all(&mut out, &inner);
            push_all(&mut out, &chars_of(" </code>"));
            out
        },
        Format::Table => Vec::new(),
        Format::Replace => {
            let mut out = chars_of("{$$");
            push_all(&mut out, s);
            push_all(&mut out, &chars_of("}"));
            out
        },
        Format::Comment => Vec::new(),
        Format::Unknown => copy_range(s, 0, s.len()),
    }
}

// ---------------------------------------------------------------------
// Splitting helpers shared by the table formatter and the segmenter
// ---------------------------------------------------------------------
/// Accumulator for splitting a sequence at a separator, keeping empty
/// pieces.
pub struct SplitState {
    pub cur: Seq<char>,
    pub pieces: Seq<Seq<char>>,
}

pub open spec fn split_step(sep: char, st: SplitState, c: char) -> SplitState {
    if c == sep {
        SplitState { cur: Seq::empty(), pieces: st.pieces.push(st.cur) }
    } else {
        SplitState { cur: st.cur.push(c), pieces: st.pieces }
    }
}

pub open spec fn split_run(s: Seq<char>, sep: char) -> SplitState {
    s.fold_left(
        SplitState { cur: Seq::empty(), pieces: Seq::empty() },
        |st: SplitState, c: char| split_step(sep, st, c),
    )
}

/// The pieces of `s` between occurrences of `sep`; empty pieces are kept,
/// and there is always at least one piece.
pub open spec fn split_on(s: Seq<char>, sep: char) -> Seq<Seq<char>> {
    split_run(s, sep).pieces.push(split_run(s, sep).cur)
}

fn split_chars(v: &Vec<char>, sep: char) -> (r: Vec<Vec<char>>)
    ensures
        views_of(r@) == split_on(v@, sep),
        r@.len() >= 1,
{
    let mut pieces: Vec<Vec<char>> = Vec::new();
    let mut cur: Vec<char> = Vec::new();
    let mut i: usize = 0;
    while i < v.len()
        invariant
            i <= v@.len(),
            cur@ == split_run(v@.take(i as int), sep).cur,
            views_of(pieces@) == split_run(v@.take(i as int), sep).pieces,
        decreases v@.len() - i,
    {
        let c = v[i];
        proof {
            assert(v@.take(i + 1 as int).drop_last() =~= v@.take(i as int));
            assert(v@.take(i + 1 as int).last() == v@[i as int]);
        }
        let ghost prev = split_run(v@.take(i as int), sep);
        if c == sep {
            let ghost old_ps = views_of(pieces@);
            pieces.push(cur);
            proof {
                assert(views_of(pieces@) =~= old_ps.push(prev.cur));
            }
            cur = Vec::new();
        } else {
            cur.push(c);
        }
        i = i + 1;
    }
    proof {
        assert(v@.take(v@.len() as int) =~= v@);
    }
    let ghost old_ps = views_of(pieces@);
    let ghost last = cur@;
    pieces.push(cur);
    proof {
        assert(views_of(pieces@) =~= old_ps.push(last));
    }
    pieces
}

/// A piece that ended at a line feed loses one trailing carriage return.
pub open spec fn strip_cr(x: Seq<char>) -> Seq<char> {
    if x.len() > 0 && x.last() == '\r' {
        x.drop_last()
    } else {
        x
    }
}

/// The lines of `s` as `str::lines` yields them: split at line feeds, a
/// carriage return before a line feed is dropped, and a final empty piece
/// after a trailing line feed is not a line.
pub open spec fn lines_of(s: Seq<char>) -> Seq<Seq<char>> {
    if s.len() == 0 {
        Seq::empty()
    } else {
        let ps = split_on(s, '\n');
        let qs = if ps.last().len() == 0 {
            ps.drop_last()
        } else {
            ps
        };
        Seq::new(qs.len(), |i: int| if i < ps.len() - 1 {
            strip_cr(ps[i])
        } else {
            ps[i]
        })
    }
}

fn strip_cr_chars(p: &Vec<char>) -> (r: Vec<char>)
    ensures
        r@ == strip_cr(p@),
{
    if p.len() > 0 && p[p.len() - 1] == '\r' {
        let r = copy_range(p, 0, p.len() - 1);
        proof {
            assert(r@ =~= p@.drop_last());
        }
        r
    } else {
        copy_range(p, 0, p.len())
    }
}

fn lines_chars(v: &Vec<char>) -> (r: Vec<Vec<char>>)
    ensures
        views_of(r@) == lines_of(v@),
{
    if v.len() == 0 {
        let r: Vec<Vec<char>> = Vec::new();
        proof {
            assert(views_of(r@) =~= lines_of(v@));
        }
        return r;
    }
    let ps = split_chars(v, '\n');
    let full_len: usize = ps.len();
    let keep_len: usize = if ps[ps.len() - 1].len() == 0 {
        ps.len() - 1
    } else {
        ps.len()
    };
    let ghost psv = views_of(ps@);
    let ghost target = lines_of(v@);
    proof {
        assert(psv.last() == ps@[full_len - 1]@);
        assert(target =~= Seq::new(
            keep_len as nat,
            |i: int|
                if i < full_len - 1 {
                    strip_cr(psv[i])
                } else {
                    psv[i]
                },
        ));
    }
    let mut out: Vec<Vec<char>> = Vec::new();
    let mut i: usize = 0;
    while i < keep_len
        invariant
            i <= keep_len <= full_len == ps@.len(),
            psv == views_of(ps@),
            target == Seq::new(
                keep_len as nat,
                |k: int|
                    if k < full_len - 1 {
                        strip_cr(psv[k])
                    } else {
                        psv[k]
                    },
            ),
            views_of(out@) == target.take(i as int),
        decreases keep_len - i,
    {
        let piece: Vec<char> = if i < full_len - 1 {
            strip_cr_chars(&ps[i])
        } else {
            copy_range(&ps[i], 0, ps[i].len())
        };
        let ghost pv = piece@;
        let ghost old_out = views_of(out@);
        proof {
            assert(psv[i as int] == ps@[i as int]@);
            assert(pv == target[i as int]);
            assert(target.take(i + 1 as int) =~= target.take(i as int).push(target[i as int]));
        }
        out.push(piece);
        proof {
            assert(views_of(out@) =~= old_out.push(pv));
        }
        i = i + 1;
    }
    proof {
        assert(target.take(keep_len as int) =~= target);
    }
    out
}

// ---------------------------------------------------------------------
// The table formatter
// ---------------------------------------------------------------------
/// The cells of one table row.
pub open spec fn row_cells(line: Seq<char>) -> Seq<Seq<char>> {
    split_on(line, '|')
}

/// The per-column directives a header row establishes: a header cell not
/// beginning with a space donates its first character as the column's
/// trigger.
pub open spec fn header_formats(cells: Seq<Seq<char>>) -> Seq<Option<FormatModel>> {
    Seq::new(
        cells.len(),
        |i: int|
            if cells[i].len() > 0 && cells[i][0] != ' ' {
                Some(format_of_char(cells[i][0]))
            } else {
                None
            },
    )
}

/// One header cell: its label is the cell minus the donated trigger
/// character (or the whole cell when no trigger was donated), trimmed.
pub open spec fn th_render(cell: Seq<char>) -> Seq<char> {
    "    <th class=\"cell head\"> "@ + trim_spec(
        if cell.len() > 0 && cell[0] != ' ' {
            cell.skip(1)
        } else {
            cell
        },
    ) + " </th>"@
}

/// The header row of a table.
pub open spec fn header_row_render(line: Seq<char>) -> Seq<char> {
    let cs = row_cells(line);
    "  <tr class=\"row\">\n"@ + join_with(
        seq!['\n'],
        Seq::new(cs.len(), |i: int| th_render(cs[i])),
    ) + "\n  </tr>"@
}

/// A table nested inside a body cell: cells cannot contain line breaks, so
/// such a table has at most a header row.
pub open spec fn leaf_table_render(s: Seq<char>) -> Seq<char> {
    "\n<table class=\"table\">\n"@ + (if s.len() == 0 {
        Seq::<char>::empty()
    } else {
        header_row_render(s)
    }) + "\n</table>\n"@
}

/// What a body cell renders to under its column's directive.
pub open spec fn cell_render(d: FormatModel, s: Seq<char>) -> Seq<char> {
    match d {
        FormatModel::Table => leaf_table_render(s),
        _ => simple_render(d, s),
    }
}

/// One body cell, rendered under the column directive and trimmed.
pub open spec fn td_render(f: Option<FormatModel>, cell: Seq<char>) -> Seq<char> {
    "    <td class=\"cell body\"> "@ + trim_spec(
        match f {
            Some(d) => cell_render(d, cell),
            None => cell,
        },
    ) + " </td>"@
}

/// One body row under the header's column directives.
pub open spec fn body_row_render(fmts: Seq<Option<FormatModel>>, line: Seq<char>) -> Seq<char> {
    let cs = row_cells(line);
    "  <tr class=\"row\">\n"@ + join_with(
        seq!['\n'],
        Seq::new(
            cs.len(),
            |i: int|
                td_render(
                    if 0 <= i < fmts.len() {
                        fmts[i]
                    } else {
                        None
                    },
                    cs[i],
                ),
        ),
    ) + "\n  </tr>"@
}

/// A whole table: row 0 is the header and fixes the column directives;
/// later rows are body rows.  Ragged rows are not validated — a short or
/// long row yields fewer or extra cells.
pub open spec fn table_render(s: Seq<char>) -> Seq<char> {
    let ls = lines_of(s);
    let rows = Seq::new(
        ls.len(),
        |i: int|
            if i == 0 {
                header_row_render(ls[0])
            } else {
                body_row_render(header_formats(row_cells(ls[0])), ls[i])
            },
    );
    "\n<table class=\"table\">\n"@ + join_with(seq!['\n'], rows) + "\n</table>\n"@
}

/// The rendering rule of a directive over trimmed statement content.
pub open spec fn directive_render(d: FormatModel, s: Seq<char>) -> Seq<char> {
    match d {
        FormatModel::Table => table_render(s),
        _ => simple_render(d, s),
    }
}

/// The view of an optional directive.
pub open spec fn opt_format_view(o: Option<Format>) -> Option<FormatModel> {
    match o {
        Some(f) => Some(f@),
        None => None,
    }
}

/// The views of a vector of optional directives.
pub open spec fn fmts_view(v: Seq<Option<Format>>) -> Seq<Option<FormatModel>> {
    v.map_values(|o: Option<Format>| opt_format_view(o))
}

fn join_chars(pieces: &Vec<Vec<char>>, sep: char) -> (r: Vec<char>)
    ensures
        r@ == join_with(seq![sep], views_of(pieces@)),
{
    let ghost pv = views_of(pieces@);
    let mut out: Vec<char> = Vec::new();
    let mut j: usize = 0;
    while j < pieces.len()
        invariant
            j <= pieces@.len(),
            pv == views_of(pieces@),
            out@ == join_with(seq![sep], pv.take(j as int)),
        decreases pieces@.len() - j,
    {
        if j > 0 {
            out.push(sep);
        }
        push_all(&mut out, &pieces[j]);
        proof {
            assert(pv.take(j + 1 as int) =~= pv.take(j as int).push(pv[j as int]));
            lemma_join_push(seq![sep], pv.take(j as int), pv[j as int]);
            assert(pv[j as int] == pieces@[j as int]@);
        }
        j = j + 1;
    }
    proof {
        assert(pv.take(pieces@.len() as int) =~= pv);
    }
    out
}

fn header_formats_exec(cells: &Vec<Vec<char>>) -> (r: Vec<Option<Format>>)
    ensures
        fmts_view(r@) == header_formats(views_of(cells@)),
{
    let ghost cs = views_of(cells@);
    let ghost target = header_formats(cs);
    let mut r: Vec<Option<Format>> = Vec::new();
    let mut i: usize = 0;
    while i < cells.len()
        invariant
            i <= cells@.len(),
            cs == views_of(cells@),
            target == header_formats(cs),
            fmts_view(r@) == target.take(i as int),
        decreases cells@.len() - i,
    {
        let cell = &cells[i];
        let item: Option<Format> = if cell.len() > 0 && cell[0] != ' ' {
            Some(Format::from(cell[0]))
        } else {
            None
        };
        let ghost old_fv = fmts_view(r@);
        let ghost iv = opt_format_view(item);
        proof {
            assert(cs[i as int] == cells@[i as int]@);
            assert(iv == target[i as int]);
            assert(target.take(i + 1 as int) =~= target.take(i as int).push(target[i as int]));
        }
        r.push(item);
        proof {
            assert(fmts_view(r@) =~= old_fv.push(iv));
        }
        i = i + 1;
    }
    proof {
        assert(target.take(cells@.len() as int) =~= target);
    }
    r
}

fn header_row_exec(line: &Vec<char>) -> (r: Vec<char>)
    ensures
        r@ == header_row_render(line@),
{
    let cells = split_chars(line, '|');
    let ghost cs = row_cells(line@);
    let ghost ths = Seq::new(cs.len(), |k: int| th_render(cs[k]));
    let mut items: Vec<Vec<char>> = Vec::new();
    let mut i: usize = 0;
    while i < cells.len()
        invariant
            i <= cells@.len(),
            cs == views_of(cells@),
            ths == Seq::new(cs.len(), |k: int| th_render(cs[k])),
            views_of(items@) == ths.take(i as int),
        decreases cells@.len() - i,
    {
        let cell = &cells[i];
        let label_src: Vec<char> = if cell.len() > 0 && cell[0] != ' ' {
            copy_range(cell, 1, cell.len())
        } else {
            copy_range(cell, 0, cell.len())
        };
        let mut th = chars_of("    <th class=\"cell head\"> ");
        push_all(&mut th, &trim_chars(&label_src));
        push_all(&mut th, &chars_of(" </th>"));
        let ghost thv = th@;
        let ghost old_items = views_of(items@);
        proof {
            assert(cs[i as int] == cells@[i as int]@);
            assert(label_src@ =~= if cs[i as int].len() > 0 && cs[i as int][0] != ' ' {
                cs[i as int].skip(1)
            } else {
                cs[i as int]
            });
            assert(thv == ths[i as int]);
            assert(ths.take(i + 1 as int) =~= ths.take(i as int).push(ths[i as int]));
        }
        items.push(th);
        proof {
            assert(views_of(items@) =~= old_items.push(thv));
        }
        i = i + 1;
    }
    proof {
        assert(ths.take(cells@.len() as int) =~= ths);
    }
    let mut r = chars_of("  <tr class=\"row\">\n");
    push_all(&mut r, &join_chars(&items, '\n'));
    push_all(&mut r, &chars_of("\n  </tr>"));
    r
}

fn format_table_leaf(cell: &Vec<char>) -> (r: Vec<char>)
    ensures
        r@ == leaf_table_render(cell@),
{
    let mut out = chars_of("\n<table class=\"table\">\n");
    if cell.len() > 0 {
        push_all(&mut out, &header_row_exec(cell));
    }
    push_all(&mut out, &chars_of("\n</table>\n"));
    proof {
        if cell@.len() == 0 {
            assert("\n<table class=\"table\">\n"@ + Seq::<char>::empty() =~= "\n<table class=\"table\">\n"@);
        }
    }
    out
}

fn format_cell_fmt(f: &Format, cell: &Vec<char>) -> (r: Vec<char>)
    ensures
        r@ == cell_render(f@, cell@),
{
    match f {
        Format::Table => format_table_leaf(cell),
        _ => format_plain(f, cell),
    }
}

fn body_row_exec(fmts: &Vec<Option<Format>>, line: &Vec<char>) -> (r: Vec<char>)
    ensures
        r@ == body_row_render(fmts_view(fmts@), line@),
{
    let cells = split_chars(line, '|');
    let ghost cs = row_cells(line@);
    let ghost fv = fmts_view(fmts@);
    let ghost tds = Seq::new(
        cs.len(),
        |k: int|
            td_render(
                if 0 <= k < fv.len() {
                    fv[k]
                } else {
                    None
                },
                cs[k],
            ),
    );
    let mut items: Vec<Vec<char>> = Vec::new();
    let mut i: usize = 0;
    while i < cells.len()
        invariant
            i <= cells@.len(),
            cs == views_of(cells@),
            fv == fmts_view(fmts@),
            tds == Seq::new(
                cs.len(),
                |k: int|
                    td_render(
                        if 0 <= k < fv.len() {
                            fv[k]
                        } else {
                            None
                        },
                        cs[k],
                    ),
            ),
            views_of(items@) == tds.take(i as int),
        decreases cells@.len() - i,
    {
        let cell = &cells[i];
        let rendered: Vec<char> = if i < fmts.len() {
            match &fmts[i] {
                Some(f) => format_cell_fmt(f, cell),
                None => copy_range(cell, 0, cell.len()),
            }
        } else {
            copy_range(cell, 0, cell.len())
        };
        proof {
            assert(cs[i as int] == cells@[i as int]@);
            assert(cell@.subrange(0, cell@.len() as int) =~= cell@);
            if i < fmts@.len() {
                assert(fv[i as int] == opt_format_view(fmts@[i as int]));
            }
        }
        let mut td = chars_of("    <td class=\"cell body\"> ");
        push_all(&mut td, &trim_chars(&rendered));
        push_all(&mut td, &chars_of(" </td>"));
        let ghost tdv = td@;
        let ghost old_items = views_of(items@);
        proof {
            assert(tdv == tds[i as int]);
            assert(tds.take(i + 1 as int) =~= tds.take(i as int).push(tds[i as int]));
        }
        items.push(td);
        proof {
            assert(views_of(items@) =~= old_items.push(tdv));
        }
        i = i + 1;
    }
    proof {
        assert(tds.take(cells@.len() as int) =~= tds);
    }
    let mut r = chars_of("  <tr class=\"row\">\n");
    push_all(&mut r, &join_chars(&items, '\n'));
    push_all(&mut r, &chars_of("\n  </tr>"));
    r
}

/// Renders the interior of a table statement.
fn format_table(text: &Vec<char>) -> (r: Vec<char>)
    ensures
        r@ == table_render(text@),
{
    let ls = lines_chars(text);
    let ghost lsv = lines_of(text@);
    let ghost rows_spec = Seq::new(
        lsv.len(),
        |i: int|
            if i == 0 {
                header_row_render(lsv[0])
            } else {
                body_row_render(header_formats(row_cells(lsv[0])), lsv[i])
            },
    );
    let mut rows: Vec<Vec<char>> = Vec::new();
    if ls.len() > 0 {
        let cells0 = split_chars(&ls[0], '|');
        let fmts = header_formats_exec(&cells0);
        let hrow = header_row_exec(&ls[0]);
        let ghost hv = hrow@;
        proof {
            assert(lsv[0] == ls@[0]@);
            assert(hv == rows_spec[0]);
        }
        rows.push(hrow);
        proof {
            assert(views_of(rows@) =~= rows_spec.take(1));
        }
        let mut i: usize = 1;
        while i < ls.len()
            invariant
                1 <= i <= ls@.len(),
                lsv == views_of(ls@),
                fmts_view(fmts@) == header_formats(row_cells(lsv[0])),
                rows_spec == Seq::new(
                    lsv.len(),
                    |k: int|
                        if k == 0 {
                            header_row_render(lsv[0])
                        } else {
                            body_row_render(header_formats(row_cells(lsv[0])), lsv[k])
                        },
                ),
                views_of(rows@) == rows_spec.take(i as int),
            decreases ls@.len() - i,
        {
            let brow = body_row_exec(&fmts, &ls[i]);
            let ghost bv = brow@;
            let ghost old_rows = views_of(rows@);
            proof {
                assert(lsv[i as int] == ls@[i as int]@);
                assert(bv == rows_spec[i as int]);
                assert(rows_spec.take(i + 1 as int) =~= rows_spec.take(i as int).push(
                    rows_spec[i as int],
                ));
            }
            rows.push(brow);
            proof {
                assert(views_of(rows@) =~= old_rows.push(bv));
            }
            i = i + 1;
        }
        proof {
            assert(rows_spec.take(ls@.len() as int) =~= rows_spec);
        }
    } else {
        proof {
            assert(views_of(rows@) =~= rows_spec);
        }
    }
    let mut r = chars_of("\n<table class=\"table\">\n");
    push_all(&mut r, &join_chars(&rows, '\n'));
    push_all(&mut r, &chars_of("\n</table>\n"));
    r
}

impl Format {
    /// The rendering rule of this directive applied to statement content.
    pub fn format(&self, string: &str) -> (r: String)
        ensures
            r@ == directive_render(self@, string@),
    {
        let cs = chars_of(string);
        let out = match self {
            Format::Table => format_table(&cs),
            _ => format_plain(self, &cs),
        };
        string_from_chars(&out)
    }
}

// ---------------------------------------------------------------------
// The statement pass
// ---------------------------------------------------------------------
/// State of the statement pass: an escape flag, the content of the open
/// statement (if any), its directive once determined, whether a `Text` or
/// `Link` tag is still being consumed, and the output so far.
pub struct StatementState {
    pub escaped: bool,
    pub stmt: Option<Seq<char>>,
    pub dir: Option<FormatModel>,
    pub tagging: bool,
    pub out: Seq<char>,
}

pub open spec fn statements_init() -> StatementState {
    StatementState { escaped: false, stmt: None, dir: None, tagging: false, out: Seq::empty() }
}

/// Whether a directive consumes a tag prefix.
pub open spec fn is_tag_kind(d: FormatModel) -> bool {
    match d {
        FormatModel::Text(_) => true,
        FormatModel::Link(_) => true,
        _ => false,
    }
}

/// One more character appended to the tag of a `Text` or `Link` directive.
pub open spec fn tag_push(d: FormatModel, c: char) -> FormatModel {
    match d {
        FormatModel::Text(t) => FormatModel::Text(t.push(c)),
        FormatModel::Link(t) => FormatModel::Link(t.push(c)),
        _ => d,
    }
}

/// One character of the statement pass.  An escaped character goes to the
/// output verbatim, bypassing all directive logic; a backslash escapes the
/// next character and is itself dropped; `{` opens a statement when none is
/// open, `}` closes the open one and renders its trimmed content through
/// its directive; the first character inside a statement fixes the
/// directive; `Text` and `Link` then consume a tag up to the first space.
pub open spec fn statements_step(st: StatementState, c: char) -> StatementState {
    if st.escaped {
        StatementState { escaped: false, stmt: st.stmt, dir: st.dir, tagging: st.tagging, out: st.out.push(c) }
    } else if c == '\\' {
        StatementState { escaped: true, stmt: st.stmt, dir: st.dir, tagging: st.tagging, out: st.out }
    } else {
        match st.stmt {
            None => {
                if c == '{' {
                    StatementState { escaped: false, stmt: Some(Seq::empty()), dir: st.dir, tagging: st.tagging, out: st.out }
                } else {
                    StatementState { escaped: false, stmt: None, dir: st.dir, tagging: st.tagging, out: st.out.push(c) }
                }
            },
            Some(buf) => {
                if c == '}' {
                    let content = trim_spec(buf);
                    let rendered = match st.dir {
                        Some(d) => directive_render(d, content),
                        None => content,
                    };
                    StatementState { escaped: false, stmt: None, dir: None, tagging: false, out: st.out + rendered }
                } else {
                    match st.dir {
                        None => {
                            let d = format_of_char(c);
                            StatementState { escaped: false, stmt: Some(buf), dir: Some(d), tagging: is_tag_kind(d), out: st.out }
                        },
                        Some(d) => {
                            if st.tagging && is_tag_kind(d) {
                                if c != ' ' {
                                    StatementState { escaped: false, stmt: Some(buf), dir: Some(tag_push(d, c)), tagging: true, out: st.out }
                                } else {
                                    StatementState { escaped: false, stmt: Some(buf), dir: Some(d), tagging: false, out: st.out }
                                }
                            } else {
                                StatementState { escaped: false, stmt: Some(buf.push(c)), dir: Some(d), tagging: st.tagging, out: st.out }
                            }
                        },
                    }
                }
            },
        }
    }
}

pub open spec fn statements_run(s: Seq<char>) -> StatementState {
    s.fold_left(statements_init(), |st: StatementState, c: char| statements_step(st, c))
}

/// The output of the statement pass; the content of a statement left open
/// at the end of input is dropped.
pub open spec fn statements_spec(s: Seq<char>) -> Seq<char> {
    statements_run(s).out
}

/// The directive currently carried by the executable pass: the tag grows in
/// a separate vector while the `Format` value marks only the kind.
pub open spec fn live_dir(d: Option<Format>, tag: Seq<char>) -> Option<FormatModel> {
    match d {
        None => None,
        Some(Format::Text(_)) => Some(FormatModel::Text(tag)),
        Some(Format::Link(_)) => Some(FormatModel::Link(tag)),
        Some(f) => Some(f@),
    }
}

fn render_directive(f: &Format, content: &Vec<char>) -> (r: Vec<char>)
    ensures
        r@ == directive_render(f@, content@),
{
    match f {
        Format::Table => format_table(content),
        _ => format_plain(f, content),
    }
}

fn run_statements(input: &Vec<char>) -> (r: Vec<char>)
    ensures
        r@ == statements_spec(input@),
{
    let mut out: Vec<char> = Vec::new();
    let mut escaped: bool = false;
    let mut stmt_open: bool = false;
    let mut stmt: Vec<char> = Vec::new();
    let mut dir: Option<Format> = None;
    let mut tag: Vec<char> = Vec::new();
    let mut tagging: bool = false;
    proof {
        assert(input@.take(0) =~= Seq::<char>::empty());
    }
    let mut i: usize = 0;
    while i < input.len()
        invariant
            i <= input@.len(),
            statements_run(input@.take(i as int)).escaped == escaped,
            statements_run(input@.take(i as int)).stmt == (if stmt_open {
                Some(stmt@)
            } else {
                None::<Seq<char>>
            }),
            statements_run(input@.take(i as int)).dir == live_dir(dir, tag@),
            statements_run(input@.take(i as int)).tagging == tagging,
            statements_run(input@.take(i as int)).out == out@,
        decreases input@.len() - i,
    {
        let c = input[i];
        proof {
            assert(input@.take(i + 1 as int).drop_last() =~= input@.take(i as int));
            assert(input@.take(i + 1 as int).last() == input@[i as int]);
        }
        if escaped {
            out.push(c);
            escaped = false;
        } else if c == '\\' {
            escaped = true;
        } else if !stmt_open {
            if c == '{' {
                stmt_open = true;
                stmt = Vec::new();
            } else {
                out.push(c);
            }
        } else {
            if c == '}' {
                let content = trim_chars(&stmt);
                let rendered: Vec<char> = match &dir {
                    None => content,
                    Some(Format::Text(_)) => render_directive(
                        &Format::Text(string_from_chars(&tag)),
                        &content,
                    ),
                    Some(Format::Link(_)) => render_directive(
                        &Format::Link(string_from_chars(&tag)),
                        &content,
                    ),
                    Some(f) => render_directive(f, &content),
                };
                push_all(&mut out, &rendered);
                stmt_open = false;
                stmt = Vec::new();
                dir = None;
                tag = Vec::new();
                tagging = false;
            } else {
                let dir_unset = dir.is_none();
                if dir_unset {
                    let d = Format::from(c);
                    let tagk = match &d {
                        Format::Text(_) => true,
                        Format::Link(_) => true,
                        _ => false,
                    };
                    proof {
                        assert(tagk == is_tag_kind(d@));
                    }
                    dir = Some(d);
                    tag = Vec::new();
                    tagging = tagk;
                } else {
                    let tagk = match &dir {
                        Some(Format::Text(_)) => true,
                        Some(Format::Link(_)) => true,
                        _ => false,
                    };
                    if tagging && tagk {
                        if c != ' ' {
                            tag.push(c);
                        } else {
                            tagging = false;
                        }
                    } else {
                        stmt.push(c);
                    }
                }
            }
        }
        i = i + 1;
    }
    proof {
        assert(input@.take(input@.len() as int) =~= input@);
    }
    out
}

/// The statement pass over a string: expands every `{...}` directive.
pub fn format_statements(body: &str) -> (r: String)
    ensures
        r@ == statements_spec(body@),
{
    let cs = chars_of(body);
    let out = run_statements(&cs);
    string_from_chars(&out)
}

/// The statement pass leaves text without braces and backslashes exactly
/// as it is, so HTML tags already emitted by the core are never altered or
/// re-escaped by it.
pub proof fn lemma_statements_pass_inert(s: Seq<char>)
    requires
        forall|i: int| 0 <= i < s.len() ==> s[i] != '{' && s[i] != '}' && s[i] != '\\',
    ensures
        statements_run(s).escaped == false,
        statements_run(s).stmt is None,
        statements_run(s).dir is None,
        statements_run(s).tagging == false,
        statements_spec(s) == s,
    decreases s.len(),
{
    if s.len() == 0 {
        assert(statements_run(s).out =~= s);
    } else {
        assert(forall|i: int|
            0 <= i < s.drop_last().len() ==> s.drop_last()[i] != '{' && s.drop_last()[i] != '}'
                && s.drop_last()[i] != '\\');
        lemma_statements_pass_inert(s.drop_last());
        assert(s.last() != '{' && s.last() != '}' && s.last() != '\\');
        assert(statements_run(s).out =~= s.drop_last().push(s.last()));
        assert(s.drop_last().push(s.last()) =~= s);
    }
}

// ---------------------------------------------------------------------
// The primitive pass
// ---------------------------------------------------------------------
/// State of the primitive pass: an escape flag, the four independent style
/// toggles and the output so far.
pub struct PrimState {
    pub escaped: bool,
    pub italic: bool,
    pub bold: bool,
    pub underline: bool,
    pub strike: bool,
    pub out: Seq<char>,
}

pub open spec fn prim_init() -> PrimState {
    PrimState {
        escaped: false,
        italic: false,
        bold: false,
        underline: false,
        strike: false,
        out: Seq::empty(),
    }
}

/// One character of the primitive pass: each trigger character emits its
/// tag pair's opener when the toggle is off and its closer when it is on,
/// and flips the toggle; escaping follows the same rule as the statement
/// pass.
pub open spec fn prim_step(st: PrimState, c: char) -> PrimState {
    if st.escaped {
        PrimState {
            escaped: false,
            italic: st.italic,
            bold: st.bold,
            underline: st.underline,
            strike: st.strike,
            out: st.out.push(c),
        }
    } else if c == '\\' {
        PrimState {
            escaped: true,
            italic: st.italic,
            bold: st.bold,
            underline: st.underline,
            strike: st.strike,
            out: st.out,
        }
    } else if c == '*' {
        PrimState {
            escaped: false,
            italic: !st.italic,
            bold: st.bold,
            underline: st.underline,
            strike: st.strike,
            out: st.out + (if st.italic {
                "</i>"@
            } else {
                "<i class=\"italics\">"@
            }),
        }
    } else if c == '^' {
        PrimState {
            escaped: false,
            italic: st.italic,
            bold: !st.bold,
            underline: st.underline,
            strike: st.strike,
            out: st.out + (if st.bold {
                "</b>"@
            } else {
                "<b class=\"bold\">"@
            }),
        }
    } else if c == '_' {
        PrimState {
            escaped: false,
            italic: st.italic,
            bold: st.bold,
            underline: !st.underline,
            strike: st.strike,
            out: st.out + (if st.underline {
                "</u>"@
            } else {
                "<u class=\"underline\">"@
            }),
        }
    } else if c == '~' {
        PrimState {
            escaped: false,
            italic: st.italic,
            bold: st.bold,
            underline: st.underline,
            strike: !st.strike,
            out: st.out + (if st.strike {
                "</strike>"@
            } else {
                "<strike class=\"strike\">"@
            }),
        }
    } else {
        PrimState {
            escaped: false,
            italic: st.italic,
            bold: st.bold,
            underline: st.underline,
            strike: st.strike,
            out: st.out.push(c),
        }
    }
}

pub open spec fn prim_run(s: Seq<char>) -> PrimState {
    s.fold_left(prim_init(), |st: PrimState, c: char| prim_step(st, c))
}

/// The output of the primitive pass.  A toggle left on at the end of input
/// never emits its closing tag.
pub open spec fn primitives_spec(s: Seq<char>) -> Seq<char> {
    prim_run(s).out
}

fn run_primitives(input: &Vec<char>) -> (r: Vec<char>)
    ensures
        r@ == primitives_spec(input@),
{
    let mut out: Vec<char> = Vec::new();
    let mut escaped: bool = false;
    let mut italic: bool = false;
    let mut bold: bool = false;
    let mut underline: bool = false;
    let mut strike: bool = false;
    proof {
        assert(input@.take(0) =~= Seq::<char>::empty());
    }
    let mut i: usize = 0;
    while i < input.len()
        invariant
            i <= input@.len(),
            prim_run(input@.take(i as int)).escaped == escaped,
            prim_run(input@.take(i as int)).italic == italic,
            prim_run(input@.take(i as int)).bold == bold,
            prim_run(input@.take(i as int)).underline == underline,
            prim_run(input@.take(i as int)).strike == strike,
            prim_run(input@.take(i as int)).out == out@,
        decreases input@.len() - i,
    {
        let c = input[i];
        proof {
            assert(input@.take(i + 1 as int).drop_last() =~= input@.take(i as int));
            assert(input@.take(i + 1 as int).last() == input@[i as int]);
        }
        if escaped {
            out.push(c);
            escaped = false;
        } else if c == '\\' {
            escaped = true;
        } else if c == '*' {
            if italic {
                push_all(&mut out, &chars_of("</i>"));
            } else {
                push_all(&mut out, &chars_of("<i class=\"italics\">"));
            }
            italic = !italic;
        } else if c == '^' {
            if bold {
                push_all(&mut out, &chars_of("</b>"));
            } else {
                push_all(&mut out, &chars_of("<b class=\"bold\">"));
            }
            bold = !bold;
        } else if c == '_' {
            if underline {
                push_all(&mut out, &chars_of("</u>"));
            } else {
                push_all(&mut out, &chars_of("<u class=\"underline\">"));
            }
            underline = !underline;
        } else if c == '~' {
            if strike {
                push_all(&mut out, &chars_of("</strike>"));
            } else {
                push_all(&mut out, &chars_of("<strike class=\"strike\">"));
            }
            strike = !strike;
        } else {
            out.push(c);
        }
        i = i + 1;
    }
    proof {
        assert(input@.take(input@.len() as int) =~= input@);
    }
    out
}

/// The primitive pass over a string: toggles the four paired inline
/// styles.
pub fn format_primatives(body: &str) -> (r: String)
    ensures
        r@ == primitives_spec(body@),
{
    let cs = chars_of(body);
    let out = run_primitives(&cs);
    string_from_chars(&out)
}

/// The primitive pass leaves text without its four trigger characters and
/// backslashes exactly as it is, so HTML tags already emitted by the core
/// are never altered by it.
pub proof fn lemma_primitives_pass_inert(s: Seq<char>)
    requires
        forall|i: int|
            0 <= i < s.len() ==> s[i] != '*' && s[i] != '^' && s[i] != '_' && s[i] != '~' && s[i]
                != '\\',
    ensures
        prim_run(s).escaped == false,
        prim_run(s).italic == false,
        prim_run(s).bold == false,
        prim_run(s).underline == false,
        prim_run(s).strike == false,
        primitives_spec(s) == s,
    decreases s.len(),
{
    if s.len() == 0 {
        assert(prim_run(s).out =~= s);
    } else {
        assert(forall|i: int|
            0 <= i < s.drop_last().len() ==> s.drop_last()[i] != '*' && s.drop_last()[i] != '^'
                && s.drop_last()[i] != '_' && s.drop_last()[i] != '~' && s.drop_last()[i] != '\\');
        lemma_primitives_pass_inert(s.drop_last());
        assert(s.last() != '*' && s.last() != '^' && s.last() != '_' && s.last() != '~' && s.last()
            != '\\');
        assert(prim_run(s).out =~= s.drop_last().push(s.last()));
        assert(s.drop_last().push(s.last()) =~= s);
    }
}

/// Text that contains none of the trigger characters of the statement and
/// primitive passes comes out of both passes exactly as it went in.  The
/// tag markup the core emits is inserted after escaping and contains no
/// such characters, so a later pass never corrupts or re-escapes it.
pub proof fn lemma_passes_preserve_markup(s: Seq<char>)
    requires
        forall|i: int|
            0 <= i < s.len() ==> s[i] != '{' && s[i] != '}' && s[i] != '*' && s[i] != '^' && s[i]
                != '_' && s[i] != '~' && s[i] != '\\',
    ensures
        primitives_spec(statements_spec(s)) == s,
{
    lemma_statements_pass_inert(s);
    lemma_primitives_pass_inert(s);
}

// ---------------------------------------------------------------------
// The line segmenter
// ---------------------------------------------------------------------
/// State of the segmenter: whether an outermost statement is open, the
/// line being built, and the completed lines.
pub struct SegState {
    pub in_stmt: bool,
    pub build: Seq<char>,
    pub lines: Seq<Seq<char>>,
}

/// One character of the segmenter.  A line feed outside a statement
/// flushes the line being built (an empty one is dropped); only the
/// outermost `{`/`}` pair toggles the statement flag, so nested braces are
/// inert; every character but the splitting line feed is kept.
pub open spec fn seg_step(st: SegState, c: char) -> SegState {
    if c == '\n' && !st.in_stmt {
        SegState {
            in_stmt: st.in_stmt,
            build: Seq::empty(),
            lines: if st.build.len() > 0 {
                st.lines.push(st.build)
            } else {
                st.lines
            },
        }
    } else {
        let open2 = if c == '{' && !st.in_stmt {
            true
        } else if c == '}' && st.in_stmt {
            false
        } else {
            st.in_stmt
        };
        SegState { in_stmt: open2, build: st.build.push(c), lines: st.lines }
    }
}

pub open spec fn seg_run(s: Seq<char>) -> SegState {
    s.fold_left(
        SegState { in_stmt: false, build: Seq::empty(), lines: Seq::empty() },
        |st: SegState, c: char| seg_step(st, c),
    )
}

/// The logical lines of `s`: maximal runs not containing a line feed that
/// stands outside a `{...}` statement.  Empty lines are dropped, and a
/// non-empty remainder at the end of input is a line.
pub open spec fn split_lines(s: Seq<char>) -> Seq<Seq<char>> {
    let st = seg_run(s);
    if st.build.len() > 0 {
        st.lines.push(st.build)
    } else {
        st.lines
    }
}

fn split_lines_chars(v: &Vec<char>) -> (r: Vec<Vec<char>>)
    ensures
        views_of(r@) == split_lines(v@),
        forall|k: int| 0 <= k < r@.len() ==> r@[k]@.len() <= v@.len(),
{
    let mut lines: Vec<Vec<char>> = Vec::new();
    let mut build: Vec<char> = Vec::new();
    let mut in_stmt: bool = false;
    proof {
        assert(v@.take(0) =~= Seq::<char>::empty());
    }
    let mut i: usize = 0;
    while i < v.len()
        invariant
            i <= v@.len(),
            seg_run(v@.take(i as int)).in_stmt == in_stmt,
            seg_run(v@.take(i as int)).build == build@,
            seg_run(v@.take(i as int)).lines == views_of(lines@),
            build@.len() <= i,
            forall|k: int| 0 <= k < lines@.len() ==> lines@[k]@.len() <= v@.len(),
        decreases v@.len() - i,
    {
        let c = v[i];
        proof {
            assert(v@.take(i + 1 as int).drop_last() =~= v@.take(i as int));
            assert(v@.take(i + 1 as int).last() == v@[i as int]);
        }
        if c == '\n' && !in_stmt {
            if build.len() > 0 {
                let ghost old_ls = views_of(lines@);
                let ghost bv = build@;
                lines.push(build);
                proof {
                    assert(views_of(lines@) =~= old_ls.push(bv));
                }
                build = Vec::new();
            }
        } else {
            if c == '{' && !in_stmt {
                in_stmt = true;
            } else if c == '}' && in_stmt {
                in_stmt = false;
            }
            build.push(c);
        }
        i = i + 1;
    }
    proof {
        assert(v@.take(v@.len() as int) =~= v@);
    }
    if build.len() > 0 {
        let ghost old_ls = views_of(lines@);
        let ghost bv = build@;
        lines.push(build);
        proof {
            assert(views_of(lines@) =~= old_ls.push(bv));
        }
    }
    lines
}

/// Split a document into logical lines: a line break inside an open
/// `{...}` statement does not end the line.
pub fn split_lines_preserve_statements(string: &str) -> (r: Vec<String>)
    ensures
        crate::text::str_views(r@) == split_lines(string@),
{
    let cs = chars_of(string);
    let pieces = split_lines_chars(&cs);
    let ghost pv = views_of(pieces@);
    let mut r: Vec<String> = Vec::new();
    let mut i: usize = 0;
    while i < pieces.len()
        invariant
            i <= pieces@.len(),
            pv == views_of(pieces@),
            crate::text::str_views(r@) == pv.take(i as int),
        decreases pieces@.len() - i,
    {
        let item = string_from_chars(&pieces[i]);
        let ghost iv = item@;
        let ghost old_r = crate::text::str_views(r@);
        proof {
            assert(iv == pv[i as int]);
            assert(pv.take(i + 1 as int) =~= pv.take(i as int).push(pv[i as int]));
        }
        r.push(item);
        proof {
            assert(crate::text::str_views(r@) =~= old_r.push(iv));
        }
        i = i + 1;
    }
    proof {
        assert(pv.take(pieces@.len() as int) =~= pv);
    }
    r
}

/// The string without its last character; the empty string stays empty.
pub fn remove_last_char(s: &str) -> (r: &str)
    ensures
        s@.len() == 0 ==> r@ == s@,
        s@.len() > 0 ==> r@ == s@.drop_last(),
{
    let n: usize = s.unicode_len();
    if n == 0 {
        s
    } else {
        let r = s.substring_char(0, n - 1);
        proof {
            assert(s@.subrange(0, n - 1 as int) =~= s@.drop_last());
        }
        r
    }
}

// ---------------------------------------------------------------------
// The block parser and the whole pipeline
// ---------------------------------------------------------------------
/// Line-ending normalization: every carriage-return/line-feed pair becomes
/// a single line feed, scanned left to right without overlap.
pub open spec fn normalize(s: Seq<char>) -> Seq<char>
    decreases s.len(),
{
    if s.len() == 0 {
        Seq::empty()
    } else if s.len() >= 2 && s[0] == '\r' && s[1] == '\n' {
        seq!['\n'] + normalize(s.skip(2))
    } else {
        seq![s[0]] + normalize(s.skip(1))
    }
}

fn normalize_chars(v: &Vec<char>) -> (r: Vec<char>)
    ensures
        r@ == normalize(v@),
        r@.len() <= v@.len(),
{
    let n: usize = v.len();
    let mut out: Vec<char> = Vec::new();
    proof {
        assert(v@.skip(0) =~= v@);
        assert(Seq::<char>::empty() + normalize(v@) =~= normalize(v@));
    }
    let mut i: usize = 0;
    while i < n
        invariant
            i <= n,
            n == v@.len(),
            out@ + normalize(v@.skip(i as int)) == normalize(v@),
            out@.len() <= i,
        decreases n - i,
    {
        let ghost rem = v@.skip(i as int);
        let ghost before = out@;
        if v[i] == '\r' && i + 1 < n && v[i + 1] == '\n' {
            proof {
                assert(rem[0] == v@[i as int]);
                assert(rem[1] == v@[i + 1]);
                assert(rem.skip(2) =~= v@.skip(i + 2));
            }
            out.push('\n');
            proof {
                assert(out@ =~= before + seq!['\n']);
                assert(before + (seq!['\n'] + normalize(v@.skip(i + 2))) =~= (before + seq!['\n'])
                    + normalize(v@.skip(i + 2)));
            }
            i = i + 2;
        } else {
            proof {
                assert(rem[0] == v@[i as int]);
                assert(rem.skip(1) =~= v@.skip(i + 1));
                if rem.len() >= 2 && rem[0] == '\r' && rem[1] == '\n' {
                    assert(v@[i + 1] == '\n' && i + 1 < n);
                }
            }
            out.push(v[i]);
            proof {
                assert(out@ =~= before + seq![v@[i as int]]);
                assert(before + (seq![v@[i as int]] + normalize(v@.skip(i + 1))) =~= (before
                    + seq![v@[i as int]]) + normalize(v@.skip(i + 1)));
            }
            i = i + 1;
        }
    }
    proof {
        assert(v@.skip(n as int) =~= Seq::<char>::empty());
        assert(out@ + Seq::<char>::empty() =~= out@);
    }
    out
}

/// Kind of HTML list currently open.
pub enum ListKind {
    NoList,
    Bullet,
    Numbered,
}

/// State of the block parser: the open list kind and the blocks emitted so
/// far.
pub struct BlockState {
    pub list: ListKind,
    pub blocks: Seq<Seq<char>>,
}

/// The index of the first space in `s`, or `-1` if there is none.
pub open spec fn first_space(s: Seq<char>) -> int
    decreases s.len(),
{
    if s.len() == 0 {
        -1
    } else if s[0] == ' ' {
        0
    } else {
        let r = first_space(s.skip(1));
        if r < 0 {
            -1
        } else {
            r + 1
        }
    }
}

/// The token of a line: everything before the first space, or the whole
/// line when it has none.
pub open spec fn token_of(s: Seq<char>) -> Seq<char> {
    if first_space(s) < 0 {
        s
    } else {
        s.take(first_space(s))
    }
}

/// The rest of a line: everything from the first space on (the space
/// included), or empty when the line has none.
pub open spec fn rest_of(s: Seq<char>) -> Seq<char> {
    if first_space(s) < 0 {
        Seq::empty()
    } else {
        s.skip(first_space(s))
    }
}

proof fn lemma_first_space_at(s: Seq<char>, j: int)
    requires
        0 <= j <= s.len(),
        forall|k: int| 0 <= k < j ==> s[k] != ' ',
        j < s.len() ==> s[j] == ' ',
    ensures
        first_space(s) == if j == s.len() {
            -1
        } else {
            j
        },
    decreases j,
{
    if j == 0 {
    } else {
        lemma_first_space_at(s.skip(1), j - 1);
        assert(s[0] != ' ');
    }
}

/// A token of one or more `#` characters marks a header.
pub open spec fn is_hashes(t: Seq<char>) -> bool {
    t.len() > 0 && forall|i: int| 0 <= i < t.len() ==> t[i] == '#'
}

/// A token that is exactly the single character `c`.
pub open spec fn is_tok1(t: Seq<char>, c: char) -> bool {
    t.len() == 1 && t[0] == c
}

/// The `---` horizontal-rule token.
pub open spec fn is_hr_tok(t: Seq<char>) -> bool {
    t.len() == 3 && t[0] == '-' && t[1] == '-' && t[2] == '-'
}

/// The closing tag of an open list.
pub open spec fn close_tag(k: ListKind) -> Seq<char> {
    match k {
        ListKind::NoList => Seq::empty(),
        ListKind::Bullet => "</ul>"@,
        ListKind::Numbered => "</ol>"@,
    }
}

/// A header block: the level is the number of `#` characters plus one, the
/// anchor id is the slug of the trimmed rest, and the rest is escaped.
pub open spec fn header_block(hashes: int, rest: Seq<char>) -> Seq<char> {
    trim_spec(
        "<h"@ + dec_rep((hashes + 1) as nat) + " class=\"header\" id=\""@ + kebab_map(
            lower_of(trim_spec(rest)),
        ) + "\"> "@ + escape_seq(rest) + " </h"@ + dec_rep((hashes + 1) as nat) + ">"@,
    )
}

/// One logical line consumed by the block parser: the leading token picks
/// the block kind, and a list-token change first closes the open list.
pub open spec fn block_step(st: BlockState, ln: Seq<char>) -> BlockState {
    let token = token_of(ln);
    let rest = rest_of(ln);
    let st1 = if !is_tok1(token, '.') && !is_tok1(token, '-') && !(st.list is NoList) {
        BlockState { list: ListKind::NoList, blocks: st.blocks.push(close_tag(st.list)) }
    } else {
        st
    };
    if is_hashes(token) {
        BlockState {
            list: st1.list,
            blocks: st1.blocks.push(header_block(token.len() as int, rest)),
        }
    } else if is_tok1(token, '>') {
        BlockState {
            list: st1.list,
            blocks: st1.blocks.push(
                trim_spec("<blockquote class=\"quote\"> "@ + escape_seq(rest) + " </blockquote>"@),
            ),
        }
    } else if is_hr_tok(token) {
        BlockState { list: st1.list, blocks: st1.blocks.push(trim_spec("<hr />"@)) }
    } else if is_tok1(token, '-') {
        let parent = match st1.list {
            ListKind::NoList => "<ul class=\"list\">\n"@,
            ListKind::Bullet => Seq::<char>::empty(),
            ListKind::Numbered => "</ol>\n<ul class=\"list\">\n"@,
        };
        BlockState {
            list: ListKind::Bullet,
            blocks: st1.blocks.push(trim_spec(parent + "<li> "@ + escape_seq(rest) + " </li>"@)),
        }
    } else if is_tok1(token, '.') {
        let parent = match st1.list {
            ListKind::NoList => "<ol class=\"list\">\n"@,
            ListKind::Numbered => Seq::<char>::empty(),
            ListKind::Bullet => "</ul>\n<ol class=\"list\">\n"@,
        };
        BlockState {
            list: ListKind::Numbered,
            blocks: st1.blocks.push(
                trim_spec(parent + "<li class=\"item\"> "@ + escape_seq(rest) + " </li>"@),
            ),
        }
    } else {
        let t = trim_spec(ln);
        if t.len() == 0 {
            st1
        } else if t.len() >= 2 && t[0] == '{' && t[1] == '|' && t.last() == '}' {
            BlockState { list: st1.list, blocks: st1.blocks.push(trim_spec(escape_seq(t))) }
        } else {
            BlockState {
                list: st1.list,
                blocks: st1.blocks.push(
                    trim_spec("<p class=\"line\"> "@ + escape_seq(t) + " </p>\n"@),
                ),
            }
        }
    }
}

pub open spec fn blocks_run(lines: Seq<Seq<char>>) -> BlockState {
    lines.fold_left(
        BlockState { list: ListKind::NoList, blocks: Seq::empty() },
        |st: BlockState, ln: Seq<char>| block_step(st, ln),
    )
}

/// All blocks of a document's logical lines, with a final closing tag when
/// a list is still open at the end.
pub open spec fn blocks_of(lines: Seq<Seq<char>>) -> Seq<Seq<char>> {
    let st = blocks_run(lines);
    if st.list is NoList {
        st.blocks
    } else {
        st.blocks.push(close_tag(st.list))
    }
}

/// The whole conversion of one document to an HTML body fragment.
pub open spec fn convert_spec(s: Seq<char>) -> Seq<char> {
    primitives_spec(
        statements_spec(join_with(seq!['\n'], blocks_of(split_lines(normalize(s))))),
    )
}

fn all_hashes(token: &Vec<char>) -> (r: bool)
    ensures
        r == is_hashes(token@),
{
    if token.len() == 0 {
        return false;
    }
    let mut k: usize = 0;
    while k < token.len()
        invariant
            k <= token@.len(),
            forall|j: int| 0 <= j < k ==> token@[j] == '#',
        decreases token@.len() - k,
    {
        if token[k] != '#' {
            return false;
        }
        k = k + 1;
    }
    true
}

/// Convert one document in the markup language to an HTML body fragment:
/// segment into logical lines, parse blocks, expand statement directives
/// and toggle the inline style primitives.
pub fn ling_to_html(file: &str) -> (r: String)
    requires
        file@.len() < usize::MAX,
    ensures
        r@ == convert_spec(file@),
{
    let cs = chars_of(file);
    let norm = normalize_chars(&cs);
    let lines = split_lines_chars(&norm);
    let ghost lv = views_of(lines@);
    proof {
        assert(lv == split_lines(normalize(file@)));
        assert(lv.take(0) =~= Seq::<Seq<char>>::empty());
    }
    let mut curr: ListKind = ListKind::NoList;
    let mut body: Vec<Vec<char>> = Vec::new();
    let mut i: usize = 0;
    while i < lines.len()
        invariant
            i <= lines@.len(),
            lv == views_of(lines@),
            forall|k: int| 0 <= k < lines@.len() ==> lines@[k]@.len() < usize::MAX,
            blocks_run(lv.take(i as int)).list == curr,
            blocks_run(lv.take(i as int)).blocks == views_of(body@),
        decreases lines@.len() - i,
    {
        let line = &lines[i];
        proof {
            assert(lv.take(i + 1 as int).drop_last() =~= lv.take(i as int));
            assert(lv.take(i + 1 as int).last() == lv[i as int]);
            assert(lv[i as int] == lines@[i as int]@);
        }
        let ghost st0 = blocks_run(lv.take(i as int));
        let n: usize = line.len();
        let mut j: usize = 0;
        while j < n && line[j] != ' '
            invariant
                j <= n,
                n == line@.len(),
                forall|k: int| 0 <= k < j ==> line@[k] != ' ',
            decreases n - j,
        {
            j = j + 1;
        }
        proof {
            lemma_first_space_at(line@, j as int);
        }
        let token = copy_range(line, 0, j);
        let rest: Vec<char> = if j < n {
            copy_range(line, j, n)
        } else {
            Vec::new()
        };
        proof {
            if j == n {
                assert(line@.subrange(0, n as int) =~= line@);
                assert(token@ == token_of(line@));
                assert(rest@ =~= rest_of(line@));
            } else {
                assert(token@ == token_of(line@));
                assert(line@.subrange(j as int, n as int) =~= line@.skip(j as int));
                assert(rest@ == rest_of(line@));
            }
        }
        let is_dot = token.len() == 1 && token[0] == '.';
        let is_dash = token.len() == 1 && token[0] == '-';
        proof {
            assert(is_dot == is_tok1(token@, '.'));
            assert(is_dash == is_tok1(token@, '-'));
        }
        if !is_dot && !is_dash {
            match curr {
                ListKind::NoList => {},
                ListKind::Bullet => {
                    let ghost old_b = views_of(body@);
                    body.push(chars_of("</ul>"));
                    proof {
                        assert(views_of(body@) =~= old_b.push("</ul>"@));
                    }
                },
                ListKind::Numbered => {
                    let ghost old_b = views_of(body@);
                    body.push(chars_of("</ol>"));
                    proof {
                        assert(views_of(body@) =~= old_b.push("</ol>"@));
                    }
                },
            }
            curr = ListKind::NoList;
        }
        let ghost st1 = if !is_tok1(token_of(lv[i as int]), '.') && !is_tok1(
            token_of(lv[i as int]),
            '-',
        ) && !(st0.list is NoList) {
            BlockState { list: ListKind::NoList, blocks: st0.blocks.push(close_tag(st0.list)) }
        } else {
            st0
        };
        proof {
            assert(st1.list == curr);
            assert(st1.blocks == views_of(body@));
        }
        if all_hashes(&token) {
            let lvl: usize = token.len() + 1;
            let mut blk = chars_of("<h");
            push_all(&mut blk, &dec_chars(lvl));
            push_all(&mut blk, &chars_of(" class=\"header\" id=\""));
            let trest = trim_chars(&rest);
            push_all(&mut blk, &kebab_chars(&trest));
            push_all(&mut blk, &chars_of("\"> "));
            push_all(&mut blk, &escape_chars(&rest));
            push_all(&mut blk, &chars_of(" </h"));
            push_all(&mut blk, &dec_chars(lvl));
            push_all(&mut blk, &chars_of(">"));
            let blk2 = trim_chars(&blk);
            let ghost bv = blk2@;
            let ghost old_b = views_of(body@);
            proof {
                assert(bv == header_block(token@.len() as int, rest@));
            }
            body.push(blk2);
            proof {
                assert(views_of(body@) =~= old_b.push(bv));
            }
        } else if token.len() == 1 && token[0] == '>' {
            let mut blk = chars_of("<blockquote class=\"quote\"> ");
            push_all(&mut blk, &escape_chars(&rest));
            push_all(&mut blk, &chars_of(" </blockquote>"));
            let blk2 = trim_chars(&blk);
            let ghost bv = blk2@;
            let ghost old_b = views_of(body@);
            body.push(blk2);
            proof {
                assert(views_of(body@) =~= old_b.push(bv));
            }
        } else if token.len() == 3 && token[0] == '-' && token[1] == '-' && token[2] == '-' {
            let blk2 = trim_chars(&chars_of("<hr />"));
            let ghost bv = blk2@;
            let ghost old_b = views_of(body@);
            body.push(blk2);
            proof {
                assert(views_of(body@) =~= old_b.push(bv));
            }
        } else if is_dash {
            let mut blk: Vec<char> = match curr {
                ListKind::NoList => chars_of("<ul class=\"list\">\n"),
                ListKind::Bullet => Vec::new(),
                ListKind::Numbered => chars_of("</ol>\n<ul class=\"list\">\n"),
            };
            let ghost parent = blk@;
            proof {
                if curr is Bullet {
                    assert(parent =~= Seq::<char>::empty());
                }
            }
            push_all(&mut blk, &chars_of("<li> "));
            push_all(&mut blk, &escape_chars(&rest));
            push_all(&mut blk, &chars_of(" </li>"));
            curr = ListKind::Bullet;
            let blk2 = trim_chars(&blk);
            let ghost bv = blk2@;
            let ghost old_b = views_of(body@);
            body.push(blk2);
            proof {
                assert(views_of(body@) =~= old_b.push(bv));
            }
        } else if is_dot {
            let mut blk: Vec<char> = match curr {
                ListKind::NoList => chars_of("<ol class=\"list\">\n"),
                ListKind::Numbered => Vec::new(),
                ListKind::Bullet => chars_of("</ul>\n<ol class=\"list\">\n"),
            };
            let ghost parent = blk@;
            proof {
                if curr is Numbered {
                    assert(parent =~= Seq::<char>::empty());
                }
            }
            push_all(&mut blk, &chars_of("<li class=\"item\"> "));
            push_all(&mut blk, &escape_chars(&rest));
            push_all(&mut blk, &chars_of(" </li>"));
            curr = ListKind::Numbered;
            let blk2 = trim_chars(&blk);
            let ghost bv = blk2@;
            let ghost old_b = views_of(body@);
            body.push(blk2);
            proof {
                assert(views_of(body@) =~= old_b.push(bv));
            }
        } else {
            let t = trim_chars(line);
            if t.len() == 0 {
            } else if t.len() >= 2 && t[0] == '{' && t[1] == '|' && t[t.len() - 1] == '}' {
                let blk2 = trim_chars(&escape_chars(&t));
                let ghost bv = blk2@;
                let ghost old_b = views_of(body@);
                proof {
                    assert(t@.last() == t@[t@.len() - 1]);
                }
                body.push(blk2);
                proof {
                    assert(views_of(body@) =~= old_b.push(bv));
                }
            } else {
                let mut blk = chars_of("<p class=\"line\"> ");
                push_all(&mut blk, &escape_chars(&t));
                push_all(&mut blk, &chars_of(" </p>\n"));
                let blk2 = trim_chars(&blk);
                let ghost bv = blk2@;
                let ghost old_b = views_of(body@);
                body.push(blk2);
                proof {
                    assert(views_of(body@) =~= old_b.push(bv));
                }
            }
        }
        i = i + 1;
    }
    proof {
        assert(lv.take(lines@.len() as int) =~= lv);
    }
    match curr {
        ListKind::NoList => {},
        ListKind::Bullet => {
            let ghost old_b = views_of(body@);
            body.push(chars_of("</ul>"));
            proof {
                assert(views_of(body@) =~= old_b.push("</ul>"@));
            }
        },
        ListKind::Numbered => {
            let ghost old_b = views_of(body@);
            body.push(chars_of("</ol>"));
            proof {
                assert(views_of(body@) =~= old_b.push("</ol>"@));
            }
        },
    }
    proof {
        assert(views_of(body@) == blocks_of(split_lines(normalize(file@))));
    }
    let joined = join_chars(&body, '\n');
    let stmts = run_statements(&joined);
    let prims = run_primitives(&stmts);
    string_from_chars(&prims)
}

} // verus!
