//! What the messages were made of: the lists and tables of what was said.

use vstd::prelude::*;

use crate::model::MediaKind;
use crate::sections::{figure, figure_cells, figures, pair_views, data_view, data_view_spec, head, head_spec, header_views, row_views, table, table_spec};
use crate::stats::{Count, human_bytes, human_bytes_spec};
use crate::text::{esc, esc_spec, same_text, thousands, thousands_spec};

verus! {

/// The first `n` items of a list, or all of it when it is shorter.
pub open spec fn first_n<T>(s: Seq<T>, n: nat) -> Seq<T> {
    s.take(if s.len() < n { s.len() as int } else { n as int })
}

/// One figure of a top list: the symbol, and how often.
pub open spec fn symbol_cell(c: Count) -> Seq<char> {
    "<li><b>"@ + esc_spec(c.label@) + "</b><span>"@ + thousands_spec(c.n as int) + "</span></li>"@
}

/// The figures of a top list.
pub open spec fn symbol_cells(s: Seq<Count>) -> Seq<char>
    decreases s.len(),
{
    if s.len() == 0 {
        Seq::empty()
    } else {
        symbol_cells(s.drop_last()) + symbol_cell(s.last())
    }
}

/// A top-ten list under its heading; nothing when the list is empty.
pub open spec fn symbol_list_spec(items: Seq<Count>, title: Seq<char>) -> Seq<char> {
    if items.len() == 0 {
        Seq::empty()
    } else {
        "<h3>"@ + title + "</h3><ul class=\"figures\">"@ + symbol_cells(first_n(items, 10)) + "</ul>"@
    }
}

/// A top-ten list under its heading (emoji, stickers); nothing when the list
/// is empty. `title` is markup.
pub fn symbol_list(items: &Vec<Count>, title: &str) -> (out: String)
    ensures
        out@ == symbol_list_spec(items@, title@),
{
    if items.len() == 0 {
        return String::new();
    }
    let n = if items.len() < 10 { items.len() } else { 10 };
    let ghost shown = first_n(items@, 10);
    let mut cells = String::new();
    let mut i: usize = 0;
    while i < n
        invariant
            n <= items.len(),
            shown == items@.take(n as int),
            i <= n,
            cells@ == symbol_cells(shown.take(i as int)),
        decreases n - i,
    {
        proof {
            assert(shown.take(i + 1).drop_last() =~= shown.take(i as int));
            assert(shown.take(i + 1).last() == items@[i as int]);
        }
        cells.append("<li><b>");
        let l = esc(items[i].label.as_str());
        cells.append(l.as_str());
        cells.append("</b><span>");
        let c = thousands(items[i].n);
        cells.append(c.as_str());
        cells.append("</span></li>");
        proof {
            assert(cells@ =~= symbol_cells(shown.take(i + 1)));
        }
        i = i + 1;
    }
    proof {
        assert(shown.take(n as int) =~= shown);
    }
    let mut out = String::from_str("<h3>");
    out.append(title);
    out.append("</h3><ul class=\"figures\">");
    out.append(cells.as_str());
    out.append("</ul>");
    out
}

/// A row of a two-column count table: the label, hash-marked for hashtags,
/// and the count.
pub open spec fn count_row(c: Count, hash: bool) -> Seq<Seq<char>> {
    seq![(if hash { "#"@ } else { Seq::empty() }) + esc_spec(c.label@), thousands_spec(c.n as int)]
}

/// The rows of a two-column count table, at most `n` of them.
pub open spec fn count_rows(items: Seq<Count>, n: nat, hash: bool) -> Seq<Seq<Seq<char>>> {
    first_n(items, n).map_values(|c: Count| count_row(c, hash))
}

fn rows_of(items: &Vec<Count>, n: usize, hash: bool) -> (out: Vec<Vec<String>>)
    ensures
        row_views(out@) == count_rows(items@, n as nat, hash),
{
    let k = if items.len() < n { items.len() } else { n };
    let ghost want = count_rows(items@, n as nat, hash);
    let mut out: Vec<Vec<String>> = Vec::new();
    let mut i: usize = 0;
    while i < k
        invariant
            k <= items.len(),
            k == (if items.len() < n { items.len() } else { n }),
            want == count_rows(items@, n as nat, hash),
            i <= k,
            out.len() == i,
            forall|q: int| 0 <= q < i ==> #[trigger] row_views(out@)[q] == want[q],
        decreases k - i,
    {
        let mut label = if hash { String::from_str("#") } else { String::new() };
        let e = esc(items[i].label.as_str());
        label.append(e.as_str());
        let mut row: Vec<String> = Vec::new();
        row.push(label);
        row.push(thousands(items[i].n));
        let ghost before = out@;
        out.push(row);
        proof {
            reveal_strlit("#");
            assert(row_views(out@)[i as int] =~= count_row(items@[i as int], hash));
            assert forall|q: int| 0 <= q < i + 1 implies #[trigger] row_views(out@)[q] == want[q] by {
                if q < i {
                    assert(out@[q] == before[q]);
                    assert(row_views(before)[q] == want[q]);
                }
            }
        }
        i = i + 1;
    }
    proof {
        assert(row_views(out@) =~= want);
    }
    out
}

fn two_columns(a: &str, b: &str) -> (out: Vec<(String, bool)>)
    ensures
        header_views(out@) == seq![(a@, false), (b@, true)],
{
    let mut out: Vec<(String, bool)> = Vec::new();
    out.push((String::from_str(a), false));
    out.push((String::from_str(b), true));
    proof {
        assert(header_views(out@) =~= seq![(a@, false), (b@, true)]);
    }
    out
}

/// Hashtags and mentions side by side, twelve of each at most; nothing when
/// there are neither.
pub open spec fn tag_tables_spec(hashtags: Seq<Count>, mentions: Seq<Count>) -> Seq<char> {
    let cols = (if hashtags.len() == 0 {
        Seq::empty()
    } else {
        "<div><h3>Hashtags</h3>"@ + table_spec(seq![("Tag"@, false), ("Uses"@, true)], count_rows(hashtags, 12, true))
            + "</div>"@
    }) + (if mentions.len() == 0 {
        Seq::empty()
    } else {
        "<div><h3>Most mentioned</h3>"@ + table_spec(
            seq![("Handle"@, false), ("Mentions"@, true)],
            count_rows(mentions, 12, false),
        ) + "</div>"@
    });
    if cols.len() == 0 {
        Seq::empty()
    } else {
        "<div class=\"cols2\">"@ + cols + "</div>"@
    }
}

/// Hashtags and mentions side by side.
pub fn tag_tables(hashtags: &Vec<Count>, mentions: &Vec<Count>) -> (out: String)
    ensures
        out@ == tag_tables_spec(hashtags@, mentions@),
{
    let mut cols = String::new();
    if hashtags.len() != 0 {
        cols.append("<div><h3>Hashtags</h3>");
        let t = table(&two_columns("Tag", "Uses"), &rows_of(hashtags, 12, true));
        cols.append(t.as_str());
        cols.append("</div>");
    }
    let ghost mid = cols@;
    if mentions.len() != 0 {
        cols.append("<div><h3>Most mentioned</h3>");
        let t = table(&two_columns("Handle", "Mentions"), &rows_of(mentions, 12, false));
        cols.append(t.as_str());
        cols.append("</div>");
    }
    proof {
        assert(cols@ =~= (if hashtags.len() == 0 {
            Seq::empty()
        } else {
            "<div><h3>Hashtags</h3>"@ + table_spec(seq![("Tag"@, false), ("Uses"@, true)], count_rows(hashtags@, 12, true))
                + "</div>"@
        }) + (if mentions.len() == 0 {
            Seq::empty()
        } else {
            "<div><h3>Most mentioned</h3>"@ + table_spec(
                seq![("Handle"@, false), ("Mentions"@, true)],
                count_rows(mentions@, 12, false),
            ) + "</div>"@
        }));
    }
    if cols.as_str().is_empty() {
        return String::new();
    }
    let mut out = String::from_str("<div class=\"cols2\">");
    out.append(cols.as_str());
    out.append("</div>");
    out
}

/// Where forwards came from, twelve at most; nothing when nothing was forwarded.
pub open spec fn forwards_spec(sources: Seq<Count>) -> Seq<char> {
    if sources.len() == 0 {
        Seq::empty()
    } else {
        "<h3>Forwarded from</h3>"@ + table_spec(
            seq![("Source"@, false), ("Forwards"@, true)],
            count_rows(sources, 12, false),
        )
    }
}

/// Where forwards came from.
pub fn forwards(sources: &Vec<Count>) -> (out: String)
    ensures
        out@ == forwards_spec(sources@),
{
    if sources.len() == 0 {
        return String::new();
    }
    let mut out = String::from_str("<h3>Forwarded from</h3>");
    let t = table(&two_columns("Source", "Forwards"), &rows_of(sources, 12, false));
    out.append(t.as_str());
    out
}

/// The attachments described but not on disk.
pub open spec fn skip_note_spec(skipped: int) -> Seq<char> {
    if skipped > 0 {
        "<p class=\"note\">"@ + thousands_spec(skipped)
            + " of those attachments were over the export&#8217;s size limit, so they are described in the archive but their bytes are not on disk. The totals above are what was shared, which includes them.</p>"@
    } else {
        Seq::empty()
    }
}

/// The attachments described but not on disk: over the export's size limit.
pub fn skip_note(sent: i64, saved: i64) -> (out: String)
    requires
        i64::MIN <= sent - saved <= i64::MAX,
    ensures
        out@ == skip_note_spec(sent - saved),
{
    let skipped = sent - saved;
    if skipped <= 0 {
        return String::new();
    }
    let mut out = String::from_str("<p class=\"note\">");
    let n = thousands(skipped);
    out.append(n.as_str());
    out.append(
        " of those attachments were over the export&#8217;s size limit, so they are described in the archive but their bytes are not on disk. The totals above are what was shared, which includes them.</p>",
    );
    out
}

/// The count in the first bucket named `no text`, or zero.
pub open spec fn no_text_count(lengths: Seq<Count>) -> i64
    decreases lengths.len(),
{
    if lengths.len() == 0 {
        0
    } else if lengths[0].label@ == "no text"@ {
        lengths[0].n
    } else {
        no_text_count(lengths.drop_first())
    }
}

/// How many messages carried no text at all.
pub fn no_text(lengths: &Vec<Count>) -> (n: i64)
    ensures
        n == no_text_count(lengths@),
{
    let mut i: usize = 0;
    proof {
        assert(lengths@.skip(0) =~= lengths@);
    }
    while i < lengths.len()
        invariant
            i <= lengths.len(),
            no_text_count(lengths@) == no_text_count(lengths@.skip(i as int)),
        decreases lengths.len() - i,
    {
        proof {
            assert(lengths@.skip(i as int)[0] == lengths@[i as int]);
            assert(lengths@.skip(i as int).drop_first() =~= lengths@.skip(i + 1));
        }
        if same_text(lengths[i].label.as_str(), "no text") {
            return lengths[i].n;
        }
        i = i + 1;
    }
    0
}

/// One row of the attachments table.
pub open spec fn kind_row(k: MediaKind) -> Seq<Seq<char>> {
    seq![
        esc_spec(k.label@),
        thousands_spec(k.sent as int),
        thousands_spec(k.saved as int),
        esc_spec(human_bytes_spec(k.bytes as int)),
    ]
}

/// Each column of the attachments table holds what its header names: the
/// kind, then the count sent, then the count saved, then the bytes.
pub proof fn law_attachment_columns_match_headers(k: MediaKind)
    ensures
        kind_headers().len() == 4,
        kind_row(k).len() == 4,
        kind_headers()[0] == ("Kind"@, false) && kind_row(k)[0] == esc_spec(k.label@),
        kind_headers()[1] == ("Sent"@, true) && kind_row(k)[1] == thousands_spec(k.sent as int),
        kind_headers()[2] == ("Saved"@, true) && kind_row(k)[2] == thousands_spec(k.saved as int),
        kind_headers()[3] == ("Bytes"@, true) && kind_row(k)[3] == esc_spec(human_bytes_spec(k.bytes as int)),
{
}

/// The attachments table's rows, one per kind.
pub fn kind_rows(kinds: &Vec<MediaKind>) -> (out: Vec<Vec<String>>)
    ensures
        row_views(out@) == kinds@.map_values(|k: MediaKind| kind_row(k)),
{
    let ghost want = kinds@.map_values(|k: MediaKind| kind_row(k));
    let mut out: Vec<Vec<String>> = Vec::new();
    let mut i: usize = 0;
    while i < kinds.len()
        invariant
            want == kinds@.map_values(|k: MediaKind| kind_row(k)),
            i <= kinds.len(),
            out.len() == i,
            forall|q: int| 0 <= q < i ==> #[trigger] row_views(out@)[q] == want[q],
        decreases kinds.len() - i,
    {
        let k = &kinds[i];
        let mut row: Vec<String> = Vec::new();
        row.push(esc(k.label.as_str()));
        row.push(thousands(k.sent));
        row.push(thousands(k.saved));
        let b = human_bytes(k.bytes);
        row.push(esc(b.as_str()));
        let ghost before = out@;
        out.push(row);
        proof {
            assert(row_views(out@)[i as int] =~= kind_row(*k));
            assert forall|q: int| 0 <= q < i + 1 implies #[trigger] row_views(out@)[q] == want[q] by {
                if q < i {
                    assert(out@[q] == before[q]);
                    assert(row_views(before)[q] == want[q]);
                }
            }
        }
        i = i + 1;
    }
    proof {
        assert(row_views(out@) =~= want);
    }
    out
}


/// What was said, as the section lists it.
#[derive(Debug, Clone, Default)]
pub struct SaidFacts {
    pub messages: usize,
    /// Messages that carried an attachment, and those whose bytes are on disk.
    pub media_messages: i64,
    pub media_saved: i64,
    pub media_kinds: Vec<MediaKind>,
    pub emoji: Vec<Count>,
    pub stickers: Vec<Count>,
    pub hashtags: Vec<Count>,
    pub mentions: Vec<Count>,
    pub forward_sources: Vec<Count>,
    pub total_words: i64,
    /// Bytes of attachments shared.
    pub media_bytes: i64,
    pub links_total: i64,
    /// Messages edited afterwards.
    pub edited: i64,
}

/// The parts of the section drawn or measured elsewhere.
#[derive(Debug, Clone, Default)]
pub struct SaidDrawn {
    /// The words in a typical message, as markup.
    pub mean_words: String,
    pub lengths: String,
    /// The attachments chart; empty when there are no attachment kinds.
    pub media: String,
    /// The links chart under its heading; empty when no links were shared.
    pub links: String,
    /// The share of messages with no text at all.
    pub no_text_share: String,
}

/// The columns of the attachments table.
pub open spec fn kind_headers() -> Seq<(Seq<char>, bool)> {
    seq![("Kind"@, false), ("Sent"@, true), ("Saved"@, true), ("Bytes"@, true)]
}

/// The headline figures of the section.
pub open spec fn said_figures_spec(f: SaidFacts, d: SaidDrawn) -> Seq<char> {
    "<ul class=\"figures\">"@ + figure_cells(
        seq![
            (thousands_spec(f.total_words as int), "words"@),
            (d.mean_words@, "words in a typical message"@),
            (thousands_spec(f.media_messages as int), "messages with an attachment"@),
            (esc_spec(human_bytes_spec(f.media_bytes as int)), "shared"@),
            (thousands_spec(f.links_total as int), "links"@),
            (thousands_spec(f.edited as int), "edited afterwards"@),
        ],
    ) + "</ul>"@
}

fn said_figures(f: &SaidFacts, d: &SaidDrawn) -> (out: String)
    ensures
        out@ == said_figures_spec(*f, *d),
{
    let mut items: Vec<(String, String)> = Vec::new();
    items.push(figure(thousands(f.total_words), "words"));
    items.push(figure(d.mean_words.clone(), "words in a typical message"));
    items.push(figure(thousands(f.media_messages), "messages with an attachment"));
    let size = human_bytes(f.media_bytes);
    items.push(figure(esc(size.as_str()), "shared"));
    items.push(figure(thousands(f.links_total), "links"));
    items.push(figure(thousands(f.edited), "edited afterwards"));
    proof {
        assert(pair_views(items@) =~= seq![
            (thousands_spec(f.total_words as int), "words"@),
            (d.mean_words@, "words in a typical message"@),
            (thousands_spec(f.media_messages as int), "messages with an attachment"@),
            (esc_spec(human_bytes_spec(f.media_bytes as int)), "shared"@),
            (thousands_spec(f.links_total as int), "links"@),
            (thousands_spec(f.edited as int), "edited afterwards"@),
        ]);
    }
    figures(&items)
}

/// The section on what was said.
pub open spec fn said_spec(f: SaidFacts, d: SaidDrawn) -> Seq<char> {
    head_spec("What was said"@, thousands_spec((f.messages as i64) as int) + " messages"@, "said"@)
        + said_figures_spec(f, d) + "<h3>Message length</h3><div class=\"split\"><div>"@ + d.lengths@
        + "</div><aside><p class=\"caption\">In words. The first bucket is messages with no text at all &#8212; a photo, a sticker, a voice note, which is "@
        + d.no_text_share@ + " of everything sent.</p></aside></div>"@ + (if d.media@.len() == 0 {
        Seq::empty()
    } else {
        "<h3>Attachments</h3>"@ + d.media@ + skip_note_spec(f.media_messages - f.media_saved)
    }) + said_lists_spec(f, d) + kind_table_spec(f.media_kinds@) + "</section>"@
}

/// The top lists of the section: emoji, stickers, links, tags, forwards.
pub open spec fn said_lists_spec(f: SaidFacts, d: SaidDrawn) -> Seq<char> {
    symbol_list_spec(f.emoji@, "Most-used emoji"@) + symbol_list_spec(f.stickers@, "Favourite stickers"@)
        + d.links@ + tag_tables_spec(f.hashtags@, f.mentions@) + forwards_spec(f.forward_sources@)
}

fn said_lists(f: &SaidFacts, d: &SaidDrawn) -> (out: String)
    ensures
        out@ == said_lists_spec(*f, *d),
{
    let mut out = symbol_list(&f.emoji, "Most-used emoji");
    let st = symbol_list(&f.stickers, "Favourite stickers");
    out.append(st.as_str());
    out.append(d.links.as_str());
    let tg = tag_tables(&f.hashtags, &f.mentions);
    out.append(tg.as_str());
    let fw = forwards(&f.forward_sources);
    out.append(fw.as_str());
    out
}

/// The attachments, as numbers.
pub open spec fn kind_table_spec(kinds: Seq<MediaKind>) -> Seq<char> {
    data_view_spec(
        "Attachments, as numbers"@,
        table_spec(kind_headers(), kinds.map_values(|k: MediaKind| kind_row(k))),
    )
}

fn kind_table(kinds: &Vec<MediaKind>) -> (out: String)
    ensures
        out@ == kind_table_spec(kinds@),
{
    let mut headers: Vec<(String, bool)> = Vec::new();
    headers.push((String::from_str("Kind"), false));
    headers.push((String::from_str("Sent"), true));
    headers.push((String::from_str("Saved"), true));
    headers.push((String::from_str("Bytes"), true));
    proof {
        assert(header_views(headers@) =~= kind_headers());
    }
    let rows = kind_rows(kinds);
    let t = table(&headers, &rows);
    data_view("Attachments, as numbers", t.as_str())
}

/// The section on what was said: length, attachments, emoji and stickers,
/// links, hashtags and mentions, forwards, and the attachments as numbers.
pub fn said(f: &SaidFacts, d: &SaidDrawn) -> (out: String)
    requires
        i64::MIN <= f.media_messages - f.media_saved <= i64::MAX,
    ensures
        out@ == said_spec(*f, *d),
{
    let mut count = thousands(f.messages as i64);
    count.append(" messages");
    let mut out = head("What was said", count.as_str(), "said");
    let figs = said_figures(f, d);
    out.append(figs.as_str());
    out.append("<h3>Message length</h3><div class=\"split\"><div>");
    out.append(d.lengths.as_str());
    out.append(
        "</div><aside><p class=\"caption\">In words. The first bucket is messages with no text at all &#8212; a photo, a sticker, a voice note, which is ",
    );
    out.append(d.no_text_share.as_str());
    out.append(" of everything sent.</p></aside></div>");
    let ghost a = out@;
    if !d.media.as_str().is_empty() {
        out.append("<h3>Attachments</h3>");
        out.append(d.media.as_str());
        let n = skip_note(f.media_messages, f.media_saved);
        out.append(n.as_str());
    }
    let ghost b = out@;
    let l = said_lists(f, d);
    out.append(l.as_str());
    let v = kind_table(&f.media_kinds);
    out.append(v.as_str());
    out.append("</section>");
    proof {
        reveal_strlit("What was said");
        reveal_strlit("said");
        assert(b =~= a + (if d.media@.len() == 0 {
            Seq::empty()
        } else {
            "<h3>Attachments</h3>"@ + d.media@ + skip_note_spec(f.media_messages - f.media_saved)
        }));
        assert(out@ =~= said_spec(*f, *d));
    }
    out
}

} // verus!
