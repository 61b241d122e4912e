//! The small helpers the report's sections share: headings, figure lists,
//! tables, trimmed names, and the credit line under an event.
//!
//! Every `&str` that came from the export goes through `esc` on the way in. A
//! report opens as a local file, so anything that survives as markup runs with
//! that origin.

use vstd::prelude::*;

use crate::names::Names;
use crate::text::{chars_of, dec, esc, esc_spec, natural, push_chars};

verus! {

/// `String::to_lowercase`, as a function of the text.
pub uninterp spec fn lowercase(s: Seq<char>) -> Seq<char>;

/// `str::to_lowercase`: Unicode lower-casing.
///
/// Claims only that the result depends on the text alone; the case tables are
/// std's and are not restated here.
#[verifier::external_body]
pub(crate) fn to_lowercase(s: &str) -> (out: String)
    ensures
        out@ == lowercase(s@),
{
    s.to_lowercase()
}

/// Trim a name for a narrow table cell, the full string on the title.
pub open spec fn short_spec(text: Seq<char>, limit: nat) -> Seq<char> {
    if text.len() <= limit {
        esc_spec(text)
    } else {
        "<span title=\""@ + esc_spec(text) + "\">"@ + esc_spec(text.take(limit - 1)) + "&#8230;</span>"@
    }
}

/// Trim a name for a narrow table cell, the full string on the title.
///
/// A 36-character display name in a 90px column wraps to five lines and
/// triples the height of the row it is in.
pub fn short(text: &str, limit: usize) -> (out: String)
    requires
        text@.len() <= limit || limit >= 1,
    ensures
        out@ == short_spec(text@, limit as nat),
{
    let chars = chars_of(text);
    if chars.len() <= limit {
        return esc(text);
    }
    let head = crate::text::first_chars(text, limit - 1);
    let mut out = String::from_str("<span title=\"");
    let whole = esc(text);
    out.append(whole.as_str());
    out.append("\">");
    let cut = esc(head.as_str());
    out.append(cut.as_str());
    out.append("&#8230;</span>");
    out
}

/// A section rule: micro-heading left, a count right.
pub open spec fn head_spec(title: Seq<char>, count: Seq<char>, anchor: Seq<char>) -> Seq<char> {
    "<section"@ + (if anchor.len() == 0 {
        Seq::empty()
    } else {
        " id=\""@ + esc_spec(anchor) + "\""@
    }) + "><div class=\"sechead\"><h2>"@ + esc_spec(title) + "</h2><span class=\"count\">"@ + count
        + "</span></div>"@
}

/// A section rule: micro-heading left, a count right.
///
/// `count` is markup, not text — it carries entities like `&#183;` — so every
/// caller escapes its own interpolations. `title` is escaped here.
pub fn head(title: &str, count: &str, anchor: &str) -> (out: String)
    ensures
        out@ == head_spec(title@, count@, anchor@),
{
    let mut out = String::from_str("<section");
    let ghost open = out@;
    if !anchor.is_empty() {
        out.append(" id=\"");
        let a = esc(anchor);
        out.append(a.as_str());
        out.append("\"");
    }
    proof {
        if anchor@.len() == 0 {
            assert(out@ =~= open + Seq::<char>::empty());
        }
    }
    out.append("><div class=\"sechead\"><h2>");
    let t = esc(title);
    out.append(t.as_str());
    out.append("</h2><span class=\"count\">");
    out.append(count);
    out.append("</span></div>");
    proof {
        assert(out@ =~= head_spec(title@, count@, anchor@));
    }
    out
}

/// One `(value, label)` figure: the value is markup, the label is text.
pub open spec fn figure_cell(value: Seq<char>, label: Seq<char>) -> Seq<char> {
    "<li><b>"@ + value + "</b><span>"@ + esc_spec(label) + "</span></li>"@
}

/// The cells of a list of figures.
pub open spec fn figure_cells(items: Seq<(Seq<char>, Seq<char>)>) -> Seq<char>
    decreases items.len(),
{
    if items.len() == 0 {
        Seq::empty()
    } else {
        figure_cells(items.drop_last()) + figure_cell(items.last().0, items.last().1)
    }
}

/// The views of `(value, label)` pairs.
pub open spec fn pair_views(items: Seq<(String, String)>) -> Seq<(Seq<char>, Seq<char>)> {
    items.map_values(|p: (String, String)| (p.0@, p.1@))
}

/// A row of headline figures.
pub fn figures(items: &Vec<(String, String)>) -> (out: String)
    ensures
        out@ == "<ul class=\"figures\">"@ + figure_cells(pair_views(items@)) + "</ul>"@,
{
    let mut out = String::from_str("<ul class=\"figures\">");
    let ghost open = out@;
    let ghost all = pair_views(items@);
    let mut i: usize = 0;
    while i < items.len()
        invariant
            all == pair_views(items@),
            i <= items.len(),
            out@ == open + figure_cells(all.take(i as int)),
        decreases items.len() - i,
    {
        proof {
            assert(all.take(i + 1).drop_last() =~= all.take(i as int));
            assert(all[i as int] == (items@[i as int].0@, items@[i as int].1@));
        }
        out.append("<li><b>");
        out.append(items[i].0.as_str());
        out.append("</b><span>");
        let label = esc(items[i].1.as_str());
        out.append(label.as_str());
        out.append("</span></li>");
        proof {
            assert(out@ =~= open + figure_cells(all.take(i + 1)));
        }
        i = i + 1;
    }
    proof {
        assert(all.take(items.len() as int) =~= all);
    }
    out.append("</ul>");
    out
}

/// One `(value, label)` figure.
pub(crate) fn figure(value: String, label: &str) -> (out: (String, String))
    ensures
        out.0@ == value@,
        out.1@ == label@,
{
    (value, String::from_str(label))
}

/// A header cell, numeric ones right-aligned.
pub open spec fn header_cell(name: Seq<char>, numeric: bool) -> Seq<char> {
    if numeric {
        "<th class=\"n\">"@ + esc_spec(name) + "</th>"@
    } else {
        "<th>"@ + esc_spec(name) + "</th>"@
    }
}

/// A body cell; its content is markup.
pub open spec fn body_cell(cell: Seq<char>, numeric: bool) -> Seq<char> {
    if numeric {
        "<td class=\"n\">"@ + cell + "</td>"@
    } else {
        "<td>"@ + cell + "</td>"@
    }
}

/// The header cells.
pub open spec fn header_cells(headers: Seq<(Seq<char>, bool)>) -> Seq<char>
    decreases headers.len(),
{
    if headers.len() == 0 {
        Seq::empty()
    } else {
        header_cells(headers.drop_last()) + header_cell(headers.last().0, headers.last().1)
    }
}

/// A row's cells, paired with the columns; a row longer or shorter than the
/// header stops at the shorter of the two.
pub open spec fn row_cells(row: Seq<Seq<char>>, headers: Seq<(Seq<char>, bool)>, n: int) -> Seq<char>
    decreases n,
{
    if n <= 0 {
        Seq::empty()
    } else {
        row_cells(row, headers, n - 1) + body_cell(row[n - 1], headers[n - 1].1)
    }
}

/// The body rows.
pub open spec fn body_rows(rows: Seq<Seq<Seq<char>>>, headers: Seq<(Seq<char>, bool)>) -> Seq<char>
    decreases rows.len(),
{
    if rows.len() == 0 {
        Seq::empty()
    } else {
        let row = rows.last();
        let n = if row.len() < headers.len() { row.len() } else { headers.len() };
        body_rows(rows.drop_last(), headers) + "<tr>"@ + row_cells(row, headers, n as int) + "</tr>"@
    }
}

/// The views of the header pairs.
pub open spec fn header_views(headers: Seq<(String, bool)>) -> Seq<(Seq<char>, bool)> {
    headers.map_values(|h: (String, bool)| (h.0@, h.1))
}

/// The views of a table's rows.
pub open spec fn row_views(rows: Seq<Vec<String>>) -> Seq<Seq<Seq<char>>> {
    rows.map_values(|r: Vec<String>| r@.map_values(|c: String| c@))
}

/// A whole table.
pub open spec fn table_spec(headers: Seq<(Seq<char>, bool)>, rows: Seq<Seq<Seq<char>>>) -> Seq<char> {
    "<table class=\"\"><thead><tr>"@ + header_cells(headers) + "</tr></thead><tbody>"@ + body_rows(
        rows,
        headers,
    ) + "</tbody></table>"@
}

fn append_row(out: &mut String, row: &Vec<String>, headers: &Vec<(String, bool)>)
    ensures
        final(out)@ == old(out)@ + "<tr>"@ + row_cells(
            row@.map_values(|c: String| c@),
            header_views(headers@),
            if row.len() < headers.len() { row.len() as int } else { headers.len() as int },
        ) + "</tr>"@,
{
    let ghost cells = row@.map_values(|c: String| c@);
    let ghost hs = header_views(headers@);
    let n = if row.len() < headers.len() { row.len() } else { headers.len() };
    out.append("<tr>");
    let ghost open = out@;
    let mut j: usize = 0;
    while j < n
        invariant
            cells == row@.map_values(|c: String| c@),
            hs == header_views(headers@),
            n <= row.len(),
            n <= headers.len(),
            j <= n,
            out@ == open + row_cells(cells, hs, j as int),
        decreases n - j,
    {
        proof {
            assert(cells[j as int] == row@[j as int]@);
            assert(hs[j as int] == (headers@[j as int].0@, headers@[j as int].1));
        }
        if headers[j].1 {
            out.append("<td class=\"n\">");
        } else {
            out.append("<td>");
        }
        out.append(row[j].as_str());
        out.append("</td>");
        proof {
            assert(out@ =~= open + row_cells(cells, hs, j + 1));
        }
        j = j + 1;
    }
    out.append("</tr>");
}

/// `(name, numeric)` per column; cells are markup and escape their own input.
pub fn table(headers: &Vec<(String, bool)>, rows: &Vec<Vec<String>>) -> (out: String)
    ensures
        out@ == table_spec(header_views(headers@), row_views(rows@)),
{
    let ghost hs = header_views(headers@);
    let ghost rs = row_views(rows@);
    let mut out = String::from_str("<table class=\"\"><thead><tr>");
    let ghost open = out@;
    let mut i: usize = 0;
    while i < headers.len()
        invariant
            hs == header_views(headers@),
            i <= headers.len(),
            out@ == open + header_cells(hs.take(i as int)),
        decreases headers.len() - i,
    {
        proof {
            assert(hs.take(i + 1).drop_last() =~= hs.take(i as int));
            assert(hs[i as int] == (headers@[i as int].0@, headers@[i as int].1));
        }
        let name = esc(headers[i].0.as_str());
        if headers[i].1 {
            out.append("<th class=\"n\">");
        } else {
            out.append("<th>");
        }
        out.append(name.as_str());
        out.append("</th>");
        proof {
            assert(out@ =~= open + header_cells(hs.take(i + 1)));
        }
        i = i + 1;
    }
    proof {
        assert(hs.take(headers.len() as int) =~= hs);
    }
    out.append("</tr></thead><tbody>");
    let ghost body_open = out@;
    let mut r: usize = 0;
    while r < rows.len()
        invariant
            hs == header_views(headers@),
            rs == row_views(rows@),
            r <= rows.len(),
            out@ == body_open + body_rows(rs.take(r as int), hs),
        decreases rows.len() - r,
    {
        proof {
            assert(rs.take(r + 1).drop_last() =~= rs.take(r as int));
            assert(rs[r as int] == rows@[r as int]@.map_values(|c: String| c@));
        }
        let ghost before = out@;
        append_row(&mut out, &rows[r], headers);
        proof {
            assert(out@ =~= body_open + body_rows(rs.take(r + 1), hs));
        }
        r = r + 1;
    }
    proof {
        assert(rs.take(rows.len() as int) =~= rs);
    }
    out.append("</tbody></table>");
    out
}

/// Every chart's honest twin: the numbers, as text, one click away.
pub open spec fn data_view_spec(label: Seq<char>, table: Seq<char>) -> Seq<char> {
    "<details class=\"data\"><summary>"@ + esc_spec(label) + "</summary>"@ + table + "</details>"@
}

/// Every chart's honest twin: the numbers, as text, one click away.
pub fn data_view(label: &str, table: &str) -> (out: String)
    ensures
        out@ == data_view_spec(label@, table@),
{
    let mut out = String::from_str("<details class=\"data\"><summary>");
    let l = esc(label);
    out.append(l.as_str());
    out.append("</summary>");
    out.append(table);
    out.append("</details>");
    out
}

/// The plural suffix for a count: nothing for exactly one, `s` otherwise.
pub open spec fn plural_spec(count: int) -> Seq<char> {
    if count == 1 { Seq::empty() } else { "s"@ }
}

/// The plural suffix for a count: nothing for exactly one, `s` otherwise.
pub fn plural(count: i64) -> (out: &'static str)
    ensures
        out@ == plural_spec(count as int),
{
    if count == 1 {
        proof {
            reveal_strlit("");
        }
        ""
    } else {
        "s"
    }
}

/// The index of the first maximum; zero for an empty list.
pub fn argmax(values: &[i64]) -> (at: usize)
    ensures
        values.len() == 0 ==> at == 0,
        values.len() > 0 ==> {
            &&& at < values.len()
            &&& forall|k: int| 0 <= k < values.len() ==> values[k] <= values[at as int]
            &&& forall|k: int| 0 <= k < at ==> values[k] < values[at as int]
        },
{
    if values.len() == 0 {
        return 0;
    }
    let mut at: usize = 0;
    let mut i: usize = 1;
    while i < values.len()
        invariant
            values.len() > 0,
            at < i <= values.len(),
            forall|k: int| 0 <= k < i ==> values[k] <= values[at as int],
            forall|k: int| 0 <= k < at ==> values[k] < values[at as int],
        decreases values.len() - i,
    {
        if values[i] > values[at] {
            at = i;
        }
        i = i + 1;
    }
    at
}

/// The display name for a peer key.
pub open spec fn label_for_spec(names: Names, key: Seq<char>) -> Seq<char> {
    match names.get_spec(key) {
        Some(name) => name,
        None => if key.len() == 0 { "unknown"@ } else { key },
    }
}

/// The display name for a peer key.
///
/// Falls back to the key itself: a key on screen is ugly and it is true; a
/// blank cell silently drops a person out of the chart.
pub fn label_for(names: &Names, key: &str) -> (out: String)
    ensures
        out@ == label_for_spec(*names, key@),
{
    match names.get(key) {
        Some(name) => name.clone(),
        None => {
            if key.is_empty() {
                String::from_str("unknown")
            } else {
                String::from_str(key)
            }
        },
    }
}

} // verus!

verus! {

/// The Unicode `White_Space` characters, which is what `char::is_whitespace` tests.
pub open spec fn white_space(c: char) -> bool {
    let u = c as u32;
    (9 <= u <= 13) || u == 32 || u == 0x85 || u == 0xA0 || u == 0x1680 || (0x2000 <= u <= 0x200A)
        || u == 0x2028 || u == 0x2029 || u == 0x202F || u == 0x205F || u == 0x3000
}

/// Whether a character is Unicode white space.
pub fn is_white_space(c: char) -> (r: bool)
    ensures
        r == white_space(c),
{
    let u = c as u32;
    (9 <= u && u <= 13) || u == 32 || u == 0x85 || u == 0xA0 || u == 0x1680 || (0x2000 <= u && u
        <= 0x200A) || u == 0x2028 || u == 0x2029 || u == 0x202F || u == 0x205F || u == 0x3000
}

/// Words so far, and whether a gap is owed before the next one.
pub open spec fn squeeze_state(s: Seq<char>) -> (Seq<char>, bool)
    decreases s.len(),
{
    if s.len() == 0 {
        (Seq::empty(), false)
    } else {
        let (out, gap) = squeeze_state(s.drop_last());
        let c = s.last();
        if white_space(c) {
            (out, out.len() > 0)
        } else if gap {
            (out.push(' ').push(c), false)
        } else {
            (out.push(c), false)
        }
    }
}

/// The words of `s`, one space between each: runs of white space collapse and
/// the ends are trimmed, as `split_whitespace().join(" ")` gives.
pub open spec fn squeeze(s: Seq<char>) -> Seq<char> {
    squeeze_state(s).0
}

/// A name as the notes and the export are compared: lower case, words
/// separated by one space.
pub open spec fn name_key(s: Seq<char>) -> Seq<char> {
    squeeze(lowercase(s))
}

/// The words of a text, one space between each.
pub fn squeeze_words(s: &str) -> (out: String)
    ensures
        out@ == squeeze(s@),
{
    let chars = chars_of(s);
    let mut out = String::new();
    let mut gap = false;
    let mut i: usize = 0;
    while i < chars.len()
        invariant
            chars@ == s@,
            i <= chars.len(),
            (out@, gap) == squeeze_state(s@.take(i as int)),
        decreases chars.len() - i,
    {
        proof {
            assert(s@.take(i + 1).drop_last() =~= s@.take(i as int));
            assert(s@.take(i + 1).last() == chars@[i as int]);
        }
        let c = chars[i];
        if is_white_space(c) {
            gap = crate::text::char_count(&out) > 0;
        } else {
            if gap {
                out.push(' ');
            }
            out.push(c);
            gap = false;
        }
        i = i + 1;
    }
    proof {
        assert(s@.take(chars.len() as int) =~= s@);
    }
    out
}

/// Whether a normalised name is among the normalised names.
pub open spec fn known_name(known: Seq<Seq<char>>, key: Seq<char>) -> bool {
    exists|i: int| 0 <= i < known.len() && name_key(known[i]) == key
}

/// One credited name, marked when it matches nobody.
pub open spec fn who_cell(known: Seq<Seq<char>>, name: Seq<char>) -> Seq<char> {
    if known_name(known, name_key(name)) {
        "<span>"@ + esc_spec(name) + "</span>"@
    } else {
        "<span class=\"unknown\">"@ + esc_spec(name) + "</span>"@
    }
}

/// The credited names' cells.
pub open spec fn who_cells(known: Seq<Seq<char>>, who: Seq<Seq<char>>) -> Seq<char>
    decreases who.len(),
{
    if who.len() == 0 {
        Seq::empty()
    } else {
        who_cells(known, who.drop_last()) + who_cell(known, who.last())
    }
}

/// How many credited names match nobody.
pub open spec fn who_missing(known: Seq<Seq<char>>, who: Seq<Seq<char>>) -> nat
    decreases who.len(),
{
    if who.len() == 0 {
        0
    } else {
        who_missing(known, who.drop_last()) + if known_name(known, name_key(who.last())) {
            0nat
        } else {
            1nat
        }
    }
}

/// The note after the names, when some match nobody.
pub open spec fn missing_note(missing: nat) -> Seq<char> {
    if missing == 0 {
        Seq::empty()
    } else {
        " <em>"@ + dec(missing) + " name"@ + plural_spec(missing as int) + " match"@ + (if missing
            == 1 {
            "es"@
        } else {
            Seq::empty()
        }) + " nobody in this export</em>"@
    }
}

/// The names an event credits, each checked against the statistics.
pub open spec fn who_line_spec(known: Seq<Seq<char>>, who: Seq<Seq<char>>) -> Seq<char> {
    if who.len() == 0 {
        Seq::empty()
    } else {
        "<p class=\"who\">"@ + who_cells(known, who) + missing_note(who_missing(known, who)) + "</p>"@
    }
}

/// The names an event credits, each checked against the statistics.
///
/// A `who` that names nobody says so: a name in the notes that matches no one
/// in the export almost always means the export spells it differently, and
/// that is a thing the reader can go and fix. The unmatched name is still
/// shown, just marked. The comparison ignores case and spacing, because the
/// notes are typed by hand.
pub fn who_line(who: &Vec<String>, names: &Names) -> (out: String)
    ensures
        out@ == who_line_spec(names.names(), who@.map_values(|s: String| s@)),
{
    let ghost whov = who@.map_values(|s: String| s@);
    if who.len() == 0 {
        return String::new();
    }
    let values = names.values();
    let ghost known = names.names();
    let mut keys: Vec<String> = Vec::new();
    let mut k: usize = 0;
    while k < values.len()
        invariant
            values@.map_values(|s: String| s@) == known,
            k <= values.len(),
            keys.len() == k,
            forall|j: int| 0 <= j < k ==> (#[trigger] keys@[j])@ == name_key(known[j]),
        decreases values.len() - k,
    {
        let lower = to_lowercase(values[k].as_str());
        let key = squeeze_words(lower.as_str());
        proof {
            assert(known[k as int] == values@[k as int]@);
        }
        keys.push(key);
        k = k + 1;
    }
    let mut out = String::from_str("<p class=\"who\">");
    let ghost open = out@;
    let mut missing: usize = 0;
    let mut i: usize = 0;
    while i < who.len()
        invariant
            whov == who@.map_values(|s: String| s@),
            keys.len() == known.len(),
            forall|j: int| 0 <= j < keys.len() ==> (#[trigger] keys@[j])@ == name_key(known[j]),
            i <= who.len(),
            missing == who_missing(known, whov.take(i as int)),
            missing <= i,
            out@ == open + who_cells(known, whov.take(i as int)),
        decreases who.len() - i,
    {
        proof {
            assert(whov.take(i + 1).drop_last() =~= whov.take(i as int));
            assert(whov[i as int] == who@[i as int]@);
        }
        let name = &who[i];
        let lower = to_lowercase(name.as_str());
        let key = squeeze_words(lower.as_str());
        let mut found = false;
        let mut j: usize = 0;
        while j < keys.len()
            invariant
                keys.len() == known.len(),
                forall|m: int| 0 <= m < keys.len() ==> (#[trigger] keys@[m])@ == name_key(known[m]),
                j <= keys.len(),
                found == exists|m: int| 0 <= m < j && name_key(known[m]) == key@,
            decreases keys.len() - j,
        {
            if keys[j] == key {
                found = true;
            }
            proof {
                assert(keys@[j as int]@ == name_key(known[j as int]));
                if found {
                    if keys@[j as int]@ == key@ {
                        assert(name_key(known[j as int]) == key@);
                    }
                }
            }
            j = j + 1;
        }
        let cell = esc(name.as_str());
        if found {
            out.append("<span>");
        } else {
            out.append("<span class=\"unknown\">");
            missing = missing + 1;
        }
        out.append(cell.as_str());
        out.append("</span>");
        proof {
            assert(found == known_name(known, name_key(whov[i as int])));
            assert(out@ =~= open + who_cells(known, whov.take(i + 1)));
        }
        i = i + 1;
    }
    proof {
        assert(whov.take(who.len() as int) =~= whov);
    }
    let ghost body = out@;
    if missing > 0 {
        out.append(" <em>");
        let count = natural(missing as u64);
        out.append(count.as_str());
        out.append(" name");
        let ghost before_suffix = out@;
        if missing != 1 {
            out.append("s");
        }
        proof {
            assert(out@ =~= before_suffix + plural_spec(missing as int));
        }
        out.append(" match");
        let ghost mid = out@;
        if missing == 1 {
            out.append("es");
        }
        let ghost es: Seq<char> = if missing == 1 { "es"@ } else { Seq::empty() };
        assert(out@ =~= mid + es);
        out.append(" nobody in this export</em>");
        proof {
            assert(out@ =~= body + (" <em>"@ + dec(missing as nat) + " name"@ + plural_spec(missing as int)
                + " match"@ + es + " nobody in this export</em>"@));
        }
    }
    proof {
        assert(out@ =~= body + missing_note(missing as nat));
    }
    out.append("</p>");
    proof {
        assert(body == open + who_cells(known, whov));
        assert(out@ =~= who_line_spec(known, whov));
    }
    out
}

} // verus!
