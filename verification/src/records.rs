//! The extremes, each one citing the message it rests on.

use vstd::prelude::*;

use crate::model::Superlative;
use crate::sections::{head, head_spec};
use crate::stats::Figure;
use crate::text::{dec, esc, esc_spec, natural, thousands, thousands_spec};

verus! {

/// A record's value: a count gets its group separators, a text is escaped
/// as it stands (the largest file is already `1.8 MB`).
pub open spec fn record_value(f: Figure) -> Seq<char> {
    match f {
        Figure::Count(n) => thousands_spec(n as int),
        Figure::Text(t) => esc_spec(t@),
    }
}

/// One record.
pub open spec fn record_item(r: Superlative) -> Seq<char> {
    "<li><span class=\"what\">"@ + esc_spec(r.title@) + "</span><span class=\"big\">"@ + record_value(
        r.value,
    ) + "</span><span class=\"about\">"@ + esc_spec(r.date@) + (if r.who@.len() == 0 {
        Seq::empty()
    } else {
        " &#183; "@ + esc_spec(r.who@)
    }) + (if r.unit@.len() == 0 {
        Seq::empty()
    } else {
        " <span class=\"num\">"@ + esc_spec(r.unit@) + "</span>"@
    }) + (if r.text@.len() == 0 {
        Seq::empty()
    } else {
        "<br><span>"@ + esc_spec(r.text@) + "</span>"@
    }) + "</span></li>"@
}

/// Every record, in order.
pub open spec fn record_items(items: Seq<Superlative>) -> Seq<char>
    decreases items.len(),
{
    if items.len() == 0 {
        Seq::empty()
    } else {
        record_items(items.drop_last()) + record_item(items.last())
    }
}

/// The records section; nothing at all when there are no records.
pub open spec fn records_spec(items: Seq<Superlative>) -> Seq<char> {
    if items.len() == 0 {
        Seq::empty()
    } else {
        head_spec("Records"@, dec(items.len()), "records"@) + "<ul class=\"records\">"@
            + record_items(items) + "</ul></section>"@
    }
}

fn record(r: &Superlative) -> (out: String)
    ensures
        out@ == record_item(*r),
{
    let mut out = String::from_str("<li><span class=\"what\">");
    let t = esc(r.title.as_str());
    out.append(t.as_str());
    out.append("</span><span class=\"big\">");
    match &r.value {
        Figure::Count(n) => {
            let v = thousands(*n);
            out.append(v.as_str());
        },
        Figure::Text(text) => {
            let v = esc(text.as_str());
            out.append(v.as_str());
        },
    }
    out.append("</span><span class=\"about\">");
    let d = esc(r.date.as_str());
    out.append(d.as_str());
    let ghost a = out@;
    if !r.who.as_str().is_empty() {
        out.append(" &#183; ");
        let w = esc(r.who.as_str());
        out.append(w.as_str());
    }
    let ghost b = out@;
    if !r.unit.as_str().is_empty() {
        out.append(" <span class=\"num\">");
        let u = esc(r.unit.as_str());
        out.append(u.as_str());
        out.append("</span>");
    }
    let ghost c = out@;
    if !r.text.as_str().is_empty() {
        out.append("<br><span>");
        let x = esc(r.text.as_str());
        out.append(x.as_str());
        out.append("</span>");
    }
    out.append("</span></li>");
    proof {
        assert(out@ =~= record_item(*r));
    }
    out
}

/// The extremes, each one citing the message it rests on; nothing at all
/// when there are none.
pub fn records(items: &Vec<Superlative>) -> (out: String)
    ensures
        out@ == records_spec(items@),
{
    if items.len() == 0 {
        return String::new();
    }
    let mut body = String::new();
    let mut i: usize = 0;
    while i < items.len()
        invariant
            i <= items.len(),
            body@ == record_items(items@.take(i as int)),
        decreases items.len() - i,
    {
        proof {
            assert(items@.take(i + 1).drop_last() =~= items@.take(i as int));
        }
        let item = record(&items[i]);
        body.append(item.as_str());
        i = i + 1;
    }
    proof {
        assert(items@.take(items.len() as int) =~= items@);
    }
    let count = natural(items.len() as u64);
    let mut out = head("Records", count.as_str(), "records");
    out.append("<ul class=\"records\">");
    out.append(body.as_str());
    out.append("</ul></section>");
    out
}

} // verus!
