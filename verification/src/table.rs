//! The table that stands for a frontmatter block: one row of HTML for each
//! entry, inside an HTML block.

use vstd::prelude::*;
use pulldown_cmark::Event;
use crate::events::{html_block_end, html_block_start, html_fragment, shapes, Shape};
use crate::frontmatter::entry_texts;
use crate::linkify::{linkified, linkify_text};
use crate::text::same_text;

verus! {

/// What a row shows for a value: the value as it is, but for the key
/// `author`, whose value has its handles and addresses linked.
pub open spec fn cell_text(key: Seq<char>, value: Seq<char>) -> Seq<char> {
    if key == "author"@ {
        linkified(value)
    } else {
        value
    }
}

/// The markup of a row. The header cell opens with `<th>` and closes with
/// `</td>`; nothing in the key or the value is escaped, and nothing follows
/// the closing `</tr>`.
pub open spec fn row_text(key: Seq<char>, value: Seq<char>) -> Seq<char> {
    "<tr><th>"@ + key + "</td><td>"@ + cell_text(key, value) + "</td></tr>"@
}

/// The rows of some entries: one for each, in their order.
pub open spec fn rows<'a>(entries: Seq<(Seq<char>, Seq<char>)>) -> Seq<Shape<'a>> {
    entries.map_values(|entry: (Seq<char>, Seq<char>)| Shape::Html(row_text(entry.0, entry.1)))
}

/// The events of a table: the start of an HTML block, the opening tag, the
/// rows, the closing tag, the end of the block.
pub open spec fn table<'a>(entries: Seq<(Seq<char>, Seq<char>)>) -> Seq<Shape<'a>> {
    seq![Shape::HtmlBlockStart, Shape::Html("<table class=\"preamble\">\n"@)] + rows(entries)
        + seq![Shape::Html("</table>\n"@), Shape::HtmlBlockEnd]
}

/// Every entry has a row of its own, at its place among the rows, whether
/// or not its key came before: a table of `n` entries is `n + 4` events, and
/// the row of entry `i` is event `i + 2`.
pub proof fn law_one_row_per_entry(entries: Seq<(Seq<char>, Seq<char>)>)
    ensures
        rows(entries).len() == entries.len(),
        table(entries).len() == entries.len() + 4,
        table(entries)[0] == Shape::HtmlBlockStart,
        table(entries)[1] == Shape::Html("<table class=\"preamble\">\n"@),
        forall|i: int|
            0 <= i < entries.len() ==> #[trigger] table(entries)[i + 2] == Shape::Html(
                row_text(entries[i].0, entries[i].1),
            ),
        table(entries)[entries.len() as int + 2] == Shape::Html("</table>\n"@),
        table(entries)[entries.len() as int + 3] == Shape::HtmlBlockEnd,
{
}

/// Writes the row of an entry.
pub fn row_markup(key: &str, value: &str) -> (out: String)
    ensures
        out@ == row_text(key@, value@),
{
    let mut out = String::from_str("<tr><th>");
    out.append(key);
    out.append("</td><td>");
    if same_text(key, "author") {
        let linked = linkify_text(value);
        out.append(linked.as_str());
    } else {
        out.append(value);
    }
    out.append("</td></tr>");
    out
}

/// Renders entries as the events of a table.
pub fn create_html_table_events<'a>(frontmatter: Vec<(String, String)>) -> (events: Vec<Event<'a>>)
    ensures
        shapes(events@) == table(entry_texts(frontmatter@)),
{
    let ghost entries = entry_texts(frontmatter@);
    let mut events: Vec<Event<'a>> = Vec::new();
    events.push(html_block_start());
    events.push(html_fragment(String::from_str("<table class=\"preamble\">\n")));
    let ghost head = shapes(events@);
    proof {
        assert(head =~= seq![
            Shape::HtmlBlockStart,
            Shape::Html("<table class=\"preamble\">\n"@),
        ]);
    }
    let mut i: usize = 0;
    while i < frontmatter.len()
        invariant
            i <= frontmatter.len(),
            entries == entry_texts(frontmatter@),
            shapes(events@) == head + rows(entries.take(i as int)),
        decreases frontmatter.len() - i,
    {
        let ghost before = events@;
        let row = row_markup(frontmatter[i].0.as_str(), frontmatter[i].1.as_str());
        events.push(html_fragment(row));
        proof {
            assert(shapes(events@) =~= shapes(before).push(
                Shape::Html(row_text(entries[i as int].0, entries[i as int].1)),
            ));
            assert(rows::<'a>(entries.take(i + 1)) =~= rows::<'a>(entries.take(i as int)).push(
                Shape::Html(row_text(entries[i as int].0, entries[i as int].1)),
            ));
        }
        i = i + 1;
    }
    let ghost body = events@;
    events.push(html_fragment(String::from_str("</table>\n")));
    let ghost closed = events@;
    events.push(html_block_end());
    proof {
        assert(entries.take(i as int) =~= entries);
        assert(shapes(closed) =~= shapes(body).push(Shape::Html("</table>\n"@)));
        assert(shapes(events@) =~= shapes(closed).push(Shape::HtmlBlockEnd));
        assert(shapes(events@) =~= table::<'a>(entries));
    }
    events
}

} // verus!
