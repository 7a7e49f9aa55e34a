use process_frontmatter::scanner::scan_events;
use pulldown_cmark::{CowStr, Event, HeadingLevel, LinkType, Tag, TagEnd};

fn text(content: &str) -> Event<'static> {
    Event::Text(CowStr::Boxed(content.into()))
}

fn html(markup: &str) -> Event<'static> {
    Event::Html(CowStr::Boxed(markup.into()))
}

fn table(rows: &[&str]) -> Vec<Event<'static>> {
    let mut events = vec![Event::Start(Tag::HtmlBlock), html("<table class=\"preamble\">\n")];
    for row in rows {
        events.push(html(row));
    }
    events.push(html("</table>\n"));
    events.push(Event::End(TagEnd::HtmlBlock));
    events
}

#[test]
fn events_without_a_delimiter_come_out_unchanged() {
    let events = vec![
        Event::Start(Tag::Heading { level: HeadingLevel::H1, id: None, classes: vec![], attrs: vec![] }),
        text("Title"),
        Event::End(TagEnd::Heading(HeadingLevel::H1)),
        Event::Start(Tag::Paragraph),
        text("key: value"),
        Event::SoftBreak,
        Event::Code("+++".into()),
        Event::HardBreak,
        html("<b>+++</b>"),
        Event::Rule,
        Event::End(TagEnd::Paragraph),
    ];
    assert_eq!(scan_events(events.clone()), events);
}

#[test]
fn no_events_give_no_events() {
    assert_eq!(scan_events(vec![]), Vec::<Event>::new());
}

#[test]
fn block_becomes_a_table_and_the_body_follows_unchanged() {
    let events = vec![
        Event::Start(Tag::Paragraph),
        text("+++"),
        Event::SoftBreak,
        text("author: Jane (@jane)"),
        Event::SoftBreak,
        text("date: 2024-01-01"),
        Event::SoftBreak,
        text("+++"),
        Event::SoftBreak,
        text("Body text"),
        Event::End(TagEnd::Paragraph),
    ];
    let mut expected = vec![Event::Start(Tag::Paragraph)];
    expected.extend(table(&[
        "<tr><th>author</td><td>Jane (<a href=\"https://github.com/jane\">@jane</a>)</td></tr>",
        "<tr><th>date</td><td>2024-01-01</td></tr>",
    ]));
    expected.push(Event::SoftBreak);
    expected.push(text("Body text"));
    expected.push(Event::End(TagEnd::Paragraph));
    assert_eq!(scan_events(events), expected);
}

#[test]
fn what_follows_an_unclosed_delimiter_is_lost() {
    let events = vec![
        Event::Start(Tag::Paragraph),
        text("Before"),
        Event::End(TagEnd::Paragraph),
        Event::Start(Tag::Paragraph),
        text("+++"),
        Event::SoftBreak,
        text("author: Jane"),
        Event::End(TagEnd::Paragraph),
        Event::Start(Tag::Paragraph),
        text("Body text"),
        Event::End(TagEnd::Paragraph),
    ];
    assert_eq!(
        scan_events(events),
        vec![
            Event::Start(Tag::Paragraph),
            text("Before"),
            Event::End(TagEnd::Paragraph),
            Event::Start(Tag::Paragraph),
        ]
    );
}

#[test]
fn third_delimiter_opens_a_block_that_swallows_the_rest() {
    let events = vec![
        text("+++"),
        text("a: 1"),
        text("+++"),
        text("kept"),
        text("+++"),
        text("b: 2"),
        Event::Rule,
        text("lost"),
    ];
    let mut expected = table(&["<tr><th>a</td><td>1</td></tr>"]);
    expected.push(text("kept"));
    assert_eq!(scan_events(events), expected);
}

#[test]
fn lone_delimiter_gives_nothing() {
    assert_eq!(scan_events(vec![text("+++")]), Vec::<Event>::new());
}

#[test]
fn empty_block_gives_an_empty_table() {
    assert_eq!(scan_events(vec![text("+++"), text("+++")]), table(&[]));
}

#[test]
fn events_other_than_text_inside_a_block_are_dropped() {
    let events = vec![
        text("+++"),
        Event::SoftBreak,
        Event::Start(Tag::Emphasis),
        text("title: Emphasis"),
        Event::End(TagEnd::Emphasis),
        Event::Code("code: dropped".into()),
        html("html: dropped"),
        Event::HardBreak,
        text("+++"),
    ];
    assert_eq!(scan_events(events), table(&["<tr><th>title</td><td>Emphasis</td></tr>"]));
}

#[test]
fn lines_without_a_colon_give_no_row() {
    let events = vec![
        text("+++"),
        text("a: 1"),
        text("no colon"),
        text("b: 2"),
        text(""),
        text("c: 3"),
        text("+++"),
    ];
    assert_eq!(
        scan_events(events),
        table(&[
            "<tr><th>a</td><td>1</td></tr>",
            "<tr><th>b</td><td>2</td></tr>",
            "<tr><th>c</td><td>3</td></tr>",
        ])
    );
}

#[test]
fn equal_keys_give_rows_of_their_own() {
    let events = vec![text("+++"), text("tag: one"), text("tag: two"), text("tag: one"), text("+++")];
    assert_eq!(
        scan_events(events),
        table(&[
            "<tr><th>tag</td><td>one</td></tr>",
            "<tr><th>tag</td><td>two</td></tr>",
            "<tr><th>tag</td><td>one</td></tr>",
        ])
    );
}

#[test]
fn delimiter_is_the_whole_text_of_a_text_event() {
    let events = vec![
        text("+++ "),
        text(" +++"),
        text("++++"),
        text("++"),
        text("a +++ b"),
        Event::Code("+++".into()),
        html("+++"),
        Event::InlineHtml("+++".into()),
    ];
    assert_eq!(scan_events(events.clone()), events);
}

#[test]
fn borrowed_and_owned_delimiters_are_the_same() {
    let events = vec![Event::Text(CowStr::Borrowed("+++")), text("k: v"), Event::Text("+++".into())];
    assert_eq!(scan_events(events), table(&["<tr><th>k</td><td>v</td></tr>"]));
}

#[test]
fn two_blocks_give_two_tables() {
    let events = vec![
        text("+++"),
        text("a: 1"),
        text("+++"),
        Event::Rule,
        text("+++"),
        text("b: 2"),
        text("+++"),
        text("end"),
    ];
    let mut expected = table(&["<tr><th>a</td><td>1</td></tr>"]);
    expected.push(Event::Rule);
    expected.extend(table(&["<tr><th>b</td><td>2</td></tr>"]));
    expected.push(text("end"));
    assert_eq!(scan_events(events), expected);
}

#[test]
fn lines_of_one_block_do_not_reach_the_next() {
    let events = vec![text("+++"), text("a: 1"), text("+++"), text("+++"), text("+++")];
    let mut expected = table(&["<tr><th>a</td><td>1</td></tr>"]);
    expected.extend(table(&[]));
    assert_eq!(scan_events(events), expected);
}

#[test]
fn events_outside_a_block_keep_what_they_hold() {
    let link = Event::Start(Tag::Link {
        link_type: LinkType::Inline,
        dest_url: "https://example.com".into(),
        title: "a title".into(),
        id: "".into(),
    });
    let events = vec![
        link.clone(),
        text("here"),
        Event::End(TagEnd::Link),
        text("+++"),
        text("+++"),
        Event::TaskListMarker(true),
        Event::FootnoteReference("note".into()),
    ];
    let mut expected = vec![link, text("here"), Event::End(TagEnd::Link)];
    expected.extend(table(&[]));
    expected.push(Event::TaskListMarker(true));
    expected.push(Event::FootnoteReference("note".into()));
    assert_eq!(scan_events(events), expected);
}

#[test]
fn scanning_twice_changes_nothing_more() {
    let events = vec![
        text("intro"),
        text("+++"),
        text("author: Jane (@jane)"),
        Event::SoftBreak,
        text("+++"),
        text("body"),
        text("+++"),
        text("lost"),
    ];
    let once = scan_events(events);
    assert_eq!(once.len(), 7);
    assert_eq!(scan_events(once.clone()), once);
}
