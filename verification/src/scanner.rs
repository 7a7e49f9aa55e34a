//! The scan of a chapter's events: what stands between two `+++` texts is
//! read as frontmatter and replaced by its table.

use vstd::prelude::*;
use pulldown_cmark::Event;
use crate::events::{classify, shape_of, shapes, EventKind, Shape};
use crate::frontmatter::{
    entries_of, entry_of, law_one_entry_per_valid_line, line_texts, parse_frontmatter,
};
use crate::table::{create_html_table_events, law_one_row_per_entry, row_text, rows, table};
use crate::text::same_text;

verus! {

/// The text that opens and closes a frontmatter block.
pub open spec fn delimiter_text() -> Seq<char> {
    "+++"@
}

/// Whether an event is a delimiter: a text event whose whole text is `+++`.
pub open spec fn is_delimiter(shape: Shape) -> bool {
    shape == Shape::<'static>::Text(delimiter_text())
}

/// What the scan puts out for `events` when it starts them in the given
/// state: `capturing` says whether a block is open, `lines` holds the texts
/// taken in since it opened.
///
/// A delimiter is never put out; it closes an open block, whose table is put
/// out in its place, or opens one. Inside a block a text event becomes
/// a line and every other event is dropped. Outside, an event is put out as
/// it is. A block that is still open at the end puts out nothing.
pub open spec fn scan_from<'a>(
    events: Seq<Shape<'a>>,
    capturing: bool,
    lines: Seq<Seq<char>>,
) -> Seq<Shape<'a>>
    decreases events.len(),
{
    if events.len() == 0 {
        Seq::empty()
    } else {
        let rest = events.drop_first();
        if is_delimiter(events[0]) {
            if capturing {
                table(entries_of(lines)) + scan_from(rest, false, Seq::empty())
            } else {
                scan_from(rest, true, lines)
            }
        } else if capturing {
            match events[0] {
                Shape::Text(text) => scan_from(rest, true, lines.push(text)),
                _ => scan_from(rest, true, lines),
            }
        } else {
            seq![events[0]] + scan_from(rest, false, lines)
        }
    }
}

/// What the scan puts out for the events of a chapter.
pub open spec fn scan<'a>(events: Seq<Shape<'a>>) -> Seq<Shape<'a>> {
    scan_from(events, false, Seq::empty())
}

/// Scans a chapter's events and replaces each frontmatter block by its table.
/// Events outside a block come out as they went in, in their order. What
/// follows a delimiter that is never closed is lost.
pub fn scan_events<'a>(events: Vec<Event<'a>>) -> (out: Vec<Event<'a>>)
    ensures
        shapes(out@) == scan(shapes(events@)),
{
    let ghost source = events@;
    let ghost all = shapes(source);
    let mut capturing: bool = false;
    let mut lines: Vec<String> = Vec::new();
    let mut out: Vec<Event<'a>> = Vec::new();
    proof {
        assert(all.skip(0) =~= all);
        assert(line_texts(lines@) =~= Seq::<Seq<char>>::empty());
        assert(shapes(out@) + scan(all) =~= scan(all));
    }
    for event in it: events
        invariant
            it.seq() == source,
            all == shapes(source),
            shapes(out@) + scan_from(all.skip(it.index()), capturing, line_texts(lines@)) == scan(
                all,
            ),
    {
        let ghost index = it.index();
        let ghost emitted = shapes(out@);
        let ghost taken = line_texts(lines@);
        let ghost pending = all.skip(index);
        proof {
            assert(pending[0] == shape_of(event));
            assert(pending.drop_first() =~= all.skip(index + 1));
        }
        let ghost rest = all.skip(index + 1);
        let ghost after = scan_from(pending, capturing, taken);
        match classify(&event) {
            EventKind::Text(content) => {
                if same_text(content.as_str(), "+++") {
                    assert(is_delimiter(pending[0]));
                    if capturing {
                        let mut rendered = create_html_table_events(
                            parse_frontmatter(lines.as_slice()),
                        );
                        let ghost made = shapes(rendered@);
                        out.append(&mut rendered);
                        lines = Vec::new();
                        proof {
                            assert(shapes(out@) =~= emitted + made);
                            assert(line_texts(lines@) =~= Seq::<Seq<char>>::empty());
                            assert(after == made + scan_from(rest, false, Seq::empty()));
                            assert((emitted + made) + scan_from(rest, false, Seq::empty())
                                =~= emitted + after);
                        }
                    } else {
                        assert(after == scan_from(rest, true, taken));
                    }
                    capturing = !capturing;
                } else if capturing {
                    assert(!is_delimiter(pending[0]));
                    lines.push(content);
                    proof {
                        assert(line_texts(lines@) =~= taken.push(content@));
                        assert(after == scan_from(rest, true, taken.push(content@)));
                    }
                } else {
                    assert(!is_delimiter(pending[0]));
                    out.push(event);
                    proof {
                        assert(shapes(out@) =~= emitted.push(pending[0]));
                        assert(after == seq![pending[0]] + scan_from(rest, false, taken));
                        assert(emitted.push(pending[0]) + scan_from(rest, false, taken)
                            =~= emitted + after);
                    }
                }
            },
            _ => {
                assert(!is_delimiter(pending[0]));
                if !capturing {
                    out.push(event);
                    proof {
                        assert(shapes(out@) =~= emitted.push(pending[0]));
                        assert(after == seq![pending[0]] + scan_from(rest, false, taken));
                        assert(emitted.push(pending[0]) + scan_from(rest, false, taken)
                            =~= emitted + after);
                    }
                } else {
                    assert(after == scan_from(rest, true, taken));
                }
            },
        }
    }
    out
}

/// The delimiter as an event.
pub open spec fn delimiter<'a>() -> Shape<'a> {
    Shape::Text(delimiter_text())
}

/// None of the events is a delimiter.
pub open spec fn no_delimiter(events: Seq<Shape>) -> bool {
    forall|i: int| 0 <= i < events.len() ==> !is_delimiter(#[trigger] events[i])
}

/// How many of the events are delimiters.
pub open spec fn delimiters(events: Seq<Shape>) -> nat
    decreases events.len(),
{
    if events.len() == 0 {
        0
    } else if is_delimiter(events[0]) {
        1 + delimiters(events.drop_first())
    } else {
        delimiters(events.drop_first())
    }
}

/// Every block that opens among the events is closed among them.
pub open spec fn all_closed(events: Seq<Shape>) -> bool {
    delimiters(events) % 2 == 0
}

/// Where the last delimiter stands among the events; `-1` where there is
/// none.
pub open spec fn last_delimiter(events: Seq<Shape>) -> int
    decreases events.len(),
{
    if events.len() == 0 {
        -1
    } else if is_delimiter(events.last()) {
        events.len() - 1
    } else {
        last_delimiter(events.drop_last())
    }
}

/// The texts of the text events, in their order: the lines that a block
/// holding these events hands to the parser.
pub open spec fn captured(events: Seq<Shape>) -> Seq<Seq<char>>
    decreases events.len(),
{
    if events.len() == 0 {
        Seq::empty()
    } else {
        match events[0] {
            Shape::Text(text) => seq![text] + captured(events.drop_first()),
            _ => captured(events.drop_first()),
        }
    }
}

/// Whether a block is open after `events`, when one was (`capturing`) or
/// was not open before them.
pub open spec fn capturing_after(events: Seq<Shape>, capturing: bool) -> bool {
    if all_closed(events) {
        capturing
    } else {
        !capturing
    }
}

/// The lines taken in after `events`, started in the given state.
pub open spec fn lines_after(
    events: Seq<Shape>,
    capturing: bool,
    lines: Seq<Seq<char>>,
) -> Seq<Seq<char>>
    decreases events.len(),
{
    if events.len() == 0 {
        lines
    } else {
        let rest = events.drop_first();
        if is_delimiter(events[0]) {
            if capturing {
                lines_after(rest, false, Seq::empty())
            } else {
                lines_after(rest, true, lines)
            }
        } else if capturing {
            match events[0] {
                Shape::Text(text) => lines_after(rest, true, lines.push(text)),
                _ => lines_after(rest, true, lines),
            }
        } else {
            lines_after(rest, false, lines)
        }
    }
}

/// Scanning one run of events after another is scanning the first and then
/// the second in the state that the first has left.
pub proof fn lemma_scan_concat<'a>(
    first: Seq<Shape<'a>>,
    second: Seq<Shape<'a>>,
    capturing: bool,
    lines: Seq<Seq<char>>,
)
    ensures
        scan_from(first + second, capturing, lines) == scan_from(first, capturing, lines)
            + scan_from(
            second,
            capturing_after(first, capturing),
            lines_after(first, capturing, lines),
        ),
    decreases first.len(),
{
    if first.len() == 0 {
        assert(first + second =~= second);
        assert(scan_from(first, capturing, lines) + scan_from(second, capturing, lines)
            =~= scan_from(second, capturing, lines));
    } else {
        let all = first + second;
        let rest = first.drop_first();
        assert(all[0] == first[0]);
        assert(all.drop_first() =~= rest + second);
        if is_delimiter(first[0]) {
            if capturing {
                lemma_scan_concat(rest, second, false, Seq::empty());
                let block = table::<'a>(entries_of(lines));
                let tail = scan_from(
                    second,
                    capturing_after(rest, false),
                    lines_after(rest, false, Seq::empty()),
                );
                assert(block + (scan_from(rest, false, Seq::empty()) + tail) =~= (block
                    + scan_from(rest, false, Seq::empty())) + tail);
            } else {
                lemma_scan_concat(rest, second, true, lines);
            }
        } else if capturing {
            match first[0] {
                Shape::Text(text) => lemma_scan_concat(rest, second, true, lines.push(text)),
                _ => lemma_scan_concat(rest, second, true, lines),
            }
        } else {
            lemma_scan_concat(rest, second, false, lines);
            let tail = scan_from(
                second,
                capturing_after(rest, false),
                lines_after(rest, false, lines),
            );
            assert(seq![first[0]] + (scan_from(rest, false, lines) + tail) =~= (seq![first[0]]
                + scan_from(rest, false, lines)) + tail);
        }
    }
}

/// Outside a block, events without a delimiter come out as they are.
pub proof fn lemma_scan_keeps<'a>(events: Seq<Shape<'a>>, lines: Seq<Seq<char>>)
    requires
        no_delimiter(events),
    ensures
        scan_from(events, false, lines) == events,
        delimiters(events) == 0,
    decreases events.len(),
{
    if events.len() == 0 {
        assert(events =~= Seq::<Shape<'a>>::empty());
    } else {
        let rest = events.drop_first();
        assert(!is_delimiter(events[0]));
        assert forall|i: int| 0 <= i < rest.len() implies !is_delimiter(#[trigger] rest[i]) by {
            assert(rest[i] == events[i + 1]);
        }
        lemma_scan_keeps(rest, lines);
        assert(seq![events[0]] + rest =~= events);
    }
}

/// Inside a block, events without a delimiter put nothing out: their texts
/// are taken in as lines.
pub proof fn lemma_scan_captures<'a>(events: Seq<Shape<'a>>, lines: Seq<Seq<char>>)
    requires
        no_delimiter(events),
    ensures
        scan_from(events, true, lines) == Seq::<Shape<'a>>::empty(),
        lines_after(events, true, lines) == lines + captured(events),
    decreases events.len(),
{
    if events.len() == 0 {
        assert(lines + captured(events) =~= lines);
    } else {
        let rest = events.drop_first();
        assert(!is_delimiter(events[0]));
        assert forall|i: int| 0 <= i < rest.len() implies !is_delimiter(#[trigger] rest[i]) by {
            assert(rest[i] == events[i + 1]);
        }
        match events[0] {
            Shape::Text(text) => {
                lemma_scan_captures(rest, lines.push(text));
                assert(lines.push(text) + captured(rest) =~= lines + (seq![text] + captured(
                    rest,
                )));
            },
            _ => lemma_scan_captures(rest, lines),
        }
    }
}

/// The number of delimiters in two runs of events is the sum of their
/// numbers.
pub proof fn lemma_delimiters_concat(first: Seq<Shape>, second: Seq<Shape>)
    ensures
        delimiters(first + second) == delimiters(first) + delimiters(second),
    decreases first.len(),
{
    if first.len() == 0 {
        assert(first + second =~= second);
    } else {
        assert((first + second).drop_first() =~= first.drop_first() + second);
        lemma_delimiters_concat(first.drop_first(), second);
    }
}

/// No lines are left over where no block is open: after events within which
/// every block is closed, and after events that close the block that was
/// open before them.
pub proof fn lemma_no_lines_when_closed(events: Seq<Shape>, lines: Seq<Seq<char>>)
    ensures
        all_closed(events) ==> lines_after(events, false, Seq::empty()) == Seq::<
            Seq<char>,
        >::empty(),
        !all_closed(events) ==> lines_after(events, true, lines) == Seq::<Seq<char>>::empty(),
    decreases events.len(),
{
    if events.len() > 0 {
        let rest = events.drop_first();
        if is_delimiter(events[0]) {
            lemma_no_lines_when_closed(rest, Seq::empty());
        } else {
            match events[0] {
                Shape::Text(text) => lemma_no_lines_when_closed(rest, lines.push(text)),
                _ => lemma_no_lines_when_closed(rest, lines),
            }
        }
    }
}

/// A chapter without a delimiter is left as it is: every event comes out,
/// in its place.
pub proof fn law_without_delimiter_unchanged<'a>(events: Seq<Shape<'a>>)
    requires
        no_delimiter(events),
    ensures
        scan(events) == events,
{
    lemma_scan_keeps(events, Seq::empty());
}

/// A block between two delimiters is replaced by the table of its lines,
/// where it stood: what comes before it, within which every block is closed,
/// and what comes after it are scanned as if each stood alone. The lines
/// are the texts of the block's text events; its other events are dropped,
/// and so are the two delimiters.
pub proof fn law_block_becomes_table<'a>(
    before: Seq<Shape<'a>>,
    block: Seq<Shape<'a>>,
    after: Seq<Shape<'a>>,
)
    requires
        all_closed(before),
        no_delimiter(block),
    ensures
        scan(before + seq![delimiter()] + block + seq![delimiter()] + after) == scan(before)
            + table(entries_of(captured(block))) + scan(after),
{
    let open = seq![delimiter::<'a>()];
    let lines = lines_after(before, false, Seq::empty());
    let taken = lines_after(block, true, lines);
    let rendered = table::<'a>(entries_of(captured(block)));
    let none = Seq::<Shape<'a>>::empty();
    assert(before + open + block + open + after =~= before + (open + (block + (open + after))));
    lemma_scan_concat(before, open + (block + (open + after)), false, Seq::empty());
    // the opening delimiter
    assert((open + (block + (open + after)))[0] == delimiter::<'a>());
    assert((open + (block + (open + after))).drop_first() =~= block + (open + after));
    // the block
    lemma_scan_concat(block, open + after, true, lines);
    lemma_scan_captures(block, lines);
    lemma_scan_keeps(block, lines);
    assert(capturing_after(block, true));
    // the closing delimiter
    assert((open + after)[0] == delimiter::<'a>());
    assert((open + after).drop_first() =~= after);
    assert(scan_from(open + after, true, taken) == table::<'a>(entries_of(taken)) + scan(after));
    // the lines of the block: none are left over from before it
    lemma_no_lines_when_closed(before, Seq::empty());
    assert(taken =~= captured(block));
    assert(scan(before) + (none + (rendered + scan(after))) =~= scan(before) + rendered + scan(
        after,
    ));
}

/// A block of `n` lines that all hold a colon becomes a table of exactly
/// `n` rows, in the order of the lines; each row shows the trimmed key and
/// the trimmed value of its line.
pub proof fn law_rows_of_valid_lines<'a>(block: Seq<Shape<'a>>)
    requires
        no_delimiter(block),
        forall|i: int| 0 <= i < captured(block).len() ==> (#[trigger] captured(block)[i]).contains(':'),
    ensures
        scan(seq![delimiter()] + block + seq![delimiter()]) == table(entries_of(captured(block))),
        rows::<'a>(entries_of(captured(block))).len() == captured(block).len(),
        forall|i: int|
            0 <= i < captured(block).len() ==> {
                &&& entry_of(captured(block)[i]) matches Some(entry)
                &&& (#[trigger] rows::<'a>(entries_of(captured(block)))[i]) == Shape::<'a>::Html(
                    row_text(entry.0, entry.1),
                )
            },
{
    let lines = captured(block);
    let none = Seq::<Shape<'a>>::empty();
    law_block_becomes_table(none, block, none);
    assert(none + seq![delimiter::<'a>()] + block + seq![delimiter::<'a>()] + none =~= seq![
        delimiter::<'a>(),
    ] + block + seq![delimiter::<'a>()]);
    assert(scan(none) + table::<'a>(entries_of(lines)) + scan(none) =~= table::<'a>(
        entries_of(lines),
    ));
    law_one_entry_per_valid_line(lines);
    law_one_row_per_entry(entries_of(lines));
}

/// What follows a delimiter that is never closed is lost: where every block
/// before that delimiter is closed and no delimiter follows it, the scan
/// puts out what it puts out for the events before it, and nothing more.
pub proof fn law_unclosed_block_is_lost<'a>(before: Seq<Shape<'a>>, after: Seq<Shape<'a>>)
    requires
        all_closed(before),
        no_delimiter(after),
    ensures
        !all_closed(before + seq![delimiter()] + after),
        scan(before + seq![delimiter()] + after) == scan(before),
{
    let open = seq![delimiter::<'a>()];
    let lines = lines_after(before, false, Seq::empty());
    assert(before + open + after =~= before + (open + after));
    lemma_scan_concat(before, open + after, false, Seq::empty());
    assert((open + after)[0] == delimiter::<'a>());
    assert((open + after).drop_first() =~= after);
    lemma_scan_captures(after, lines);
    assert(scan(before) + Seq::<Shape<'a>>::empty() =~= scan(before));
    lemma_delimiters_concat(before, open + after);
    lemma_delimiters_concat(open, after);
    lemma_scan_keeps(after, Seq::empty());
    assert(open.drop_first() =~= Seq::<Shape<'a>>::empty());
    assert(delimiters(open.drop_first()) == 0);
    assert(delimiters(open) == 1);
}

/// Where delimiters stand among the events, the last of them is one, and
/// none follows it.
pub proof fn lemma_last_delimiter(events: Seq<Shape>)
    requires
        delimiters(events) > 0,
    ensures
        0 <= last_delimiter(events) < events.len(),
        is_delimiter(events[last_delimiter(events)]),
        no_delimiter(events.skip(last_delimiter(events) + 1)),
    decreases events.len(),
{
    if events.len() > 0 && !is_delimiter(events.last()) {
        let front = events.drop_last();
        let back = seq![events.last()];
        assert(front + back =~= events);
        lemma_delimiters_concat(front, back);
        assert(back.drop_first() =~= Seq::<Shape>::empty());
        assert(delimiters(back.drop_first()) == 0);
        assert(delimiters(back) == 0);
        lemma_last_delimiter(front);
        let last = last_delimiter(front);
        assert forall|i: int| 0 <= i < events.skip(last + 1).len() implies !is_delimiter(
            #[trigger] events.skip(last + 1)[i],
        ) by {
            if last + 1 + i < front.len() {
                assert(events.skip(last + 1)[i] == front.skip(last + 1)[i]);
            }
        }
    }
}

/// With an odd number of delimiters, the last of them opens a block that
/// nothing closes: the scan puts out what it puts out for the events before
/// that delimiter, and nothing of what follows it.
pub proof fn law_odd_delimiters_lose_the_rest<'a>(events: Seq<Shape<'a>>)
    requires
        delimiters(events) % 2 == 1,
    ensures
        0 <= last_delimiter(events) < events.len(),
        scan(events) == scan(events.take(last_delimiter(events))),
{
    lemma_last_delimiter(events);
    let last = last_delimiter(events);
    let before = events.take(last);
    let after = events.skip(last + 1);
    let open = seq![delimiter::<'a>()];
    assert(events[last] == delimiter::<'a>());
    assert(before + open + after =~= events);
    lemma_delimiters_concat(before, open + after);
    lemma_delimiters_concat(open, after);
    lemma_scan_keeps(after, Seq::empty());
    assert(before + open + after =~= before + (open + after));
    assert(open.drop_first() =~= Seq::<Shape<'a>>::empty());
    assert(delimiters(open.drop_first()) == 0);
    assert(delimiters(open) == 1);
    law_unclosed_block_is_lost(before, after);
}

/// No delimiter comes out of the scan.
pub proof fn law_output_has_no_delimiter<'a>(
    events: Seq<Shape<'a>>,
    capturing: bool,
    lines: Seq<Seq<char>>,
)
    ensures
        no_delimiter(scan_from(events, capturing, lines)),
    decreases events.len(),
{
    if events.len() > 0 {
        let rest = events.drop_first();
        if is_delimiter(events[0]) {
            if capturing {
                law_output_has_no_delimiter(rest, false, Seq::empty());
                let block = table::<'a>(entries_of(lines));
                law_one_row_per_entry(entries_of(lines));
                assert forall|i: int| 0 <= i < block.len() implies !is_delimiter(
                    #[trigger] block[i],
                ) by {
                    if 2 <= i < block.len() - 2 {
                        assert(block[(i - 2) + 2] == block[i]);
                    }
                }
            } else {
                law_output_has_no_delimiter(rest, true, lines);
            }
        } else if capturing {
            match events[0] {
                Shape::Text(text) => law_output_has_no_delimiter(rest, true, lines.push(text)),
                _ => law_output_has_no_delimiter(rest, true, lines),
            }
        } else {
            law_output_has_no_delimiter(rest, false, lines);
        }
    }
}

/// Scanning what a scan has put out changes nothing.
pub proof fn law_scan_twice<'a>(events: Seq<Shape<'a>>)
    ensures
        scan(scan(events)) == scan(events),
{
    law_output_has_no_delimiter(events, false, Seq::empty());
    law_without_delimiter_unchanged(scan(events));
}

} // verus!
