//! Frontmatter lines and the entries they hold.

use vstd::prelude::*;
use crate::text::{trim, trimmed};

verus! {

/// Where `c` first stands in `s`; the length of `s` if it stands nowhere.
pub open spec fn position_of(s: Seq<char>, c: char) -> nat
    decreases s.len(),
{
    if s.len() == 0 || s[0] == c {
        0
    } else {
        1 + position_of(s.drop_first(), c)
    }
}

/// The key and the value of a line: what stands before its first colon and
/// what stands after it, each trimmed. A line without a colon has neither.
pub open spec fn entry_of(line: Seq<char>) -> Option<(Seq<char>, Seq<char>)> {
    let colon = position_of(line, ':') as int;
    if colon < line.len() {
        Some((trimmed(line.take(colon)), trimmed(line.skip(colon + 1))))
    } else {
        None
    }
}

/// The entries of some lines, in the order of the lines. A line without a
/// colon is passed over; a key that came before is kept again.
pub open spec fn entries_of(lines: Seq<Seq<char>>) -> Seq<(Seq<char>, Seq<char>)>
    decreases lines.len(),
{
    if lines.len() == 0 {
        Seq::empty()
    } else {
        match entry_of(lines.last()) {
            Some(entry) => entries_of(lines.drop_last()).push(entry),
            None => entries_of(lines.drop_last()),
        }
    }
}

/// An entry as its two texts.
pub open spec fn entry_view(entry: Option<(String, String)>) -> Option<(Seq<char>, Seq<char>)> {
    match entry {
        Some((key, value)) => Some((key@, value@)),
        None => None,
    }
}

/// Lines as their texts.
pub open spec fn line_texts(lines: Seq<String>) -> Seq<Seq<char>> {
    lines.map_values(|line: String| line@)
}

/// Entries as pairs of texts.
pub open spec fn entry_texts(entries: Seq<(String, String)>) -> Seq<(Seq<char>, Seq<char>)> {
    entries.map_values(|entry: (String, String)| (entry.0@, entry.1@))
}

/// The first place at which `c` stands is its position.
pub proof fn lemma_position_of(s: Seq<char>, c: char, k: int)
    requires
        0 <= k <= s.len(),
        forall|j: int| 0 <= j < k ==> #[trigger] s[j] != c,
        k == s.len() || s[k] == c,
    ensures
        position_of(s, c) == k,
    decreases k,
{
    if k > 0 {
        let rest = s.drop_first();
        assert forall|j: int| 0 <= j < k - 1 implies #[trigger] rest[j] != c by {
            assert(rest[j] == s[j + 1]);
        }
        lemma_position_of(rest, c, k - 1);
    }
}

/// A position is never past the end, and it is the end exactly when the
/// character stands nowhere.
pub proof fn lemma_position_of_bounds(s: Seq<char>, c: char)
    ensures
        position_of(s, c) <= s.len(),
        position_of(s, c) < s.len() <==> s.contains(c),
    decreases s.len(),
{
    if s.len() == 0 {
    } else if s[0] == c {
    } else {
        let rest = s.drop_first();
        lemma_position_of_bounds(rest, c);
        if rest.contains(c) {
            let j = choose|j: int| 0 <= j < rest.len() && rest[j] == c;
            assert(s[j + 1] == c);
        }
        if s.contains(c) {
            let j = choose|j: int| 0 <= j < s.len() && s[j] == c;
            assert(rest[j - 1] == c);
        }
    }
}

/// The entries of two runs of lines, one after the other, are the entries of
/// the first followed by those of the second.
pub proof fn lemma_entries_of_concat(first: Seq<Seq<char>>, second: Seq<Seq<char>>)
    ensures
        entries_of(first + second) == entries_of(first) + entries_of(second),
    decreases second.len(),
{
    if second.len() == 0 {
        assert(first + second =~= first);
        assert(entries_of(first) + entries_of(second) =~= entries_of(first));
    } else {
        let all = first + second;
        assert(all.drop_last() =~= first + second.drop_last());
        assert(all.last() == second.last());
        lemma_entries_of_concat(first, second.drop_last());
        match entry_of(second.last()) {
            Some(entry) => {
                assert((entries_of(first) + entries_of(second.drop_last())).push(entry)
                    =~= entries_of(first) + entries_of(second.drop_last()).push(entry));
            },
            None => {},
        }
    }
}

/// A line without a colon adds no entry, and the entries of the lines around
/// it stay as they are and in their order.
pub proof fn law_line_without_colon_adds_nothing(
    before: Seq<Seq<char>>,
    line: Seq<char>,
    after: Seq<Seq<char>>,
)
    requires
        !line.contains(':'),
    ensures
        entries_of(before + seq![line] + after) == entries_of(before) + entries_of(after),
        entries_of(before + seq![line] + after) == entries_of(before + after),
{
    lemma_position_of_bounds(line, ':');
    let single = seq![line];
    assert(single.drop_last() =~= Seq::<Seq<char>>::empty());
    assert(single.last() == line);
    assert(entries_of(single.drop_last()) =~= Seq::<(Seq<char>, Seq<char>)>::empty());
    assert(entries_of(single) =~= Seq::<(Seq<char>, Seq<char>)>::empty());
    lemma_entries_of_concat(before, single);
    lemma_entries_of_concat(before + single, after);
    lemma_entries_of_concat(before, after);
    assert(entries_of(before) + entries_of(single) =~= entries_of(before));
}

/// Where every line holds a colon, every line gives an entry: as many
/// entries as lines, and at the place of each line the entry of that line,
/// which is its trimmed key and its trimmed value. Equal keys give entries of
/// their own.
pub proof fn law_one_entry_per_valid_line(lines: Seq<Seq<char>>)
    requires
        forall|i: int| 0 <= i < lines.len() ==> (#[trigger] lines[i]).contains(':'),
    ensures
        entries_of(lines).len() == lines.len(),
        forall|i: int| 0 <= i < lines.len() ==> entry_of(lines[i]) == Some(
            #[trigger] entries_of(lines)[i],
        ),
    decreases lines.len(),
{
    if lines.len() > 0 {
        let front = lines.drop_last();
        assert forall|i: int| 0 <= i < front.len() implies (#[trigger] front[i]).contains(':') by {
            assert(front[i] == lines[i]);
        }
        law_one_entry_per_valid_line(front);
        assert(lines[lines.len() - 1].contains(':'));
        lemma_position_of_bounds(lines.last(), ':');
        assert forall|i: int| 0 <= i < lines.len() implies entry_of(lines[i]) == Some(
            #[trigger] entries_of(lines)[i],
        ) by {
            if i < front.len() {
                assert(front[i] == lines[i]);
                assert(entries_of(lines)[i] == entries_of(front)[i]);
            }
        }
    }
}

/// Splits `line` at its first colon into a trimmed key and a trimmed value.
/// A line without a colon gives nothing.
pub fn parse_line(line: &str) -> (entry: Option<(String, String)>)
    ensures
        entry_view(entry) == entry_of(line@),
{
    let n: usize = line.unicode_len();
    let mut colon: usize = 0;
    let mut found: bool = false;
    let mut i: usize = 0;
    for c in it: line.chars()
        invariant
            it.seq() == line@,
            n == line@.len(),
            i == it.index(),
            !found ==> forall|j: int| 0 <= j < i ==> #[trigger] line@[j] != ':',
            found ==> colon < i && line@[colon as int] == ':',
            found ==> forall|j: int| 0 <= j < colon ==> #[trigger] line@[j] != ':',
    {
        if !found && c == ':' {
            found = true;
            colon = i;
        }
        i = i + 1;
    }
    if found {
        proof {
            lemma_position_of(line@, ':', colon as int);
        }
        let key = trim(line.substring_char(0, colon));
        let value = trim(line.substring_char(colon + 1, n));
        Some((key, value))
    } else {
        proof {
            lemma_position_of(line@, ':', n as int);
        }
        None
    }
}

/// Reads the entries off the lines of a frontmatter block, in their order.
pub fn parse_frontmatter(frontmatter_text: &[String]) -> (entries: Vec<(String, String)>)
    ensures
        entry_texts(entries@) == entries_of(line_texts(frontmatter_text@)),
{
    let ghost texts = line_texts(frontmatter_text@);
    let mut entries: Vec<(String, String)> = Vec::new();
    let mut i: usize = 0;
    while i < frontmatter_text.len()
        invariant
            i <= frontmatter_text.len(),
            texts == line_texts(frontmatter_text@),
            entry_texts(entries@) == entries_of(texts.take(i as int)),
        decreases frontmatter_text.len() - i,
    {
        let ghost before = entries@;
        proof {
            assert(texts.take(i + 1).drop_last() =~= texts.take(i as int));
            assert(texts.take(i + 1).last() == frontmatter_text@[i as int]@);
        }
        match parse_line(frontmatter_text[i].as_str()) {
            Some(entry) => {
                let ghost pair = (entry.0@, entry.1@);
                entries.push(entry);
                proof {
                    assert(entry_texts(entries@) =~= entry_texts(before).push(pair));
                }
            },
            None => {},
        }
        i = i + 1;
    }
    proof {
        assert(texts.take(i as int) =~= texts);
    }
    entries
}

} // verus!
