//! White space, and trimming it off both ends of a text.

use vstd::prelude::*;
use vstd::std_specs::iter::IteratorSpec;

verus! {

/// Whether `c` is white space: the answer that `char::is_whitespace` gives for it.
pub uninterp spec fn white_space(c: char) -> bool;

/// Calls `char::is_whitespace`. Nothing is claimed of the answer but that it is
/// the one named `white_space(c)`: the same character always gets the same answer.
#[verifier::external_body]
pub(crate) fn is_whitespace(c: char) -> (b: bool)
    ensures
        b == white_space(c),
{
    c.is_whitespace()
}

/// `s` without the white space it starts with.
pub open spec fn trim_start(s: Seq<char>) -> Seq<char>
    decreases s.len(),
{
    if s.len() > 0 && white_space(s[0]) {
        trim_start(s.drop_first())
    } else {
        s
    }
}

/// `s` without the white space it ends with.
pub open spec fn trim_end(s: Seq<char>) -> Seq<char>
    decreases s.len(),
{
    if s.len() > 0 && white_space(s.last()) {
        trim_end(s.drop_last())
    } else {
        s
    }
}

/// `s` without the white space around it.
pub open spec fn trimmed(s: Seq<char>) -> Seq<char> {
    trim_end(trim_start(s))
}

/// Skipping `k` leading white-space characters that end at the first other
/// character is what `trim_start` does.
pub proof fn lemma_trim_start(s: Seq<char>, k: int)
    requires
        0 <= k <= s.len(),
        forall|j: int| 0 <= j < k ==> white_space(#[trigger] s[j]),
        k == s.len() || !white_space(s[k]),
    ensures
        trim_start(s) == s.skip(k),
    decreases k,
{
    if k == 0 {
        assert(s.skip(0) =~= s);
    } else {
        let rest = s.drop_first();
        assert forall|j: int| 0 <= j < k - 1 implies white_space(#[trigger] rest[j]) by {
            assert(rest[j] == s[j + 1]);
        }
        lemma_trim_start(rest, k - 1);
        assert(rest.skip(k - 1) =~= s.skip(k));
    }
}

/// Keeping the first `k` characters, where only white space follows and the
/// last one kept is none, is what `trim_end` does.
pub proof fn lemma_trim_end(s: Seq<char>, k: int)
    requires
        0 <= k <= s.len(),
        forall|j: int| k <= j < s.len() ==> white_space(#[trigger] s[j]),
        k == 0 || !white_space(s[k - 1]),
    ensures
        trim_end(s) == s.take(k),
    decreases s.len() - k,
{
    if k == s.len() {
        assert(s.take(k) =~= s);
    } else {
        let rest = s.drop_last();
        assert forall|j: int| k <= j < rest.len() implies white_space(#[trigger] rest[j]) by {
            assert(rest[j] == s[j]);
        }
        lemma_trim_end(rest, k);
        assert(rest.take(k) =~= s.take(k));
    }
}

/// Removes the white space around `s`.
pub fn trim(s: &str) -> (out: String)
    ensures
        out@ == trimmed(s@),
{
    let n: usize = s.unicode_len();
    let mut start: usize = 0;
    let mut end: usize = 0;
    let mut seen: bool = false;
    let mut i: usize = 0;
    for c in it: s.chars()
        invariant
            it.seq() == s@,
            n == s@.len(),
            i == it.index(),
            !seen ==> start == i && forall|j: int| 0 <= j < i ==> white_space(#[trigger] s@[j]),
            seen ==> start < end <= i,
            seen ==> !white_space(s@[start as int]) && !white_space(s@[end - 1]),
            seen ==> forall|j: int| 0 <= j < start ==> white_space(#[trigger] s@[j]),
            seen ==> forall|j: int| end <= j < i ==> white_space(#[trigger] s@[j]),
    {
        if is_whitespace(c) {
            if !seen {
                start = i + 1;
            }
        } else {
            seen = true;
            end = i + 1;
        }
        i = i + 1;
    }
    if seen {
        proof {
            lemma_trim_start(s@, start as int);
            let tail = s@.skip(start as int);
            assert forall|j: int| end - start <= j < tail.len() implies white_space(
                #[trigger] tail[j],
            ) by {
                assert(tail[j] == s@[start + j]);
            }
            assert(tail[end - start - 1] == s@[end - 1]);
            lemma_trim_end(tail, end - start);
            assert(tail.take(end - start) =~= s@.subrange(start as int, end as int));
        }
        String::from_str(s.substring_char(start, end))
    } else {
        proof {
            lemma_trim_start(s@, n as int);
            assert(s@.skip(n as int) =~= Seq::<char>::empty());
        }
        String::new()
    }
}

/// Tells whether two texts are the same, character by character.
pub fn same_text(left: &str, right: &str) -> (same: bool)
    ensures
        same == (left@ == right@),
{
    broadcast use vstd::string::group_string_axioms;

    let mut others = right.chars();
    let mut same: bool = true;
    for c in it: left.chars()
        invariant
            it.seq() == left@,
            others.obeys_prophetic_iter_laws(),
            same ==> it.index() <= right@.len(),
            same ==> others.remaining() == right@.skip(it.index()),
            same ==> left@.take(it.index()) == right@.take(it.index()),
            !same ==> left@ != right@,
    {
        if same {
            let ghost index = it.index();
            match others.next() {
                Some(other) => {
                    if c == other {
                        proof {
                            assert(right@.skip(index).drop_first() =~= right@.skip(index + 1));
                            assert(left@.take(index + 1) =~= left@.take(index).push(c));
                            assert(right@.take(index + 1) =~= right@.take(index).push(other));
                        }
                    } else {
                        same = false;
                    }
                },
                None => {
                    same = false;
                },
            }
        }
    }
    if same {
        let none = others.next();
        proof {
            assert(left@.take(left@.len() as int) =~= left@);
            if none is None {
                assert(right@.skip(left@.len() as int).len() == 0);
                assert(right@.take(left@.len() as int) =~= right@);
            } else {
                assert(right@.len() > left@.len());
            }
        }
        none.is_none()
    } else {
        false
    }
}

} // verus!
