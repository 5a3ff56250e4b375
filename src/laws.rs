use vstd::prelude::*;

use crate::search::{line_matches, matching_lines};
use crate::text::{has_substring, lines_of, lower_of, newline_from, strip_cr};

verus! {

/// `r` is made of the entries of `lines` at the strictly increasing
/// positions `idx`.
pub open spec fn picked_in_order(lines: Seq<Seq<char>>, idx: Seq<int>, r: Seq<Seq<char>>) -> bool {
    &&& idx.len() == r.len()
    &&& forall|i: int| 0 <= i < idx.len() ==> 0 <= #[trigger] idx[i] < lines.len()
    &&& forall|i: int| 0 <= i < idx.len() ==> r[i] == lines[#[trigger] idx[i]]
    &&& forall|i: int, j: int| 0 <= i < j < idx.len() ==> #[trigger] idx[i] < #[trigger] idx[j]
}

/// A line is matched exactly when it is one of the lines and matches.
proof fn lemma_matching_members(lines: Seq<Seq<char>>, query: Seq<char>, ignore_case: bool)
    ensures
        forall|x: Seq<char>|
            #[trigger] matching_lines(lines, query, ignore_case).contains(x) <==> (lines.contains(x)
                && line_matches(x, query, ignore_case)),
    decreases lines.len(),
{
    if lines.len() > 0 {
        let front = lines.drop_last();
        lemma_matching_members(front, query, ignore_case);
        let earlier = matching_lines(front, query, ignore_case);
        assert forall|x: Seq<char>| lines.contains(x) <==> (front.contains(x) || x == lines.last()) by {
            if lines.contains(x) {
                let k = choose|k: int| 0 <= k < lines.len() && lines[k] == x;
                if k < lines.len() - 1 {
                    assert(front[k] == x);
                }
            }
            if front.contains(x) {
                let k = choose|k: int| 0 <= k < front.len() && front[k] == x;
                assert(lines[k] == x);
            }
            if x == lines.last() {
                assert(lines[lines.len() - 1] == x);
            }
        }
        assert forall|x: Seq<char>, y: Seq<char>|
            #[trigger] earlier.push(y).contains(x) <==> (earlier.contains(x) || x == y) by {
            let p = earlier.push(y);
            if p.contains(x) {
                let k = choose|k: int| 0 <= k < p.len() && p[k] == x;
                if k < earlier.len() {
                    assert(earlier[k] == x);
                }
            }
            if earlier.contains(x) {
                let k = choose|k: int| 0 <= k < earlier.len() && earlier[k] == x;
                assert(p[k] == x);
            }
            if x == y {
                assert(p[earlier.len() as int] == x);
            }
        }
    }
}

/// The matched lines stand in `lines` at strictly increasing positions.
proof fn lemma_matching_positions(lines: Seq<Seq<char>>, query: Seq<char>, ignore_case: bool) -> (idx:
    Seq<int>)
    ensures
        picked_in_order(lines, idx, matching_lines(lines, query, ignore_case)),
    decreases lines.len(),
{
    if lines.len() == 0 {
        seq![]
    } else {
        let front = lines.drop_last();
        let earlier = lemma_matching_positions(front, query, ignore_case);
        if line_matches(lines.last(), query, ignore_case) {
            let idx = earlier.push(lines.len() - 1);
            assert forall|i: int| 0 <= i < idx.len() implies matching_lines(
                lines,
                query,
                ignore_case,
            )[i] == lines[#[trigger] idx[i]] by {
                if i < earlier.len() {
                    assert(idx[i] == earlier[i]);
                }
            }
            assert forall|i: int, j: int| 0 <= i < j < idx.len() implies #[trigger] idx[i]
                < #[trigger] idx[j] by {
                if j < earlier.len() {
                    assert(idx[i] == earlier[i] && idx[j] == earlier[j]);
                } else {
                    assert(idx[i] == earlier[i]);
                }
            }
            idx
        } else {
            earlier
        }
    }
}

/// Every line of a text is a run of consecutive characters of that text.
proof fn lemma_line_is_slice(s: Seq<char>, line: Seq<char>)
    requires
        lines_of(s).contains(line),
    ensures
        exists|a: int, b: int| 0 <= a <= b <= s.len() && #[trigger] s.subrange(a, b) == line,
    decreases s.len(),
{
    let k = newline_from(s, 0);
    if 0 <= k < s.len() {
        let first = strip_cr(s.subrange(0, k));
        let rest = s.subrange(k + 1, s.len() as int);
        let tail = lines_of(rest);
        assert(lines_of(s) == seq![first] + tail);
        let pos = choose|p: int| 0 <= p < lines_of(s).len() && lines_of(s)[p] == line;
        if pos == 0 {
            if k > 0 && s.subrange(0, k).last() == '\r' {
                assert(s.subrange(0, k - 1) =~= first);
            } else {
                assert(s.subrange(0, k) == first);
            }
        } else {
            assert(tail[pos - 1] == line);
            lemma_line_is_slice(rest, line);
            let (a, b) = choose|a: int, b: int|
                0 <= a <= b <= rest.len() && #[trigger] rest.subrange(a, b) == line;
            assert(s.subrange(a + k + 1, b + k + 1) =~= rest.subrange(a, b));
        }
    } else {
        assert(lines_of(s) == seq![s]);
        assert(s.subrange(0, s.len() as int) =~= s);
    }
}

/// A search keeps exactly the lines that match: each line it returns holds
/// the query, and each line of the text it leaves out does not.
pub proof fn law_search_exact(query: Seq<char>, contents: Seq<char>)
    ensures
        forall|i: int|
            0 <= i < matching_lines(lines_of(contents), query, false).len() ==> has_substring(
                #[trigger] matching_lines(lines_of(contents), query, false)[i],
                query,
            ),
        forall|line: Seq<char>|
            #[trigger] lines_of(contents).contains(line) && !matching_lines(
                lines_of(contents),
                query,
                false,
            ).contains(line) ==> !has_substring(line, query),
{
    let r = matching_lines(lines_of(contents), query, false);
    lemma_matching_members(lines_of(contents), query, false);
    assert forall|i: int| 0 <= i < r.len() implies has_substring(#[trigger] r[i], query) by {
        assert(r.contains(r[i]));
    }
}

/// Both searches keep the order of the text: the lines they return stand in
/// the text at strictly increasing positions.
pub proof fn law_order_kept(query: Seq<char>, contents: Seq<char>, ignore_case: bool)
    ensures
        exists|idx: Seq<int>|
            #[trigger] picked_in_order(
                lines_of(contents),
                idx,
                matching_lines(lines_of(contents), query, ignore_case),
            ),
{
    let idx = lemma_matching_positions(lines_of(contents), query, ignore_case);
    assert(picked_in_order(
        lines_of(contents),
        idx,
        matching_lines(lines_of(contents), query, ignore_case),
    ));
}

/// With an empty query a search returns all lines of the text, unchanged.
pub proof fn law_empty_query_keeps_all(contents: Seq<char>)
    ensures
        matching_lines(lines_of(contents), Seq::<char>::empty(), false) == lines_of(contents),
{
    lemma_empty_query_matches_all(lines_of(contents));
}

proof fn lemma_empty_query_matches_all(lines: Seq<Seq<char>>)
    ensures
        matching_lines(lines, Seq::<char>::empty(), false) == lines,
    decreases lines.len(),
{
    if lines.len() > 0 {
        lemma_empty_query_matches_all(lines.drop_last());
        let empty = Seq::<char>::empty();
        assert(lines.last().subrange(0, 0 + empty.len() as int) =~= empty);
        assert(has_substring(lines.last(), Seq::<char>::empty()));
        assert(lines.drop_last().push(lines.last()) =~= lines);
    }
}

/// A case-insensitive search returns lines as they stand in the text: each
/// one is a line of the text, and so a run of its characters, whose
/// lowercased form holds the lowercased query.
pub proof fn law_case_insensitive_keeps_original(query: Seq<char>, contents: Seq<char>)
    ensures
        forall|i: int|
            0 <= i < matching_lines(lines_of(contents), query, true).len() ==> {
                let line = #[trigger] matching_lines(lines_of(contents), query, true)[i];
                &&& lines_of(contents).contains(line)
                &&& exists|a: int, b: int|
                    0 <= a <= b <= contents.len() && #[trigger] contents.subrange(a, b) == line
                &&& has_substring(lower_of(line), lower_of(query))
            },
{
    let r = matching_lines(lines_of(contents), query, true);
    lemma_matching_members(lines_of(contents), query, true);
    assert forall|i: int| 0 <= i < r.len() implies lines_of(contents).contains(#[trigger] r[i])
        && has_substring(lower_of(r[i]), lower_of(query)) by {
        assert(r.contains(r[i]));
    }
    assert forall|i: int| 0 <= i < r.len() implies exists|a: int, b: int|
        0 <= a <= b <= contents.len() && #[trigger] contents.subrange(a, b) == #[trigger] r[i] by {
        lemma_line_is_slice(contents, r[i]);
    }
}

/// A search depends on its query, its text and its mode alone: run twice on
/// the same inputs it returns the same lines.
pub proof fn law_search_repeatable(
    query: Seq<char>,
    contents: Seq<char>,
    ignore_case: bool,
    first: Seq<Seq<char>>,
    second: Seq<Seq<char>>,
)
    requires
        first == matching_lines(lines_of(contents), query, ignore_case),
        second == matching_lines(lines_of(contents), query, ignore_case),
    ensures
        first == second,
{
}

} // verus!
