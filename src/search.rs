use vstd::prelude::*;

use crate::text::{has_substring, lines_of, lower_of, lowercase, split_lines, str_contains};

verus! {

/// Whether one line matches the query: plain containment, or containment
/// after both sides are lowercased when `ignore_case` holds.
pub open spec fn line_matches(line: Seq<char>, query: Seq<char>, ignore_case: bool) -> bool {
    if ignore_case {
        has_substring(lower_of(line), lower_of(query))
    } else {
        has_substring(line, query)
    }
}

/// The lines that match the query, in their order and unchanged.
pub open spec fn matching_lines(lines: Seq<Seq<char>>, query: Seq<char>, ignore_case: bool) -> Seq<
    Seq<char>,
>
    decreases lines.len(),
{
    if lines.len() == 0 {
        seq![]
    } else {
        let earlier = matching_lines(lines.drop_last(), query, ignore_case);
        if line_matches(lines.last(), query, ignore_case) {
            earlier.push(lines.last())
        } else {
            earlier
        }
    }
}

/// The lines whose key, the entry at the same position of `keys`, contains
/// `needle`, in their order and unchanged.
pub open spec fn kept_by_key(lines: Seq<Seq<char>>, keys: Seq<Seq<char>>, needle: Seq<char>) -> Seq<
    Seq<char>,
>
    decreases lines.len(),
{
    if lines.len() == 0 {
        seq![]
    } else {
        let earlier = kept_by_key(lines.drop_last(), keys.drop_last(), needle);
        if has_substring(keys.last(), needle) {
            earlier.push(lines.last())
        } else {
            earlier
        }
    }
}

/// Selecting by keys is matching, when each key contains the needle exactly
/// where its line matches the query.
proof fn lemma_kept_is_matching(
    lines: Seq<Seq<char>>,
    keys: Seq<Seq<char>>,
    needle: Seq<char>,
    query: Seq<char>,
    ignore_case: bool,
)
    requires
        lines.len() == keys.len(),
        forall|i: int|
            0 <= i < lines.len() ==> has_substring(#[trigger] keys[i], needle) == line_matches(
                lines[i],
                query,
                ignore_case,
            ),
    ensures
        kept_by_key(lines, keys, needle) == matching_lines(lines, query, ignore_case),
    decreases lines.len(),
{
    if lines.len() > 0 {
        let n = lines.len() - 1;
        assert(keys.last() == keys[n]);
        lemma_kept_is_matching(lines.drop_last(), keys.drop_last(), needle, query, ignore_case);
    }
}

/// Keeps the lines whose key, the entry of `keys` at the same position,
/// contains `needle`.
pub fn select_matching<'a>(lines: &Vec<&'a str>, keys: &Vec<&str>, needle: &str) -> (r: Vec<
    &'a str,
>)
    requires
        lines.len() == keys.len(),
    ensures
        r.deep_view() == kept_by_key(lines.deep_view(), keys.deep_view(), needle@),
{
    let ghost all_lines = lines.deep_view();
    let ghost all_keys = keys.deep_view();
    let mut r: Vec<&'a str> = Vec::new();
    let mut i: usize = 0;
    while i < lines.len()
        invariant
            i <= lines.len(),
            lines.len() == keys.len(),
            all_lines == lines.deep_view(),
            all_keys == keys.deep_view(),
            r.deep_view() == kept_by_key(all_lines.take(i as int), all_keys.take(i as int), needle@),
        decreases lines.len() - i,
    {
        let ghost before = r.deep_view();
        let line = lines[i];
        if str_contains(keys[i], needle) {
            r.push(line);
            assert(r.deep_view() =~= before.push(line@));
        }
        proof {
            assert(all_lines.take(i + 1).drop_last() =~= all_lines.take(i as int));
            assert(all_keys.take(i + 1).drop_last() =~= all_keys.take(i as int));
            assert(all_lines.take(i + 1).last() == line@);
            assert(all_keys.take(i + 1).last() == keys[i as int]@);
        }
        i += 1;
    }
    proof {
        assert(all_lines.take(lines.len() as int) =~= all_lines);
        assert(all_keys.take(keys.len() as int) =~= all_keys);
    }
    r
}

/// The lines of `contents` that contain `query`, compared exactly, in their
/// order and as they stand in `contents`.
pub fn search<'a>(query: &str, contents: &'a str) -> (r: Vec<&'a str>)
    ensures
        r.deep_view() == matching_lines(lines_of(contents@), query@, false),
{
    let lines = split_lines(contents);
    let r = select_matching(&lines, &lines, query);
    proof {
        lemma_kept_is_matching(lines.deep_view(), lines.deep_view(), query@, query@, false);
    }
    r
}

/// The lines of `contents` that contain `query` once both are lowercased, in
/// their order and as they stand in `contents`, not lowercased.
pub fn search_case_insensitive<'a>(query: &str, contents: &'a str) -> (r: Vec<&'a str>)
    ensures
        r.deep_view() == matching_lines(lines_of(contents@), query@, true),
{
    let lines = split_lines(contents);
    let folded_query = lowercase(query);
    let mut folded: Vec<String> = Vec::new();
    let mut i: usize = 0;
    while i < lines.len()
        invariant
            i <= lines.len(),
            folded.len() == i,
            forall|j: int| 0 <= j < i ==> (#[trigger] folded[j])@ == lower_of(lines[j]@),
        decreases lines.len() - i,
    {
        folded.push(lowercase(lines[i]));
        i += 1;
    }
    let mut keys: Vec<&str> = Vec::new();
    let mut j: usize = 0;
    while j < folded.len()
        invariant
            j <= folded.len(),
            keys.len() == j,
            forall|k: int| 0 <= k < j ==> (#[trigger] keys[k])@ == folded[k]@,
        decreases folded.len() - j,
    {
        keys.push(folded[j].as_str());
        j += 1;
    }
    let r = select_matching(&lines, &keys, folded_query.as_str());
    proof {
        assert forall|k: int| 0 <= k < lines.len() implies has_substring(
            #[trigger] keys.deep_view()[k],
            folded_query@,
        ) == line_matches(lines.deep_view()[k], query@, true) by {
            assert(keys.deep_view()[k] == keys[k]@);
        }
        lemma_kept_is_matching(lines.deep_view(), keys.deep_view(), folded_query@, query@, true);
    }
    r
}

} // verus!
