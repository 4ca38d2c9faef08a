//! Properties that relate the results of searches to one another and to the
//! lines of the text searched.
use vstd::prelude::*;

use crate::search::{line_matches, lower_of, matching_lines, select, MatchMode};
use crate::text::{lines_of, occurs_at};

verus! {

/// `idx` names, for each element of `sub`, the position in `full` that it
/// was taken from, and those positions increase.
pub open spec fn picked_in_order(sub: Seq<Seq<char>>, full: Seq<Seq<char>>, idx: Seq<int>) -> bool {
    &&& idx.len() == sub.len()
    &&& forall|i: int| 0 <= i < idx.len() ==> 0 <= #[trigger] idx[i] < full.len() && sub[i] == full[idx[i]]
    &&& forall|i: int, j: int| 0 <= i < j < idx.len() ==> idx[i] < idx[j]
}

/// Lowercasing `line` gives the lowercase text before an occurrence of
/// `query`, then the lowercase query, then the lowercase text after it.
pub open spec fn folds_around_occurrence(line: Seq<char>, query: Seq<char>) -> bool {
    exists|i: int|
        occurs_at(line, query, i) && lower_of(line) == lower_of(line.take(i)) + lower_of(query)
            + lower_of(line.skip(i + query.len()))
}

proof fn lemma_select_positions(lines: Seq<Seq<char>>, query: Seq<char>, mode: MatchMode) -> (idx:
    Seq<int>)
    ensures
        picked_in_order(select(lines, query, mode), lines, idx),
        forall|i: int|
            0 <= i < select(lines, query, mode).len() ==> line_matches(
                #[trigger] select(lines, query, mode)[i],
                query,
                mode,
            ),
        forall|j: int|
            0 <= j < lines.len() && line_matches(#[trigger] lines[j], query, mode) ==> exists|
                i: int,
            |
                0 <= i < idx.len() && idx[i] == j,
    decreases lines.len(),
{
    if lines.len() == 0 {
        seq![]
    } else {
        let front = lines.drop_last();
        let prev = lemma_select_positions(front, query, mode);
        let last = lines.len() - 1;
        if line_matches(lines.last(), query, mode) {
            let idx = prev.push(last);
            assert forall|j: int|
                0 <= j < lines.len() && line_matches(#[trigger] lines[j], query, mode) implies exists|
                i: int,
            |
                0 <= i < idx.len() && idx[i] == j by {
                if j < last {
                    assert(front[j] == lines[j]);
                    let i = choose|i: int| 0 <= i < prev.len() && prev[i] == j;
                    assert(idx[i] == j);
                } else {
                    assert(idx[idx.len() - 1] == j);
                }
            }
            idx
        } else {
            assert forall|j: int|
                0 <= j < lines.len() && line_matches(#[trigger] lines[j], query, mode) implies exists|
                i: int,
            |
                0 <= i < prev.len() && prev[i] == j by {
                assert(j != last);
                assert(front[j] == lines[j]);
            }
            prev
        }
    }
}

/// A search returns only lines of the content that match the query under
/// the chosen mode (exact containment, or containment after lowercasing
/// both), in their order in the content, and it leaves out none that match.
pub proof fn lemma_matches_are_lines_in_order(query: Seq<char>, content: Seq<char>, mode: MatchMode)
    ensures
        forall|i: int|
            0 <= i < matching_lines(query, content, mode).len() ==> line_matches(
                #[trigger] matching_lines(query, content, mode)[i],
                query,
                mode,
            ),
        exists|idx: Seq<int>|
            {
                &&& picked_in_order(matching_lines(query, content, mode), lines_of(content), idx)
                &&& forall|j: int|
                    0 <= j < lines_of(content).len() && line_matches(
                        #[trigger] lines_of(content)[j],
                        query,
                        mode,
                    ) ==> exists|i: int| 0 <= i < idx.len() && idx[i] == j
            },
{
    let idx = lemma_select_positions(lines_of(content), query, mode);
    assert(picked_in_order(matching_lines(query, content, mode), lines_of(content), idx));
}

/// Searching twice with the same query, content and mode gives the same
/// lines, element for element.
pub proof fn lemma_search_is_repeatable(
    query: Seq<char>,
    content: Seq<char>,
    mode: MatchMode,
    first: Seq<Seq<char>>,
    second: Seq<Seq<char>>,
)
    requires
        first == matching_lines(query, content, mode),
        second == matching_lines(query, content, mode),
    ensures
        first.len() == second.len(),
        forall|i: int| 0 <= i < first.len() ==> first[i] == second[i],
{
}

/// A content with no characters has no lines, so no search finds any.
pub proof fn lemma_empty_content_has_no_matches(query: Seq<char>, mode: MatchMode)
    ensures
        matching_lines(query, Seq::<char>::empty(), mode) == Seq::<Seq<char>>::empty(),
{
    assert(lines_of(Seq::<char>::empty()) =~= Seq::<Seq<char>>::empty());
}

/// A line that holds the query exactly also matches it ignoring case, where
/// lowercasing the line lowercases the text before and after one occurrence
/// of the query separately.
pub proof fn lemma_exact_match_matches_folded(line: Seq<char>, query: Seq<char>)
    requires
        line_matches(line, query, MatchMode::CaseSensitive),
        folds_around_occurrence(line, query),
    ensures
        line_matches(line, query, MatchMode::CaseInsensitive),
{
    let i = choose|i: int|
        occurs_at(line, query, i) && lower_of(line) == lower_of(line.take(i)) + lower_of(query)
            + lower_of(line.skip(i + query.len()));
    let at = lower_of(line.take(i)).len() as int;
    assert(lower_of(line).subrange(at, at + lower_of(query).len()) =~= lower_of(query));
    assert(occurs_at(lower_of(line), lower_of(query), at));
}

} // verus!
