//! Selecting the lines of a text that contain a query.
use vstd::prelude::*;

use crate::text::{contains_str, has_substring, lines_of, occurs_at, split_lines, views};

verus! {

/// How a line is compared with the query.
#[derive(Clone, Copy, Debug, PartialEq, Eq, Structural)]
pub enum MatchMode {
    /// The line holds the query exactly, character for character.
    CaseSensitive,
    /// The lowercased line holds the lowercased query.
    CaseInsensitive,
}

/// The lowercase form of a text, as `str::to_lowercase` computes it.
pub uninterp spec fn lower_of(s: Seq<char>) -> Seq<char>;

/// Relies on `str::to_lowercase`: its result depends on the characters of
/// `s` alone, and the lowercase form of an empty string is empty.
#[verifier::external_body]
fn lowercase(s: &str) -> (r: String)
    ensures
        r@ == lower_of(s@),
        s@.len() == 0 ==> r@.len() == 0,
{
    s.to_lowercase()
}

/// Whether `line` matches `query` under `mode`.
pub open spec fn line_matches(line: Seq<char>, query: Seq<char>, mode: MatchMode) -> bool {
    match mode {
        MatchMode::CaseSensitive => has_substring(line, query),
        MatchMode::CaseInsensitive => has_substring(lower_of(line), lower_of(query)),
    }
}

/// The lines among `lines` that match `query` under `mode`, in their order.
pub open spec fn select(lines: Seq<Seq<char>>, query: Seq<char>, mode: MatchMode) -> Seq<
    Seq<char>,
>
    decreases lines.len(),
{
    if lines.len() == 0 {
        seq![]
    } else {
        let kept = select(lines.drop_last(), query, mode);
        if line_matches(lines.last(), query, mode) {
            kept.push(lines.last())
        } else {
            kept
        }
    }
}

/// The lines of `content` that match `query` under `mode`, in their order.
pub open spec fn matching_lines(query: Seq<char>, content: Seq<char>, mode: MatchMode) -> Seq<
    Seq<char>,
> {
    select(lines_of(content), query, mode)
}

/// Every line of `content` that matches `query` under `mode`, in the order
/// of `content`; each is a slice of `content`. An empty query matches every
/// line.
pub fn search_with_mode<'a>(query: &str, content: &'a str, mode: MatchMode) -> (r: Vec<&'a str>)
    ensures
        views(r@) == matching_lines(query@, content@, mode),
        query@.len() == 0 ==> views(r@) == lines_of(content@),
{
    let lines = split_lines(content);
    let folded_query: String = match mode {
        MatchMode::CaseSensitive => String::new(),
        MatchMode::CaseInsensitive => lowercase(query),
    };
    let mut out: Vec<&'a str> = Vec::new();
    let mut i: usize = 0;
    while i < lines.len()
        invariant
            i <= lines@.len(),
            views(lines@) == lines_of(content@),
            mode == MatchMode::CaseInsensitive ==> folded_query@ == lower_of(query@),
            query@.len() == 0 ==> folded_query@.len() == 0,
            views(out@) == select(views(lines@).take(i as int), query@, mode),
            query@.len() == 0 ==> views(out@) == views(lines@).take(i as int),
        decreases lines@.len() - i,
    {
        let line: &'a str = lines[i];
        let hit: bool = match mode {
            MatchMode::CaseSensitive => contains_str(line, query),
            MatchMode::CaseInsensitive => {
                let folded_line = lowercase(line);
                contains_str(folded_line.as_str(), folded_query.as_str())
            },
        };
        proof {
            if query@.len() == 0 {
                let target = match mode {
                    MatchMode::CaseSensitive => line@,
                    MatchMode::CaseInsensitive => lower_of(line@),
                };
                let pat = match mode {
                    MatchMode::CaseSensitive => query@,
                    MatchMode::CaseInsensitive => lower_of(query@),
                };
                assert(target.subrange(0, 0) =~= pat);
                assert(occurs_at(target, pat, 0));
            }
        }
        let ghost before = out@;
        if hit {
            out.push(line);
            assert(views(out@) =~= views(before).push(line@));
        }
        proof {
            let ls = views(lines@);
            assert(ls[i as int] == line@);
            assert(hit == line_matches(line@, query@, mode));
            assert(ls.take(i + 1).drop_last() =~= ls.take(i as int));
            assert(ls.take(i + 1).last() == line@);
            assert(views(out@) == select(ls.take(i + 1), query@, mode));
            if query@.len() == 0 {
                assert(views(out@) =~= ls.take(i + 1));
            }
        }
        i = i + 1;
    }
    assert(views(lines@).take(lines@.len() as int) =~= views(lines@));
    out
}

/// The lines of `contents` that contain `query` exactly, in their order.
pub fn search<'a>(query: &str, contents: &'a str) -> (r: Vec<&'a str>)
    ensures
        views(r@) == matching_lines(query@, contents@, MatchMode::CaseSensitive),
        query@.len() == 0 ==> views(r@) == lines_of(contents@),
{
    search_with_mode(query, contents, MatchMode::CaseSensitive)
}

/// The lines of `contents` whose lowercase form contains the lowercase form
/// of `query`, in their order.
pub fn search_case_sensitive<'a>(query: &str, contents: &'a str) -> (r: Vec<&'a str>)
    ensures
        views(r@) == matching_lines(query@, contents@, MatchMode::CaseInsensitive),
        query@.len() == 0 ==> views(r@) == lines_of(contents@),
{
    search_with_mode(query, contents, MatchMode::CaseInsensitive)
}

} // verus!
