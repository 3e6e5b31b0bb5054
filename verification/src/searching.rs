//! The two search operations over the lines of a text, and the mode switch
//! that selects between them.

use vstd::prelude::*;

use crate::lines::{lines_of, split_lines};
use crate::matching::{contains_seq, contains_str, lower_of, match_at, to_lowercase_string};

verus! {

/// The lines among `lines` that contain `query`, in order.
pub open spec fn matching_lines(lines: Seq<Seq<char>>, query: Seq<char>) -> Seq<Seq<char>>
    decreases lines.len(),
{
    if lines.len() == 0 {
        Seq::empty()
    } else {
        let rest = matching_lines(lines.drop_last(), query);
        if contains_seq(lines.last(), query) {
            rest.push(lines.last())
        } else {
            rest
        }
    }
}

/// The lines among `lines` whose lowercase folding contains `folded_query`,
/// in order. The lines themselves are kept unfolded.
pub open spec fn ci_matching_lines(lines: Seq<Seq<char>>, folded_query: Seq<char>) -> Seq<
    Seq<char>,
>
    decreases lines.len(),
{
    if lines.len() == 0 {
        Seq::empty()
    } else {
        let rest = ci_matching_lines(lines.drop_last(), folded_query);
        if contains_seq(lower_of(lines.last()), folded_query) {
            rest.push(lines.last())
        } else {
            rest
        }
    }
}

/// What a case-sensitive search returns: the lines of `contents` that contain
/// `query` verbatim.
pub open spec fn search_spec(query: Seq<char>, contents: Seq<char>) -> Seq<Seq<char>> {
    matching_lines(lines_of(contents), query)
}

/// What a case-insensitive search returns: the lines of `contents` whose
/// lowercase folding contains the lowercase folding of `query`.
pub open spec fn search_case_insensitive_spec(query: Seq<char>, contents: Seq<char>) -> Seq<
    Seq<char>,
> {
    ci_matching_lines(lines_of(contents), lower_of(query))
}

/// Case-sensitive search: the lines of `contents` that contain `query` as a
/// contiguous substring, as references into `contents`, in input order.
pub fn search<'a>(query: &str, contents: &'a str) -> (r: Vec<&'a str>)
    ensures
        r.deep_view() == search_spec(query@, contents@),
{
    let lines = split_lines(contents);
    let mut results: Vec<&'a str> = Vec::new();
    let n = lines.len();
    let mut i: usize = 0;
    proof {
        assert(results.deep_view() =~= matching_lines(lines.deep_view().take(0), query@));
    }
    while i < n
        invariant
            n == lines@.len(),
            i <= n,
            lines.deep_view() == lines_of(contents@),
            results.deep_view() == matching_lines(lines.deep_view().take(i as int), query@),
        decreases n - i,
    {
        let line = lines[i];
        let ghost prefix = results.deep_view();
        if contains_str(line, query) {
            results.push(line);
        }
        proof {
            let lv = lines.deep_view();
            assert(lv.take(i + 1).drop_last() =~= lv.take(i as int));
            assert(lv.take(i + 1).last() == line@);
            if contains_seq(line@, query@) {
                assert(results.deep_view() =~= prefix.push(line@));
            }
        }
        i = i + 1;
    }
    proof {
        assert(lines.deep_view().take(n as int) =~= lines.deep_view());
    }
    results
}

/// Case-insensitive search: the lines of `contents` whose lowercase folding
/// contains the lowercase folding of `query`, as references into the original
/// (unfolded) `contents`, in input order.
pub fn search_case_insensitive<'a>(query: &str, contents: &'a str) -> (r: Vec<&'a str>)
    ensures
        r.deep_view() == search_case_insensitive_spec(query@, contents@),
{
    let folded_query = to_lowercase_string(query);
    let lines = split_lines(contents);
    let mut results: Vec<&'a str> = Vec::new();
    let n = lines.len();
    let mut i: usize = 0;
    proof {
        assert(results.deep_view() =~= ci_matching_lines(
            lines.deep_view().take(0),
            lower_of(query@),
        ));
    }
    while i < n
        invariant
            n == lines@.len(),
            i <= n,
            lines.deep_view() == lines_of(contents@),
            folded_query@ == lower_of(query@),
            results.deep_view() == ci_matching_lines(
                lines.deep_view().take(i as int),
                lower_of(query@),
            ),
        decreases n - i,
    {
        let line = lines[i];
        let folded_line = to_lowercase_string(line);
        let ghost prefix = results.deep_view();
        if contains_str(folded_line.as_str(), folded_query.as_str()) {
            results.push(line);
        }
        proof {
            let lv = lines.deep_view();
            assert(lv.take(i + 1).drop_last() =~= lv.take(i as int));
            assert(lv.take(i + 1).last() == line@);
            if contains_seq(lower_of(line@), lower_of(query@)) {
                assert(results.deep_view() =~= prefix.push(line@));
            }
        }
        i = i + 1;
    }
    proof {
        assert(lines.deep_view().take(n as int) =~= lines.deep_view());
    }
    results
}

/// `xs` can be obtained from `ys` by deleting elements while keeping the
/// order of the rest.
pub open spec fn is_subsequence_of<A>(xs: Seq<A>, ys: Seq<A>) -> bool
    decreases ys.len(),
{
    if xs.len() == 0 {
        true
    } else if ys.len() == 0 {
        false
    } else {
        (xs.last() == ys.last() && is_subsequence_of(xs.drop_last(), ys.drop_last()))
            || is_subsequence_of(xs, ys.drop_last())
    }
}

proof fn lemma_matching_lines_sound(lines: Seq<Seq<char>>, query: Seq<char>)
    ensures
        is_subsequence_of(matching_lines(lines, query), lines),
        forall|i: int|
            0 <= i < matching_lines(lines, query).len() ==> contains_seq(
                #[trigger] matching_lines(lines, query)[i],
                query,
            ),
    decreases lines.len(),
{
    if lines.len() == 0 {
    } else {
        lemma_matching_lines_sound(lines.drop_last(), query);
        let rest = matching_lines(lines.drop_last(), query);
        if contains_seq(lines.last(), query) {
            assert(rest.push(lines.last()).drop_last() =~= rest);
        }
    }
}

proof fn lemma_ci_matching_lines_sound(lines: Seq<Seq<char>>, folded_query: Seq<char>)
    ensures
        is_subsequence_of(ci_matching_lines(lines, folded_query), lines),
        forall|i: int|
            0 <= i < ci_matching_lines(lines, folded_query).len() ==> contains_seq(
                lower_of(#[trigger] ci_matching_lines(lines, folded_query)[i]),
                folded_query,
            ),
    decreases lines.len(),
{
    if lines.len() == 0 {
    } else {
        lemma_ci_matching_lines_sound(lines.drop_last(), folded_query);
        let rest = ci_matching_lines(lines.drop_last(), folded_query);
        if contains_seq(lower_of(lines.last()), folded_query) {
            assert(rest.push(lines.last()).drop_last() =~= rest);
        }
    }
}

/// Case-sensitive search returns a subsequence of the text's lines, in their
/// original order, and every returned line contains the query verbatim.
pub proof fn lemma_search_sound(query: Seq<char>, contents: Seq<char>)
    ensures
        is_subsequence_of(search_spec(query, contents), lines_of(contents)),
        forall|i: int|
            0 <= i < search_spec(query, contents).len() ==> contains_seq(
                #[trigger] search_spec(query, contents)[i],
                query,
            ),
{
    lemma_matching_lines_sound(lines_of(contents), query);
    assert forall|i: int| 0 <= i < search_spec(query, contents).len() implies contains_seq(
        search_spec(query, contents)[i],
        query,
    ) by {
        assert(search_spec(query, contents)[i] == matching_lines(lines_of(contents), query)[i]);
    }
}

/// Case-insensitive search returns a subsequence of the text's lines,
/// unmodified and in their original order, and the lowercase folding of every
/// returned line contains the lowercase folding of the query.
pub proof fn lemma_search_case_insensitive_sound(query: Seq<char>, contents: Seq<char>)
    ensures
        is_subsequence_of(search_case_insensitive_spec(query, contents), lines_of(contents)),
        forall|i: int|
            0 <= i < search_case_insensitive_spec(query, contents).len() ==> contains_seq(
                lower_of(#[trigger] search_case_insensitive_spec(query, contents)[i]),
                lower_of(query),
            ),
{
    lemma_ci_matching_lines_sound(lines_of(contents), lower_of(query));
    assert forall|i: int|
        0 <= i < search_case_insensitive_spec(query, contents).len() implies contains_seq(
        lower_of(search_case_insensitive_spec(query, contents)[i]),
        lower_of(query),
    ) by {
        assert(search_case_insensitive_spec(query, contents)[i] == ci_matching_lines(
            lines_of(contents),
            lower_of(query),
        )[i]);
    }
}

proof fn lemma_matching_lines_empty_query(lines: Seq<Seq<char>>)
    ensures
        matching_lines(lines, Seq::empty()) == lines,
    decreases lines.len(),
{
    if lines.len() == 0 {
        assert(matching_lines(lines, Seq::empty()) =~= lines);
    } else {
        lemma_matching_lines_empty_query(lines.drop_last());
        assert(contains_seq(lines.last(), Seq::empty())) by {
            assert(match_at(lines.last(), Seq::empty(), 0));
        }
        assert(lines.drop_last().push(lines.last()) =~= lines);
    }
}

/// The empty query is a substring of every line, so a case-sensitive search
/// for it returns every line of the text.
pub proof fn lemma_empty_query_matches_every_line(contents: Seq<char>)
    ensures
        search_spec(Seq::empty(), contents) == lines_of(contents),
{
    lemma_matching_lines_empty_query(lines_of(contents));
}

/// An empty text has no lines, so both search modes return nothing on it,
/// whatever the query.
pub proof fn lemma_empty_text_matches_nothing(query: Seq<char>)
    ensures
        search_spec(query, Seq::empty()) == Seq::<Seq<char>>::empty(),
        search_case_insensitive_spec(query, Seq::empty()) == Seq::<Seq<char>>::empty(),
{
    assert(lines_of(Seq::empty()) =~= Seq::<Seq<char>>::empty());
}

proof fn lemma_ci_matching_lines_count(lines: Seq<Seq<char>>, query: Seq<char>)
    requires
        forall|i: int|
            0 <= i < lines.len() && contains_seq(#[trigger] lines[i], query) ==> contains_seq(
                lower_of(lines[i]),
                lower_of(query),
            ),
    ensures
        matching_lines(lines, query).len() <= ci_matching_lines(lines, lower_of(query)).len(),
    decreases lines.len(),
{
    if lines.len() == 0 {
    } else {
        assert forall|i: int|
            0 <= i < lines.drop_last().len() && contains_seq(
                #[trigger] lines.drop_last()[i],
                query,
            ) implies contains_seq(lower_of(lines.drop_last()[i]), lower_of(query)) by {
            assert(lines.drop_last()[i] == lines[i]);
        }
        lemma_ci_matching_lines_count(lines.drop_last(), query);
        if contains_seq(lines.last(), query) {
            assert(lines.last() == lines[lines.len() - 1]);
        }
    }
}

/// On lines where a verbatim occurrence of the query survives lowercase
/// folding, case-insensitive search matches at least as many lines as
/// case-sensitive search.
pub proof fn lemma_case_insensitive_is_superset(query: Seq<char>, contents: Seq<char>)
    requires
        forall|i: int|
            0 <= i < lines_of(contents).len() && contains_seq(
                #[trigger] lines_of(contents)[i],
                query,
            ) ==> contains_seq(lower_of(lines_of(contents)[i]), lower_of(query)),
    ensures
        search_spec(query, contents).len() <= search_case_insensitive_spec(query, contents).len(),
{
    lemma_ci_matching_lines_count(lines_of(contents), query);
}

/// Runs the search operation that `ignore_case` selects.
pub fn search_with_mode<'a>(query: &str, contents: &'a str, ignore_case: bool) -> (r: Vec<
    &'a str,
>)
    ensures
        ignore_case ==> r.deep_view() == search_case_insensitive_spec(query@, contents@),
        !ignore_case ==> r.deep_view() == search_spec(query@, contents@),
{
    if ignore_case {
        search_case_insensitive(query, contents)
    } else {
        search(query, contents)
    }
}

} // verus!
