//! What holds of every search, stated over the model and proved.

use vstd::prelude::*;
use crate::fold::lowercase_of;
use crate::search::{line_matches, line_views, search_result};
use crate::selection::{
    is_selection,
    kept_indices,
    lemma_filter_is_selection,
    lemma_filter_keeps_all,
    lemma_filter_of_wider_filter,
};
use crate::text::{has_substring, lemma_empty_needle, lines_of};

verus! {

/// A search returns exactly the lines that match: there are indices into the
/// lines of the text, rising, that are the indices of all the matching lines
/// and of no others, and the result holds the lines at these indices, one
/// after the other. So every matching line is returned as often as it stands
/// in the text, nothing else is returned, and the order of the text is kept.
pub proof fn lemma_search_selects_matching_lines(
    query: Seq<char>,
    text: Seq<char>,
    ignore_case: bool,
)
    ensures
        is_selection(
            search_result(query, text, ignore_case),
            lines_of(text),
            |line: Seq<char>| line_matches(query, line, ignore_case),
            kept_indices(lines_of(text), |line: Seq<char>| line_matches(query, line, ignore_case)),
        ),
{
    lemma_filter_is_selection(
        lines_of(text),
        |line: Seq<char>| line_matches(query, line, ignore_case),
    );
}

/// Every line that a search returns is a line of the text, character for
/// character, and matches the query; every line of the text that matches the
/// query is returned. This holds in either case mode: ignoring case changes
/// which lines match, never what a returned line holds.
pub proof fn lemma_results_are_matching_lines(query: Seq<char>, text: Seq<char>, ignore_case: bool)
    ensures
        forall|i: int|
            0 <= i < search_result(query, text, ignore_case).len() ==> {
                &&& lines_of(text).contains(#[trigger] search_result(query, text, ignore_case)[i])
                &&& line_matches(query, search_result(query, text, ignore_case)[i], ignore_case)
            },
        forall|k: int|
            0 <= k < lines_of(text).len() && line_matches(
                query,
                #[trigger] lines_of(text)[k],
                ignore_case,
            ) ==> search_result(query, text, ignore_case).contains(lines_of(text)[k]),
{
    let lines = lines_of(text);
    let found = search_result(query, text, ignore_case);
    let pred = |line: Seq<char>| line_matches(query, line, ignore_case);
    let at = kept_indices(lines, pred);
    lemma_filter_is_selection(lines, pred);
    assert forall|i: int| 0 <= i < found.len() implies lines.contains(#[trigger] found[i])
        && line_matches(query, found[i], ignore_case) by {
        assert(found[i] == lines[at[i]]);
        assert(at.contains(at[i]));
        assert(pred(lines[at[i]]));
    }
    assert forall|k: int|
        0 <= k < lines.len() && line_matches(
            query,
            #[trigger] lines[k],
            ignore_case,
        ) implies found.contains(lines[k]) by {
        assert(pred(lines[k]));
        let i = choose|i: int| 0 <= i < at.len() && at[i] == k;
        assert(found[i] == lines[k]);
    }
}

/// Whether bringing `query` and the lines of `text` to lowercase keeps every
/// match: each line that holds `query` as written also holds it in lowercase.
pub open spec fn fold_keeps_matches(query: Seq<char>, text: Seq<char>) -> bool {
    forall|k: int|
        0 <= k < lines_of(text).len() && has_substring(#[trigger] lines_of(text)[k], query)
            ==> has_substring(lowercase_of(lines_of(text)[k]), lowercase_of(query))
}

/// Where folding keeps every match, a search that ignores case returns every
/// line that the exact search returns: the exact result is what is left of
/// the loose result when the lines that do not hold the query as written are
/// taken out. Folding does not keep every match in every text: a letter may
/// fold differently by its place in a word.
pub proof fn lemma_ignoring_case_finds_more(query: Seq<char>, text: Seq<char>)
    requires
        fold_keeps_matches(query, text),
    ensures
        search_result(query, text, false) == search_result(query, text, true).filter(
            |line: Seq<char>| line_matches(query, line, false),
        ),
        forall|i: int|
            0 <= i < search_result(query, text, false).len() ==> search_result(
                query,
                text,
                true,
            ).contains(#[trigger] search_result(query, text, false)[i]),
{
    let lines = lines_of(text);
    let exact = |line: Seq<char>| line_matches(query, line, false);
    let loose = |line: Seq<char>| line_matches(query, line, true);
    assert forall|k: int| 0 <= k < lines.len() && exact(#[trigger] lines[k]) implies loose(
        lines[k],
    ) by {}
    lemma_filter_of_wider_filter(lines, loose, exact);
    lemma_results_are_matching_lines(query, text, false);
    lemma_results_are_matching_lines(query, text, true);
    assert forall|i: int| 0 <= i < search_result(query, text, false).len() implies search_result(
        query,
        text,
        true,
    ).contains(#[trigger] search_result(query, text, false)[i]) by {
        let line = search_result(query, text, false)[i];
        assert(lines.contains(line));
        let k = choose|k: int| 0 <= k < lines.len() && lines[k] == line;
        assert(line_matches(query, lines[k], true));
    }
}

/// Searching again gives the same: two lists of lines that each are what a
/// search returns for one query, text and case mode hold the same lines in the
/// same order.
pub proof fn lemma_search_is_repeatable(
    query: Seq<char>,
    text: Seq<char>,
    ignore_case: bool,
    first: Seq<&str>,
    second: Seq<&str>,
)
    requires
        line_views(first) == search_result(query, text, ignore_case),
        line_views(second) == search_result(query, text, ignore_case),
    ensures
        first.len() == second.len(),
        forall|i: int| 0 <= i < first.len() ==> first[i]@ == second[i]@,
{
    assert(line_views(first).len() == first.len());
    assert(line_views(second).len() == second.len());
    assert forall|i: int| 0 <= i < first.len() implies first[i]@ == second[i]@ by {
        assert(line_views(first)[i] == line_views(second)[i]);
    }
}

/// A search for the empty query that heeds case returns every line.
pub proof fn lemma_empty_query_selects_all(text: Seq<char>)
    ensures
        search_result(Seq::empty(), text, false) == lines_of(text),
{
    let query = Seq::<char>::empty();
    let pred = |line: Seq<char>| line_matches(query, line, false);
    assert forall|i: int| 0 <= i < lines_of(text).len() implies pred(#[trigger] lines_of(text)[i]) by {
        lemma_empty_needle(lines_of(text)[i], query);
    }
    lemma_filter_keeps_all(lines_of(text), pred);
}

/// Where the lowercase form of `query` is empty, a search that ignores case
/// returns every line.
pub proof fn lemma_empty_fold_selects_all(query: Seq<char>, text: Seq<char>)
    requires
        lowercase_of(query).len() == 0,
    ensures
        search_result(query, text, true) == lines_of(text),
{
    let pred = |line: Seq<char>| line_matches(query, line, true);
    assert forall|i: int| 0 <= i < lines_of(text).len() implies pred(#[trigger] lines_of(text)[i]) by {
        lemma_empty_needle(lowercase_of(lines_of(text)[i]), lowercase_of(query));
    }
    lemma_filter_keeps_all(lines_of(text), pred);
}

/// The empty text has no lines, so a search in it returns nothing, whatever
/// the query and the case mode.
pub proof fn lemma_empty_text_has_no_results(query: Seq<char>, ignore_case: bool)
    ensures
        lines_of(Seq::empty()) == Seq::<Seq<char>>::empty(),
        search_result(query, Seq::empty(), ignore_case) == Seq::<Seq<char>>::empty(),
{
    let none = Seq::<Seq<char>>::empty();
    assert(lines_of(Seq::empty()) =~= none);
    assert(search_result(query, Seq::empty(), ignore_case) =~= none);
}

} // verus!
