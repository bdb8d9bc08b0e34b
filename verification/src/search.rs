//! The search itself: the lines of a text that hold a query.

use vstd::prelude::*;
use crate::config::Config;
use crate::find::contains;
use crate::fold::lowercase_of;
use crate::laws::{
    lemma_empty_fold_selects_all,
    lemma_empty_query_selects_all,
    lemma_empty_text_has_no_results,
};
use crate::lines::split_first_line;
use crate::text::{after_first_line, first_line, has_substring, lemma_first_newline, lines_of};

verus! {

/// Whether `line` holds `query`: as it stands, or, where case is ignored,
/// after both were brought to lowercase.
pub open spec fn line_matches(query: Seq<char>, line: Seq<char>, ignore_case: bool) -> bool {
    if ignore_case {
        has_substring(lowercase_of(line), lowercase_of(query))
    } else {
        has_substring(line, query)
    }
}

/// The lines of `text` that hold `query`, each as it stands in `text`, in the
/// order in which they stand there.
pub open spec fn search_result(query: Seq<char>, text: Seq<char>, ignore_case: bool) -> Seq<
    Seq<char>,
> {
    lines_of(text).filter(|line: Seq<char>| line_matches(query, line, ignore_case))
}

/// The character sequences of a list of strings.
pub open spec fn line_views(lines: Seq<&str>) -> Seq<Seq<char>> {
    lines.map_values(|line: &str| line@)
}

/// The result for a non-empty text is the first line, if it matches, followed
/// by the result for what comes after the first line.
pub proof fn lemma_search_result_step(query: Seq<char>, text: Seq<char>, ignore_case: bool)
    requires
        text.len() > 0,
    ensures
        after_first_line(text).len() < text.len(),
        search_result(query, text, ignore_case) == (if line_matches(
            query,
            first_line(text),
            ignore_case,
        ) {
            seq![first_line(text)]
        } else {
            Seq::empty()
        }) + search_result(query, after_first_line(text), ignore_case),
{
    lemma_first_newline(text);
    let pred = |line: Seq<char>| line_matches(query, line, ignore_case);
    let one = seq![first_line(text)];
    let later = lines_of(after_first_line(text));
    assert(lines_of(text) == one + later);
    Seq::filter_distributes_over_add(one, later, pred);
    reveal_with_fuel(Seq::filter, 2);
    assert(one.drop_last() =~= Seq::<Seq<char>>::empty());
    assert(one.last() == first_line(text));
    if pred(first_line(text)) {
        assert(one.filter(pred) =~= one);
    } else {
        assert(one.filter(pred) =~= Seq::<Seq<char>>::empty());
    }
}

/// The lines of `contents` that hold `query` exactly as it is written, in the
/// order of `contents`. Each returned line is a piece of `contents`.
pub fn search<'a>(query: &str, contents: &'a str) -> (results: Vec<&'a str>)
    ensures
        line_views(results@) == search_result(query@, contents@, false),
        query@.len() == 0 ==> line_views(results@) == lines_of(contents@),
        contents@.len() == 0 ==> results@.len() == 0,
{
    let mut results: Vec<&'a str> = Vec::new();
    let mut rest = contents;
    assert(line_views(results@) + search_result(query@, rest@, false) =~= search_result(
        query@,
        contents@,
        false,
    ));
    while !rest.is_empty()
        invariant
            search_result(query@, contents@, false) == line_views(results@) + search_result(
                query@,
                rest@,
                false,
            ),
        decreases rest@.len(),
    {
        let (line, tail) = split_first_line(rest);
        let ghost before = line_views(results@);
        proof {
            lemma_search_result_step(query@, rest@, false);
        }
        if contains(line, query) {
            results.push(line);
            assert(line_views(results@) =~= before + seq![line@]);
        }
        assert(line_views(results@) + search_result(query@, tail@, false) =~= before
            + search_result(query@, rest@, false));
        rest = tail;
    }
    proof {
        assert(lines_of(rest@) =~= Seq::<Seq<char>>::empty());
        assert(search_result(query@, rest@, false) =~= Seq::<Seq<char>>::empty());
        assert(line_views(results@) =~= search_result(query@, contents@, false));
        if query@.len() == 0 {
            assert(query@ =~= Seq::<char>::empty());
            lemma_empty_query_selects_all(contents@);
        }
        if contents@.len() == 0 {
            assert(contents@ =~= Seq::<char>::empty());
            lemma_empty_text_has_no_results(query@, false);
        }
    }
    results
}

/// The lines of `contents` whose lowercase form holds the lowercase form of
/// `query`, in the order of `contents`. Each returned line is a piece of
/// `contents` as it stands there, not its lowercase form.
pub fn search_case_insensitive<'a>(query: &str, contents: &'a str) -> (results: Vec<&'a str>)
    ensures
        line_views(results@) == search_result(query@, contents@, true),
        query@.len() == 0 ==> line_views(results@) == lines_of(contents@),
        contents@.len() == 0 ==> results@.len() == 0,
{
    let folded_query = query.to_lowercase();
    let mut results: Vec<&'a str> = Vec::new();
    let mut rest = contents;
    assert(line_views(results@) + search_result(query@, rest@, true) =~= search_result(
        query@,
        contents@,
        true,
    ));
    while !rest.is_empty()
        invariant
            folded_query@ == lowercase_of(query@),
            search_result(query@, contents@, true) == line_views(results@) + search_result(
                query@,
                rest@,
                true,
            ),
        decreases rest@.len(),
    {
        let (line, tail) = split_first_line(rest);
        let ghost before = line_views(results@);
        proof {
            lemma_search_result_step(query@, rest@, true);
        }
        let folded_line = line.to_lowercase();
        if contains(folded_line.as_str(), folded_query.as_str()) {
            results.push(line);
            assert(line_views(results@) =~= before + seq![line@]);
        }
        assert(line_views(results@) + search_result(query@, tail@, true) =~= before
            + search_result(query@, rest@, true));
        rest = tail;
    }
    proof {
        assert(lines_of(rest@) =~= Seq::<Seq<char>>::empty());
        assert(search_result(query@, rest@, true) =~= Seq::<Seq<char>>::empty());
        assert(line_views(results@) =~= search_result(query@, contents@, true));
        if query@.len() == 0 {
            lemma_empty_fold_selects_all(query@, contents@);
        }
        if contents@.len() == 0 {
            assert(contents@ =~= Seq::<char>::empty());
            lemma_empty_text_has_no_results(query@, true);
        }
    }
    results
}

/// Searches `contents` as `config` asks: for `config.query`, ignoring case
/// where `config.ignore_case` is set. The file path plays no part.
pub fn run<'a>(config: Config, contents: &'a str) -> (results: Vec<&'a str>)
    ensures
        line_views(results@) == search_result(config.query@, contents@, config.ignore_case),
        config.query@.len() == 0 ==> line_views(results@) == lines_of(contents@),
        contents@.len() == 0 ==> results@.len() == 0,
{
    if config.ignore_case {
        search_case_insensitive(config.query.as_str(), contents)
    } else {
        search(config.query.as_str(), contents)
    }
}

} // verus!
