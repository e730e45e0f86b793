//! The search engine: one linear pass over the content, matching each line
//! against the query under the case flag, producing match records in scan
//! order. Pure; never fails; an absence of matches is an empty result.

use vstd::prelude::*;

use crate::line::Line;
use crate::text::contains_chars;
use crate::text::has_substring;
use crate::text::lemma_line_end;
use crate::text::lemma_line_end_at;
use crate::text::line_content;
use crate::text::line_end;
use crate::text::lines_from;
use crate::text::lower;
use crate::text::spec_lines;
use crate::text::str_chars;
use crate::text::to_lower_chars;

verus! {

/// Whether one line matches the query: substring containment, of the exact
/// characters when `case_sensitive`, of the lowercased forms otherwise.
pub open spec fn line_matches(line: Seq<char>, query: Seq<char>, case_sensitive: bool) -> bool {
    if case_sensitive {
        has_substring(line, query)
    } else {
        has_substring(lower(line), lower(query))
    }
}

/// What a search returns, over the model: for each matching line, in order of
/// appearance, the pair of its zero-based index and its text.
pub open spec fn spec_search(
    lines: Seq<Seq<char>>,
    query: Seq<char>,
    case_sensitive: bool,
) -> Seq<(int, Seq<char>)>
    decreases lines.len(),
{
    if lines.len() == 0 {
        Seq::empty()
    } else {
        let rest = spec_search(lines.drop_last(), query, case_sensitive);
        if line_matches(lines.last(), query, case_sensitive) {
            rest.push((lines.len() - 1, lines.last()))
        } else {
            rest
        }
    }
}

/// The model of a sequence of match records: each record as the pair of its
/// line index and its text.
pub open spec fn records<'a>(r: Seq<Line<'a>>) -> Seq<(int, Seq<char>)> {
    r.map_values(|l: Line<'a>| (l.number as int, l.content@))
}

/// The position of the first newline of `content` at or after `start`, or
/// the character length of `content` if no newline follows.
fn find_line_end(content: &str, start: usize) -> (end: usize)
    requires
        start <= content@.len(),
    ensures
        end == line_end(content@, start as int),
{
    let n = content.unicode_len();
    let mut i: usize = start;
    while i < n
        invariant
            start <= i <= n,
            n == content@.len(),
            forall|j: int| start <= j < i ==> content@[j] != '\n',
        decreases n - i,
    {
        let c = content.get_char(i);
        if c == '\n' {
            proof {
                lemma_line_end_at(content@, start as int, i as int);
            }
            return i;
        }
        i = i + 1;
    }
    proof {
        lemma_line_end_at(content@, start as int, n as int);
    }
    i
}

/// Scans `content` line by line and returns a record for every line that
/// contains `query` as a substring — of the exact characters when
/// `case_sensitive`, of the lowercased forms otherwise. Each record borrows
/// its line's text from `content`; records come in order of appearance.
pub fn search<'a>(query: &str, content: &'a str, case_sensitive: bool) -> (r: Vec<Line<'a>>)
    ensures
        records(r@) == spec_search(spec_lines(content@), query@, case_sensitive),
        matches_exactly(spec_lines(content@), query@, case_sensitive, records(r@)),
{
    let n = content.unicode_len();
    let query_chars = str_chars(query);
    let query_lower = to_lower_chars(&query_chars);
    let ghost lines = spec_lines(content@);
    let mut results: Vec<Line<'a>> = Vec::new();
    let mut start: usize = 0;
    let mut line_number: usize = 0;
    proof {
        assert(lines.take(0) =~= Seq::empty());
        assert(lines.skip(0) =~= lines);
        assert(records(results@) =~= Seq::empty());
    }
    while start < n
        invariant
            n == content@.len(),
            query_chars@ == query@,
            query_lower@ == lower(query@),
            lines == spec_lines(content@),
            start <= n,
            line_number <= start,
            line_number <= lines.len(),
            lines_from(content@, start as int) == lines.skip(line_number as int),
            records(results@) == spec_search(
                lines.take(line_number as int),
                query@,
                case_sensitive,
            ),
        decreases n - start,
    {
        let end = find_line_end(content, start);
        proof {
            lemma_line_end(content@, start as int);
        }
        let text_end: usize = if end < n && end > start && content.get_char(end - 1) == '\r' {
            end - 1
        } else {
            end
        };
        let line_text: &'a str = content.substring_char(start, text_end);
        proof {
            assert(line_text@ == line_content(content@, start as int));
            assert(lines_from(content@, start as int)[0] == line_content(content@, start as int));
            assert(lines.skip(line_number as int).len() >= 1);
            assert(line_number < lines.len());
            assert(lines.skip(line_number as int)[0] == lines[line_number as int]);
            assert(lines[line_number as int] == line_content(content@, start as int));
        }
        let matched: bool = if case_sensitive {
            let line_chars = str_chars(line_text);
            contains_chars(&line_chars, &query_chars)
        } else {
            let line_chars = str_chars(line_text);
            let line_lower = to_lower_chars(&line_chars);
            contains_chars(&line_lower, &query_lower)
        };
        proof {
            assert(matched == line_matches(line_text@, query@, case_sensitive));
        }
        let ghost results_before = results@;
        if matched {
            results.push(Line::new(line_number, line_text));
        }
        proof {
            assert(lines.take(line_number + 1 as int).drop_last() =~= lines.take(
                line_number as int,
            ));
            assert(lines.take(line_number + 1 as int).last() == lines[line_number as int]);
            if matched {
                assert(records(results@) =~= records(results_before).push(
                    (line_number as int, line_text@),
                ));
            } else {
                assert(records(results@) =~= records(results_before));
            }
            assert(records(results@) == spec_search(
                lines.take(line_number + 1 as int),
                query@,
                case_sensitive,
            ));
        }
        let next_start: usize = if end < n {
            end + 1
        } else {
            n
        };
        proof {
            if end < n {
                assert(lines.skip(line_number as int) =~= seq![
                    line_content(content@, start as int),
                ] + lines_from(content@, end + 1 as int));
                assert(lines_from(content@, next_start as int).len() == lines.len() - line_number
                    - 1);
                assert forall|i: int| 0 <= i < lines.len() - line_number - 1 implies lines_from(
                    content@,
                    next_start as int,
                )[i] == lines[line_number + 1 + i] by {
                    assert(lines.skip(line_number as int)[i + 1] == lines[line_number as int + i
                        + 1]);
                    assert((seq![line_content(content@, start as int)] + lines_from(
                        content@,
                        next_start as int,
                    ))[i + 1] == lines_from(content@, next_start as int)[i]);
                }
                assert(lines.skip(line_number + 1 as int) =~= lines_from(
                    content@,
                    next_start as int,
                ));
            } else {
                assert(lines.skip(line_number as int) =~= seq![
                    line_content(content@, start as int),
                ]);
                assert(line_number + 1 == lines.len());
                assert(lines_from(content@, next_start as int) =~= Seq::empty());
                assert(lines.skip(line_number + 1 as int) =~= Seq::empty());
            }
        }
        start = next_start;
        line_number = line_number + 1;
    }
    proof {
        assert(start == n);
        assert(lines_from(content@, n as int) =~= Seq::<Seq<char>>::empty());
        assert(lines.skip(line_number as int).len() == 0);
        assert(line_number == lines.len());
        assert(lines.take(line_number as int) =~= lines);
        lemma_search_matches_exactly(lines, query@, case_sensitive);
    }
    results
}

/// What it means for `res` to list exactly the matching lines of `lines`:
/// every record points at a matching line, within bounds, and carries that
/// line's text (no false positives); records come in strictly increasing
/// line order; and every matching line is recorded (no false negatives).
pub open spec fn matches_exactly(
    lines: Seq<Seq<char>>,
    query: Seq<char>,
    case_sensitive: bool,
    res: Seq<(int, Seq<char>)>,
) -> bool {
    &&& forall|k: int|
        0 <= k < res.len() ==> {
            &&& 0 <= (#[trigger] res[k]).0 < lines.len()
            &&& res[k].1 == lines[res[k].0]
            &&& line_matches(lines[res[k].0], query, case_sensitive)
        }
    &&& forall|k1: int, k2: int|
        0 <= k1 < k2 < res.len() ==> (#[trigger] res[k1]).0 < (#[trigger] res[k2]).0
    &&& forall|i: int|
        0 <= i < lines.len() && #[trigger] line_matches(lines[i], query, case_sensitive)
            ==> exists|k: int| 0 <= k < res.len() && #[trigger] res[k] == (i, lines[i])
}

/// A search result lists exactly the matching lines, in strictly increasing
/// line order, with no false positives and no false negatives.
pub proof fn lemma_search_matches_exactly(
    lines: Seq<Seq<char>>,
    query: Seq<char>,
    case_sensitive: bool,
)
    ensures
        matches_exactly(lines, query, case_sensitive, spec_search(lines, query, case_sensitive)),
    decreases lines.len(),
{
    let res = spec_search(lines, query, case_sensitive);
    if lines.len() > 0 {
        let prev = lines.drop_last();
        let pres = spec_search(prev, query, case_sensitive);
        lemma_search_matches_exactly(prev, query, case_sensitive);
        assert(forall|j: int| 0 <= j < prev.len() ==> prev[j] == #[trigger] lines[j]);
        assert(lines.last() == lines[lines.len() - 1]);
        if line_matches(lines.last(), query, case_sensitive) {
            assert(res == pres.push((lines.len() - 1, lines.last())));
            assert(forall|k: int| 0 <= k < pres.len() ==> #[trigger] res[k] == pres[k]);
            assert(res[res.len() - 1] == (lines.len() - 1, lines.last()));
            assert forall|i: int|
                0 <= i < lines.len() && #[trigger] line_matches(
                    lines[i],
                    query,
                    case_sensitive,
                ) implies exists|k: int| 0 <= k < res.len() && #[trigger] res[k] == (
                i,
                lines[i],
            ) by {
                if i < lines.len() - 1 {
                    let k = choose|k: int| 0 <= k < pres.len() && #[trigger] pres[k] == (
                        i,
                        prev[i],
                    );
                    assert(res[k] == (i, lines[i]));
                } else {
                    assert(res[res.len() - 1] == (i, lines[i]));
                }
            }
        } else {
            assert(res == pres);
            assert forall|i: int|
                0 <= i < lines.len() && #[trigger] line_matches(
                    lines[i],
                    query,
                    case_sensitive,
                ) implies exists|k: int| 0 <= k < res.len() && #[trigger] res[k] == (
                i,
                lines[i],
            ) by {
                assert(i < lines.len() - 1);
                let k = choose|k: int| 0 <= k < pres.len() && #[trigger] pres[k] == (i, prev[i]);
                assert(res[k] == (i, lines[i]));
            }
        }
    }
}

/// Case-sensitive search is exact: every returned record carries the text of
/// its line, which contains the query as a substring; every line containing
/// the query is returned, and no line index is returned twice.
pub proof fn lemma_case_sensitive_exact(content: Seq<char>, query: Seq<char>)
    ensures
        ({
            let lines = spec_lines(content);
            let res = spec_search(lines, query, true);
            &&& forall|k: int|
                0 <= k < res.len() ==> {
                    &&& 0 <= (#[trigger] res[k]).0 < lines.len()
                    &&& res[k].1 == lines[res[k].0]
                    &&& has_substring(res[k].1, query)
                }
            &&& forall|i: int|
                0 <= i < lines.len() && #[trigger] has_substring(lines[i], query) ==> exists|
                    k: int,
                |
                    0 <= k < res.len() && #[trigger] res[k] == (i, lines[i])
            &&& forall|k1: int, k2: int|
                0 <= k1 < k2 < res.len() ==> (#[trigger] res[k1]).0 != (#[trigger] res[k2]).0
        }),
{
    let lines = spec_lines(content);
    let res = spec_search(lines, query, true);
    lemma_search_matches_exactly(lines, query, true);
    assert forall|k: int| 0 <= k < res.len() implies {
        &&& 0 <= (#[trigger] res[k]).0 < lines.len()
        &&& res[k].1 == lines[res[k].0]
        &&& has_substring(res[k].1, query)
    } by {
        assert(line_matches(lines[res[k].0], query, true));
    }
    assert forall|i: int|
        0 <= i < lines.len() && #[trigger] has_substring(lines[i], query) implies exists|k: int|
        0 <= k < res.len() && #[trigger] res[k] == (i, lines[i]) by {
        assert(line_matches(lines[i], query, true));
    }
}

/// Case-insensitive search matches exactly the lines whose lowercase form
/// contains the query's lowercase form, each returned once with its text,
/// none missed.
pub proof fn lemma_case_insensitive_exact(content: Seq<char>, query: Seq<char>)
    ensures
        ({
            let lines = spec_lines(content);
            let res = spec_search(lines, query, false);
            &&& forall|k: int|
                0 <= k < res.len() ==> {
                    &&& 0 <= (#[trigger] res[k]).0 < lines.len()
                    &&& res[k].1 == lines[res[k].0]
                    &&& has_substring(lower(res[k].1), lower(query))
                }
            &&& forall|i: int|
                0 <= i < lines.len() && #[trigger] has_substring(lower(lines[i]), lower(query))
                    ==> exists|k: int| 0 <= k < res.len() && #[trigger] res[k] == (i, lines[i])
            &&& forall|k1: int, k2: int|
                0 <= k1 < k2 < res.len() ==> (#[trigger] res[k1]).0 != (#[trigger] res[k2]).0
        }),
{
    let lines = spec_lines(content);
    let res = spec_search(lines, query, false);
    lemma_search_matches_exactly(lines, query, false);
    assert forall|k: int| 0 <= k < res.len() implies {
        &&& 0 <= (#[trigger] res[k]).0 < lines.len()
        &&& res[k].1 == lines[res[k].0]
        &&& has_substring(lower(res[k].1), lower(query))
    } by {
        assert(line_matches(lines[res[k].0], query, false));
    }
    assert forall|i: int|
        0 <= i < lines.len() && #[trigger] has_substring(lower(lines[i]), lower(query)) implies
        exists|k: int| 0 <= k < res.len() && #[trigger] res[k] == (i, lines[i]) by {
        assert(line_matches(lines[i], query, false));
    }
}

/// Result order is strictly increasing by line index, for any input.
pub proof fn lemma_search_ordered(content: Seq<char>, query: Seq<char>, case_sensitive: bool)
    ensures
        ({
            let res = spec_search(spec_lines(content), query, case_sensitive);
            forall|k1: int, k2: int|
                0 <= k1 < k2 < res.len() ==> (#[trigger] res[k1]).0 < (#[trigger] res[k2]).0
        }),
{
    lemma_search_matches_exactly(spec_lines(content), query, case_sensitive);
}

/// An empty query matches every line: the result holds one record per line
/// of the content, in order, each carrying its line's text.
pub proof fn lemma_empty_query(content: Seq<char>, case_sensitive: bool)
    ensures
        ({
            let lines = spec_lines(content);
            let res = spec_search(lines, Seq::empty(), case_sensitive);
            &&& res.len() == lines.len()
            &&& forall|k: int| 0 <= k < res.len() ==> #[trigger] res[k] == (k, lines[k])
        }),
{
    lemma_empty_query_lines(spec_lines(content), case_sensitive);
}

/// An empty query matches every line of any line sequence.
proof fn lemma_empty_query_lines(lines: Seq<Seq<char>>, case_sensitive: bool)
    ensures
        ({
            let res = spec_search(lines, Seq::empty(), case_sensitive);
            &&& res.len() == lines.len()
            &&& forall|k: int| 0 <= k < res.len() ==> #[trigger] res[k] == (k, lines[k])
        }),
    decreases lines.len(),
{
    let res = spec_search(lines, Seq::empty(), case_sensitive);
    if lines.len() > 0 {
        let prev = lines.drop_last();
        lemma_empty_query_lines(prev, case_sensitive);
        crate::text::lemma_has_empty_substring(lines.last());
        assert(lower(Seq::empty()) =~= Seq::<char>::empty());
        crate::text::lemma_has_empty_substring(lower(lines.last()));
        assert(line_matches(lines.last(), Seq::empty(), case_sensitive));
        assert(forall|j: int| 0 <= j < prev.len() ==> prev[j] == #[trigger] lines[j]);
        assert(res == spec_search(prev, Seq::empty(), case_sensitive).push(
            (lines.len() - 1, lines.last()),
        ));
    }
}

/// Empty content has no lines, so a search of it returns the empty sequence,
/// whatever the query and case flag.
pub proof fn lemma_empty_content(query: Seq<char>, case_sensitive: bool)
    ensures
        spec_lines(Seq::empty()) == Seq::<Seq<char>>::empty(),
        spec_search(spec_lines(Seq::empty()), query, case_sensitive) == Seq::<(
            int,
            Seq<char>,
        )>::empty(),
{
    assert(spec_lines(Seq::empty()) =~= Seq::<Seq<char>>::empty());
    assert(spec_search(spec_lines(Seq::empty()), query, case_sensitive) =~= Seq::<(
        int,
        Seq<char>,
    )>::empty());
}

} // verus!
