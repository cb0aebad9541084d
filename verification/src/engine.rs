//! The search-and-format engine: filter the lines of a text by a query,
//! case-sensitively or through Unicode lowercasing, rewrite matched lines by
//! literal replacement, and number them within the matched subsequence.

use vstd::prelude::*;

use crate::config::Config;
use crate::config::ConfigV;
use crate::text::contains_str;
use crate::text::decimal_chars;
use crate::text::has_substring;
use crate::text::replace;
use crate::text::replaced;
use crate::text::split_lines;
use crate::text::split_to_lines;
use crate::text::str_views;
use crate::text::string_views;
use crate::text::usize_to_decimal;

verus! {

/// The full Unicode lowercase of a string, named but not written out: the
/// trusted wrapper below is its only source.
pub uninterp spec fn lower_of(s: Seq<char>) -> Seq<char>;

/// Relies on `str::to_lowercase`: the Unicode lowercase of a string is a
/// function of its characters alone.
#[verifier::external_body]
fn to_lowercase(s: &str) -> (r: String)
    ensures
        r@ == lower_of(s@),
{
    s.to_lowercase()
}

/// The lines among `lines` that contain `q` literally, in order.
pub open spec fn kept_lines(lines: Seq<Seq<char>>, q: Seq<char>) -> Seq<Seq<char>> {
    lines.filter(|line: Seq<char>| has_substring(line, q))
}

/// The lines among `lines` whose lowercase contains the lowercase of `q`,
/// in order.
pub open spec fn kept_lines_insensitive(lines: Seq<Seq<char>>, q: Seq<char>) -> Seq<Seq<char>> {
    lines.filter(|line: Seq<char>| has_substring(lower_of(line), lower_of(q)))
}

proof fn lemma_kept_lines_push(lines: Seq<Seq<char>>, x: Seq<char>, q: Seq<char>)
    ensures
        kept_lines(lines.push(x), q) == if has_substring(x, q) {
            kept_lines(lines, q).push(x)
        } else {
            kept_lines(lines, q)
        },
{
    reveal(Seq::filter);
    assert(lines.push(x).drop_last() =~= lines);
    assert(lines.push(x).last() == x);
}

proof fn lemma_kept_lines_insensitive_push(lines: Seq<Seq<char>>, x: Seq<char>, q: Seq<char>)
    ensures
        kept_lines_insensitive(lines.push(x), q) == if has_substring(lower_of(x), lower_of(q)) {
            kept_lines_insensitive(lines, q).push(x)
        } else {
            kept_lines_insensitive(lines, q)
        },
{
    reveal(Seq::filter);
    assert(lines.push(x).drop_last() =~= lines);
    assert(lines.push(x).last() == x);
}

/// Case-sensitive search: exactly the lines of `contents` that contain
/// `query` as a literal substring, in original order.
pub fn search<'a>(query: &str, contents: &'a str) -> (results: Vec<&'a str>)
    ensures
        str_views(results@) == kept_lines(split_lines(contents@), query@),
{
    let lines = split_to_lines(contents);
    let mut results: Vec<&'a str> = Vec::new();
    let mut i: usize = 0;
    proof {
        assert(str_views(lines@).subrange(0, 0) =~= Seq::<Seq<char>>::empty());
        assert(kept_lines(Seq::empty(), query@) =~= Seq::<Seq<char>>::empty()) by {
            reveal(Seq::filter);
        }
        assert(str_views(results@) =~= Seq::<Seq<char>>::empty());
    }
    while i < lines.len()
        invariant
            str_views(lines@) == split_lines(contents@),
            i <= lines@.len(),
            str_views(results@) == kept_lines(str_views(lines@).subrange(0, i as int), query@),
        decreases lines@.len() - i,
    {
        let line = lines[i];
        let keep = contains_str(line, query);
        proof {
            let prefix = str_views(lines@).subrange(0, i as int);
            lemma_kept_lines_push(prefix, line@, query@);
            assert(prefix.push(line@) =~= str_views(lines@).subrange(0, i + 1));
        }
        if keep {
            let ghost results_before = results@;
            results.push(line);
            proof {
                assert(str_views(results@) =~= str_views(results_before).push(line@));
            }
        }
        i = i + 1;
    }
    proof {
        assert(str_views(lines@).subrange(0, i as int) =~= str_views(lines@));
    }
    results
}

/// Case-insensitive search: exactly the lines of `contents` whose Unicode
/// lowercase contains the lowercase of `query`, in original order.
pub fn search_case_insensitive<'a>(query: &str, contents: &'a str) -> (results: Vec<&'a str>)
    ensures
        str_views(results@) == kept_lines_insensitive(split_lines(contents@), query@),
{
    let query_lower = to_lowercase(query);
    let lines = split_to_lines(contents);
    let mut results: Vec<&'a str> = Vec::new();
    let mut i: usize = 0;
    proof {
        assert(str_views(lines@).subrange(0, 0) =~= Seq::<Seq<char>>::empty());
        assert(kept_lines_insensitive(Seq::empty(), query@) =~= Seq::<Seq<char>>::empty()) by {
            reveal(Seq::filter);
        }
        assert(str_views(results@) =~= Seq::<Seq<char>>::empty());
    }
    while i < lines.len()
        invariant
            str_views(lines@) == split_lines(contents@),
            query_lower@ == lower_of(query@),
            i <= lines@.len(),
            str_views(results@) == kept_lines_insensitive(
                str_views(lines@).subrange(0, i as int),
                query@,
            ),
        decreases lines@.len() - i,
    {
        let line = lines[i];
        let line_lower = to_lowercase(line);
        let keep = contains_str(line_lower.as_str(), query_lower.as_str());
        proof {
            let prefix = str_views(lines@).subrange(0, i as int);
            lemma_kept_lines_insensitive_push(prefix, line@, query@);
            assert(prefix.push(line@) =~= str_views(lines@).subrange(0, i + 1));
        }
        if keep {
            let ghost results_before = results@;
            results.push(line);
            proof {
                assert(str_views(results@) =~= str_views(results_before).push(line@));
            }
        }
        i = i + 1;
    }
    proof {
        assert(str_views(lines@).subrange(0, i as int) =~= str_views(lines@));
    }
    results
}

/// One line satisfies the configuration's match predicate.
pub open spec fn line_matches(c: ConfigV, line: Seq<char>) -> bool {
    if c.ignore_case {
        has_substring(lower_of(line), lower_of(c.query))
    } else {
        has_substring(line, c.query)
    }
}

/// The lines of `t` matched under the configuration's case policy, in order.
pub open spec fn matched_lines(c: ConfigV, t: Seq<char>) -> Seq<Seq<char>> {
    if c.ignore_case {
        kept_lines_insensitive(split_lines(t), c.query)
    } else {
        kept_lines(split_lines(t), c.query)
    }
}

/// Search under the configuration's case policy.
pub fn search_based_on_case<'a>(config: &Config, contents: &'a str) -> (results: Vec<&'a str>)
    ensures
        str_views(results@) == matched_lines(config@, contents@),
{
    if config.ignore_case {
        search_case_insensitive(config.query.as_str(), contents)
    } else {
        search(config.query.as_str(), contents)
    }
}

/// A matched line after replacement: every occurrence of the original-case
/// query replaced, or the line itself when no replacement is configured.
pub open spec fn rewritten(c: ConfigV, line: Seq<char>) -> Seq<char> {
    if c.replace.len() > 0 {
        replaced(line, c.query, c.replace)
    } else {
        line
    }
}

/// A line as emitted at position `i` of the matched subsequence: prefixed
/// with its 1-based match number when numbering is on.
pub open spec fn numbered(line_number: bool, i: nat, line: Seq<char>) -> Seq<char> {
    if line_number {
        decimal_chars(i + 1) + ": "@ + line
    } else {
        line
    }
}

/// Apply the configured replacement to one matched line, or keep the line
/// when the configured replacement is empty.
pub fn replace_if_not_empty(config: &Config, line: &str) -> (result: String)
    ensures
        result@ == rewritten(config@, line@),
{
    if !config.replace.as_str().is_empty() {
        replace(config.query.as_str(), config.replace.as_str(), line)
    } else {
        line.to_owned()
    }
}

/// Prefix one output line with its 1-based match number when numbering is on.
fn format_based_on_line_number(config: &Config, i: usize, line: String) -> (out: String)
    requires
        i < usize::MAX,
    ensures
        out@ == numbered(config@.line_number, i as nat, line@),
{
    if config.line_number {
        let mut out = usize_to_decimal(i + 1);
        out.append(": ");
        let out = out.concat(line.as_str());
        proof {
            assert(out@ =~= numbered(true, i as nat, line@));
        }
        out
    } else {
        line
    }
}

/// Everything the engine emits for `t` under configuration `c`: the matched
/// lines, each rewritten and numbered as configured, in match order.
pub open spec fn output_lines(c: ConfigV, t: Seq<char>) -> Seq<Seq<char>> {
    Seq::new(
        matched_lines(c, t).len(),
        |i: int| numbered(c.line_number, i as nat, rewritten(c, matched_lines(c, t)[i])),
    )
}

/// Search `contents` and format the matches as configured: the returned
/// strings are exactly what is to be printed, in order.
pub fn run(config: &Config, contents: &str) -> (out: Vec<String>)
    ensures
        string_views(out@) == output_lines(config@, contents@),
{
    let results = search_based_on_case(config, contents);
    let mut out: Vec<String> = Vec::new();
    let mut i: usize = 0;
    proof {
        assert(string_views(out@) =~= output_lines(config@, contents@).subrange(0, 0));
    }
    while i < results.len()
        invariant
            str_views(results@) == matched_lines(config@, contents@),
            i <= results@.len(),
            string_views(out@) == output_lines(config@, contents@).subrange(0, i as int),
        decreases results@.len() - i,
    {
        let line = replace_if_not_empty(config, results[i]);
        let line = format_based_on_line_number(config, i, line);
        let ghost out_before = out@;
        out.push(line);
        proof {
            assert(string_views(out@) =~= string_views(out_before).push(line@));
            assert(string_views(out@) =~= output_lines(config@, contents@).subrange(0, i + 1));
        }
        i = i + 1;
    }
    proof {
        assert(output_lines(config@, contents@).subrange(
            0,
            matched_lines(config@, contents@).len() as int,
        ) =~= output_lines(config@, contents@));
    }
    out
}

/// Replacement is applied exactly to the matched lines, with the
/// original-case query: the output has one entry per matched line, that line
/// rewritten (and then numbered as configured), and no entry for any other
/// line of the text.
pub proof fn lemma_replacement_only_on_matches(c: ConfigV, t: Seq<char>)
    requires
        c.replace.len() > 0,
    ensures
        output_lines(c, t).len() == matched_lines(c, t).len(),
        forall|i: int|
            0 <= i < output_lines(c, t).len() ==> output_lines(c, t)[i] == numbered(
                c.line_number,
                i as nat,
                replaced(matched_lines(c, t)[i], c.query, c.replace),
            ),
        forall|i: int|
            0 <= i < matched_lines(c, t).len() ==> line_matches(
                c,
                #[trigger] matched_lines(c, t)[i],
            ),
{
    broadcast use vstd::seq_lib::group_filter_ensures;

}

/// Line numbers count within the matched subsequence, starting at 1: the
/// `i`th emitted line carries the number `i + 1`, whatever position its line
/// had in the original text.
pub proof fn lemma_numbering_counts_matches(c: ConfigV, t: Seq<char>)
    requires
        c.line_number,
    ensures
        output_lines(c, t).len() == matched_lines(c, t).len(),
        forall|i: int|
            0 <= i < output_lines(c, t).len() ==> output_lines(c, t)[i] == decimal_chars(
                (i + 1) as nat,
            ) + ": "@ + rewritten(c, matched_lines(c, t)[i]),
{
}

} // verus!
