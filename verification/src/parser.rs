use vstd::prelude::*;
use crate::pattern::{Pattern, pattern_compiles, pattern_matches, pattern_find_all, is_piece_of, lemma_piece_chars};
use crate::laws::lemma_distinct_entries_separators;
use crate::text::{
    newline, views, with_separators, distinct_entries, newline_string, append_with_separators,
    dedup_entries, lemma_with_separators_append, lemma_with_separators_single, newline_free,
    first_occurrences, lemma_distinct_is_first_occurrences, lemma_newline_free_append,
};

verus! {

broadcast use vstd::string::group_string_axioms;

/// The value that the optional pattern options hold when the user left them
/// unset: `$#$$##$$#$#`.
pub open spec fn unset_marker() -> Seq<char> {
    seq!['$', '#', '$', '$', '#', '#', '$', '$', '#', '$', '#']
}

/// Whether an optional pattern option was set by the user.
pub fn is_unset(option: &str) -> (res: bool)
    ensures
        res == (option@ == unset_marker()),
{
    let marker = "$#$$##$$#$#";
    proof {
        reveal_strlit("$#$$##$$#$#");
        assert(marker@ =~= unset_marker());
    }
    option.to_string() == marker.to_string()
}

/// Which of the four patterns of a filter a result speaks of.
#[derive(Debug, Clone, Copy, PartialEq, Eq, Structural)]
pub enum PatternRole {
    Find,
    Exclude,
    Include,
    MatchOnly,
}

/// A pattern of the filter that the regex engine refused.
#[derive(Debug, Clone, Copy, PartialEq, Eq, Structural)]
pub enum ParserError {
    InvalidPattern(PatternRole),
}

/// What the filter keeps of one log line.
#[derive(Debug, Clone, Copy, PartialEq, Eq, Structural)]
pub enum LineSelection {
    /// The line is dropped.
    Skip,
    /// The whole line is kept (or, with a match-only pattern, what that
    /// pattern finds in the matches of the find and include patterns).
    Whole,
    /// Only the matches of the find and include patterns are kept.
    Matches,
}

/// The selection of a line from whether the find, exclude and include
/// patterns match it and whether strict mode is on.
pub open spec fn line_selection(find_hit: bool, exclude_hit: bool, also_hit: bool, strict: bool) -> LineSelection {
    if (find_hit || also_hit) && !exclude_hit {
        if strict { LineSelection::Matches } else { LineSelection::Whole }
    } else {
        LineSelection::Skip
    }
}

/// Decides what the filter keeps of a line, given whether the find, exclude
/// and include patterns match it.
pub fn select_line(find_hit: bool, exclude_hit: bool, also_hit: bool, strict: bool) -> (res: LineSelection)
    ensures
        res == line_selection(find_hit, exclude_hit, also_hit, strict),
{
    if find_hit && !exclude_hit && !strict || also_hit && !exclude_hit && !strict {
        LineSelection::Whole
    } else if find_hit && !exclude_hit && strict || also_hit && !exclude_hit && strict {
        LineSelection::Matches
    } else {
        LineSelection::Skip
    }
}

/// The four patterns of a filter and its two switches, as character
/// sequences.
pub ghost struct FilterSpec {
    pub find: Seq<char>,
    pub exclude: Seq<char>,
    pub also_find: Seq<char>,
    pub match_only: Seq<char>,
    pub strict: bool,
}

/// What the match-only pattern finds in each of `matches`, in order.
pub open spec fn refine_matches(match_only: Seq<char>, matches: Seq<Seq<char>>) -> Seq<Seq<char>>
    decreases matches.len(),
{
    if matches.len() == 0 {
        seq![]
    } else {
        refine_matches(match_only, matches.drop_last()) + pattern_find_all(match_only, matches.last())
    }
}

/// The entries that the filter takes from one line.
pub open spec fn line_entries(f: FilterSpec, line: Seq<char>) -> Seq<Seq<char>> {
    match line_selection(
        pattern_matches(f.find, line),
        pattern_matches(f.exclude, line),
        pattern_matches(f.also_find, line),
        f.strict,
    ) {
        LineSelection::Skip => seq![],
        LineSelection::Whole => if f.match_only == unset_marker() {
            seq![line]
        } else {
            refine_matches(f.match_only, pattern_find_all(f.find, line))
                + refine_matches(f.match_only, pattern_find_all(f.also_find, line))
        },
        LineSelection::Matches => pattern_find_all(f.find, line) + pattern_find_all(f.also_find, line),
    }
}

/// The entries that the filter takes from all lines, in order.
pub open spec fn filtered_entries(f: FilterSpec, lines: Seq<Seq<char>>) -> Seq<Seq<char>>
    decreases lines.len(),
{
    if lines.len() == 0 {
        seq![]
    } else {
        filtered_entries(f, lines.drop_last()) + line_entries(f, lines.last())
    }
}

/// The list that the filter returns: each entry followed by a separator,
/// and, when duplicates are not wanted, each entry kept once.
pub open spec fn filter_output(f: FilterSpec, lines: Seq<Seq<char>>, duplicate: bool) -> Seq<Seq<char>> {
    let all = with_separators(filtered_entries(f, lines));
    if duplicate {
        all
    } else {
        with_separators(distinct_entries(all))
    }
}

/// The first pattern, in the order find, exclude, include, match-only, that
/// the regex engine refuses.
pub open spec fn first_invalid_pattern(f: FilterSpec) -> Option<PatternRole> {
    if !pattern_compiles(f.find) {
        Some(PatternRole::Find)
    } else if !pattern_compiles(f.exclude) {
        Some(PatternRole::Exclude)
    } else if !pattern_compiles(f.also_find) {
        Some(PatternRole::Include)
    } else if !pattern_compiles(f.match_only) {
        Some(PatternRole::MatchOnly)
    } else {
        None
    }
}

proof fn lemma_pieces_newline_free(pieces: Seq<String>, haystack: Seq<char>)
    requires
        !haystack.contains('\n'),
        forall|k: int| 0 <= k < pieces.len() ==> is_piece_of(#[trigger] pieces[k]@, haystack),
    ensures
        newline_free(views(pieces)),
{
    assert forall|k: int| 0 <= k < views(pieces).len() implies !(#[trigger] views(pieces)[k]).contains('\n') by {
        assert(views(pieces)[k] == pieces[k]@);
        if pieces[k]@.contains('\n') {
            lemma_piece_chars(pieces[k]@, haystack, '\n');
        }
    }
}

fn compile_role(pattern: &str, role: PatternRole) -> (res: Result<Pattern, ParserError>)
    ensures
        res is Err <==> !pattern_compiles(pattern@),
        res matches Ok(p) ==> p@ == pattern@,
        res matches Err(e) ==> e == ParserError::InvalidPattern(role),
{
    match Pattern::new(pattern) {
        Some(p) => Ok(p),
        None => Err(ParserError::InvalidPattern(role)),
    }
}

/// Appends to `out` what the match-only pattern finds in each of `matches`,
/// each followed by a separator.
fn append_refined(out: &mut Vec<String>, match_only: &Pattern, matches: &Vec<String>)
    ensures
        views(final(out)@) == views(old(out)@) + with_separators(refine_matches(match_only@, views(matches@))),
        newline_free(views(matches@)) ==> newline_free(refine_matches(match_only@, views(matches@))),
{
    let mut i: usize = 0;
    while i < matches.len()
        invariant
            i <= matches.len(),
            views(out@) == views(old(out)@) + with_separators(
                refine_matches(match_only@, views(matches@).take(i as int)),
            ),
            newline_free(views(matches@)) ==> newline_free(
                refine_matches(match_only@, views(matches@).take(i as int)),
            ),
        decreases matches.len() - i,
    {
        let ghost before = views(out@);
        let ghost done = refine_matches(match_only@, views(matches@).take(i as int));
        let found = match_only.find_all(matches[i].as_str());
        append_with_separators(out, &found);
        proof {
            let next = views(matches@).take(i + 1);
            assert(next.drop_last() == views(matches@).take(i as int));
            assert(next.last() == matches@[i as int]@);
            lemma_with_separators_append(done, views(found@));
            assert(views(found@) == found@.map_values(|s: String| s@));
            if newline_free(views(matches@)) {
                assert(views(matches@)[i as int] == matches@[i as int]@);
                lemma_pieces_newline_free(found@, matches@[i as int]@);
                lemma_newline_free_append(done, views(found@));
            }
        }
        i = i + 1;
    }
    assert(views(matches@).take(matches.len() as int) == views(matches@));
}

/// Filters log lines: keeps the lines that the find or include pattern
/// matches and the exclude pattern does not; in strict mode keeps only the
/// matched texts; with a match-only pattern keeps what it finds in those
/// matches. Each kept entry is followed by a `"\n"` entry; when `duplicate`
/// is false, every entry is kept once. Fails when the regex engine refuses
/// one of the patterns.
pub fn parser(
    lines: &Vec<String>,
    elem_to_find: &str,
    exclude_regex: &str,
    include_regex: &str,
    strict: bool,
    duplicate: bool,
    matchonly: &str,
) -> (res: Result<Vec<String>, ParserError>)
    ensures
        ({
            let f = FilterSpec {
                find: elem_to_find@,
                exclude: exclude_regex@,
                also_find: include_regex@,
                match_only: matchonly@,
                strict,
            };
            match res {
                Ok(v) => first_invalid_pattern(f) is None && views(v@) == filter_output(
                    f,
                    views(lines@),
                    duplicate,
                ),
                Err(ParserError::InvalidPattern(role)) => first_invalid_pattern(f) == Some(role),
            }
        }),
        ({
            let f = FilterSpec {
                find: elem_to_find@,
                exclude: exclude_regex@,
                also_find: include_regex@,
                match_only: matchonly@,
                strict,
            };
            res is Ok && newline_free(views(lines@)) ==> {
                &&& newline_free(filtered_entries(f, views(lines@)))
                &&& !duplicate ==> views(res->Ok_0@) == with_separators(
                    first_occurrences(filtered_entries(f, views(lines@))),
                )
            }
        }),
{
    let ghost f = FilterSpec {
        find: elem_to_find@,
        exclude: exclude_regex@,
        also_find: include_regex@,
        match_only: matchonly@,
        strict,
    };
    let find_re = compile_role(elem_to_find, PatternRole::Find)?;
    let exclude_re = compile_role(exclude_regex, PatternRole::Exclude)?;
    let also_re = compile_role(include_regex, PatternRole::Include)?;
    let only_re = compile_role(matchonly, PatternRole::MatchOnly)?;
    let only_unset = is_unset(matchonly);
    let sep = newline_string();

    let mut out: Vec<String> = Vec::new();
    let mut i: usize = 0;
    while i < lines.len()
        invariant
            i <= lines.len(),
            sep@ == newline(),
            find_re@ == f.find,
            exclude_re@ == f.exclude,
            also_re@ == f.also_find,
            only_re@ == f.match_only,
            only_unset == (f.match_only == unset_marker()),
            f.strict == strict,
            views(out@) == with_separators(filtered_entries(f, views(lines@).take(i as int))),
            newline_free(views(lines@)) ==> newline_free(filtered_entries(f, views(lines@).take(i as int))),
        decreases lines.len() - i,
    {
        let line = &lines[i];
        let ghost before = views(out@);
        let ghost done = filtered_entries(f, views(lines@).take(i as int));
        proof {
            let next = views(lines@).take(i + 1);
            assert(next.drop_last() == views(lines@).take(i as int));
            assert(next.last() == line@);
            lemma_with_separators_append(done, line_entries(f, line@));
        }
        let find_hit = find_re.is_match(line.as_str());
        let exclude_hit = exclude_re.is_match(line.as_str());
        let also_hit = also_re.is_match(line.as_str());
        match select_line(find_hit, exclude_hit, also_hit, strict) {
            LineSelection::Skip => {
                assert(with_separators(seq![]) == Seq::<Seq<char>>::empty());
                proof {
                    if newline_free(views(lines@)) {
                        lemma_newline_free_append(done, line_entries(f, line@));
                    }
                }
            },
            LineSelection::Whole => {
                if only_unset {
                    out.push(line.clone());
                    out.push(sep.clone());
                    proof {
                        lemma_with_separators_single(line@);
                        if newline_free(views(lines@)) {
                            assert(views(lines@)[i as int] == line@);
                            assert(newline_free(seq![line@]));
                            lemma_newline_free_append(done, line_entries(f, line@));
                        }
                    }
                } else {
                    let found = find_re.find_all(line.as_str());
                    append_refined(&mut out, &only_re, &found);
                    let included = also_re.find_all(line.as_str());
                    append_refined(&mut out, &only_re, &included);
                    proof {
                        assert(views(found@) == found@.map_values(|s: String| s@));
                        assert(views(included@) == included@.map_values(|s: String| s@));
                        lemma_with_separators_append(
                            refine_matches(f.match_only, views(found@)),
                            refine_matches(f.match_only, views(included@)),
                        );
                        if newline_free(views(lines@)) {
                            assert(views(lines@)[i as int] == line@);
                            lemma_pieces_newline_free(found@, line@);
                            lemma_pieces_newline_free(included@, line@);
                            lemma_newline_free_append(
                                refine_matches(f.match_only, views(found@)),
                                refine_matches(f.match_only, views(included@)),
                            );
                            lemma_newline_free_append(done, line_entries(f, line@));
                        }
                    }
                }
            },
            LineSelection::Matches => {
                let found = find_re.find_all(line.as_str());
                append_with_separators(&mut out, &found);
                let included = also_re.find_all(line.as_str());
                append_with_separators(&mut out, &included);
                proof {
                    assert(views(found@) == found@.map_values(|s: String| s@));
                    assert(views(included@) == included@.map_values(|s: String| s@));
                    lemma_with_separators_append(views(found@), views(included@));
                    if newline_free(views(lines@)) {
                        assert(views(lines@)[i as int] == line@);
                        lemma_pieces_newline_free(found@, line@);
                        lemma_pieces_newline_free(included@, line@);
                        lemma_newline_free_append(views(found@), views(included@));
                        lemma_newline_free_append(done, line_entries(f, line@));
                    }
                }
            },
        }
        i = i + 1;
    }
    assert(views(lines@).take(lines.len() as int) == views(lines@));
    proof {
        if newline_free(views(lines@)) {
            lemma_distinct_entries_separators(filtered_entries(f, views(lines@)));
            lemma_distinct_is_first_occurrences(filtered_entries(f, views(lines@)));
        }
    }
    if duplicate {
        Ok(out)
    } else {
        Ok(dedup_entries(&out))
    }
}

} // verus!
