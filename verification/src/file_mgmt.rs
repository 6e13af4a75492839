use vstd::prelude::*;
use vstd::string::StringExecFns;
use crate::text::{newline, views, with_separators, distinct_entries, newline_string, append_with_separators, dedup_entries};

verus! {

broadcast use vstd::string::group_string_axioms;

/// The entries that the output file holds after a run: the new entries
/// alone when the file is erased; otherwise the lines already in it, each
/// followed by a separator, then the new entries, kept once each when
/// duplicates are not wanted.
pub open spec fn output_entries(existing: Seq<Seq<char>>, text: Seq<Seq<char>>, erase_file: bool, duplicate: bool) -> Seq<Seq<char>> {
    if erase_file {
        text
    } else if duplicate {
        with_separators(existing) + text
    } else {
        with_separators(distinct_entries(with_separators(existing) + text))
    }
}

/// The concatenation of a list of texts.
pub open spec fn concat(parts: Seq<Seq<char>>) -> Seq<char>
    decreases parts.len(),
{
    if parts.len() == 0 {
        seq![]
    } else {
        concat(parts.drop_last()) + parts.last()
    }
}

/// Concatenates a list of strings.
pub fn concat_strings(parts: &Vec<String>) -> (res: String)
    ensures
        res@ == concat(views(parts@)),
{
    let mut res = String::new();
    let mut i: usize = 0;
    while i < parts.len()
        invariant
            i <= parts.len(),
            res@ == concat(views(parts@).take(i as int)),
        decreases parts.len() - i,
    {
        let ghost next = views(parts@).take(i + 1);
        assert(next.drop_last() == views(parts@).take(i as int));
        assert(next.last() == parts@[i as int]@);
        res.append(parts[i].as_str());
        i = i + 1;
    }
    assert(views(parts@).take(parts.len() as int) == views(parts@));
    res
}

/// Appends every string of `items` to `out`.
pub fn extend_strings(out: &mut Vec<String>, items: &Vec<String>)
    ensures
        views(final(out)@) == views(old(out)@) + views(items@),
{
    let mut i: usize = 0;
    while i < items.len()
        invariant
            i <= items.len(),
            views(out@) == views(old(out)@) + views(items@).take(i as int),
        decreases items.len() - i,
    {
        let ghost before = views(out@);
        out.push(items[i].clone());
        assert(views(items@).take(i + 1) == views(items@).take(i as int).push(items@[i as int]@));
        assert(views(out@) == before.push(items@[i as int]@));
        i = i + 1;
    }
    assert(views(items@).take(items.len() as int) == views(items@));
}

/// The content to write to the output file. `existing` holds the lines
/// already in the file (read only when the file is not erased); `text` holds
/// the new entries, each followed by a `"\n"` entry. When the file is not
/// erased its lines are kept ahead of the new entries, and when duplicates
/// are not wanted every entry is written once.
pub fn save_file(existing: &Vec<String>, text: Vec<String>, erase_file: bool, duplicate: bool) -> (res: String)
    ensures
        res@ == concat(output_entries(views(existing@), views(text@), erase_file, duplicate)),
{
    if erase_file {
        return concat_strings(&text);
    }
    let mut all: Vec<String> = Vec::new();
    append_with_separators(&mut all, existing);
    extend_strings(&mut all, &text);
    assert(views(all@) == with_separators(views(existing@)) + views(text@));
    if duplicate {
        concat_strings(&all)
    } else {
        concat_strings(&dedup_entries(&all))
    }
}

} // verus!
