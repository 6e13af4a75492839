use vstd::prelude::*;
use vstd::string::StrSliceExecFns;

verus! {

broadcast use vstd::string::group_string_axioms;

/// The separator entry that follows every entry of a filtered log list.
pub open spec fn newline() -> Seq<char> {
    seq!['\n']
}

/// The character sequences held by a list of strings.
pub open spec fn views(v: Seq<String>) -> Seq<Seq<char>> {
    v.map_values(|s: String| s@)
}

/// Every entry followed by a separator entry: `[e0, "\n", e1, "\n", ...]`.
pub open spec fn with_separators(entries: Seq<Seq<char>>) -> Seq<Seq<char>>
    decreases entries.len(),
{
    if entries.len() == 0 {
        seq![]
    } else {
        with_separators(entries.drop_last()) + seq![entries.last(), newline()]
    }
}

/// The entries of `s` that are not separators, each kept at its first
/// occurrence only.
pub open spec fn distinct_entries(s: Seq<Seq<char>>) -> Seq<Seq<char>>
    decreases s.len(),
{
    if s.len() == 0 {
        seq![]
    } else {
        let d = distinct_entries(s.drop_last());
        if s.last() == newline() || d.contains(s.last()) {
            d
        } else {
            d.push(s.last())
        }
    }
}

/// Separating a concatenation separates each part.
pub proof fn lemma_with_separators_append(a: Seq<Seq<char>>, b: Seq<Seq<char>>)
    ensures
        with_separators(a + b) == with_separators(a) + with_separators(b),
    decreases b.len(),
{
    if b.len() == 0 {
        assert(a + b == a);
        assert(with_separators(a) + with_separators(b) == with_separators(a));
    } else {
        lemma_with_separators_append(a, b.drop_last());
        assert((a + b).drop_last() == a + b.drop_last());
        assert((a + b).last() == b.last());
    }
}

/// A single entry is followed by one separator.
pub proof fn lemma_with_separators_single(e: Seq<char>)
    ensures
        with_separators(seq![e]) == seq![e, newline()],
{
    let s = seq![e];
    assert(s.drop_last() =~= Seq::<Seq<char>>::empty());
    assert(with_separators(s.drop_last()) == Seq::<Seq<char>>::empty());
    assert(Seq::<Seq<char>>::empty() + seq![e, newline()] =~= seq![e, newline()]);
}

/// Whether some character of `s` satisfies `p`.
pub open spec fn has_char_where(s: Seq<char>, p: spec_fn(char) -> bool) -> bool {
    exists|i: int| 0 <= i < s.len() && p(#[trigger] s[i])
}

/// A character that a file name given to the tool may not hold:
/// `\ / = : * ? " ' , ; ! { } [ ] ( ) < > |`.
pub open spec fn is_forbidden_filename_char(c: char) -> bool {
    c == '\\' || c == '/' || c == '=' || c == ':' || c == '*' || c == '?' || c == '"' || c == '\''
        || c == ',' || c == ';' || c == '!' || c == '{' || c == '}' || c == '[' || c == ']'
        || c == '(' || c == ')' || c == '<' || c == '>' || c == '|'
}

/// Which character test a scan applies.
pub enum CharClass {
    /// One given character.
    Exactly(char),
    /// A character forbidden in file names.
    ForbiddenInFilename,
}

/// Whether `c` belongs to `class`.
pub open spec fn in_class(class: CharClass, c: char) -> bool {
    match class {
        CharClass::Exactly(x) => c == x,
        CharClass::ForbiddenInFilename => is_forbidden_filename_char(c),
    }
}

fn char_in_class(class: &CharClass, c: char) -> (res: bool)
    ensures
        res == in_class(*class, c),
{
    match class {
        CharClass::Exactly(x) => c == *x,
        CharClass::ForbiddenInFilename => c == '\\' || c == '/' || c == '=' || c == ':' || c == '*'
            || c == '?' || c == '"' || c == '\'' || c == ',' || c == ';' || c == '!' || c == '{'
            || c == '}' || c == '[' || c == ']' || c == '(' || c == ')' || c == '<' || c == '>'
            || c == '|',
    }
}

/// Whether some character of `s` belongs to `class`.
pub fn has_char_in(s: &str, class: CharClass) -> (res: bool)
    ensures
        res == has_char_where(s@, |c: char| in_class(class, c)),
{
    let n = s.unicode_len();
    let mut i: usize = 0;
    while i < n
        invariant
            i <= n,
            n == s@.len(),
            forall|j: int| 0 <= j < i ==> !in_class(class, #[trigger] s@[j]),
        decreases n - i,
    {
        let c = s.get_char(i);
        if char_in_class(&class, c) {
            assert((|c: char| in_class(class, c))(s@[i as int]));
            return true;
        }
        i = i + 1;
    }
    false
}

/// What `distinct_entries` keeps: no separator, no entry twice, and every
/// entry of `s` that is not a separator.
pub proof fn lemma_distinct_entries(s: Seq<Seq<char>>)
    ensures
        distinct_entries(s).no_duplicates(),
        !distinct_entries(s).contains(newline()),
        forall|x: Seq<char>| #[trigger] distinct_entries(s).contains(x) <==> (s.contains(x) && x != newline()),
    decreases s.len(),
{
    if s.len() > 0 {
        let p = s.drop_last();
        lemma_distinct_entries(p);
        let d = distinct_entries(p);
        assert forall|x: Seq<char>| #[trigger] s.contains(x) <==> (p.contains(x) || x == s.last()) by {
            if s.contains(x) {
                let j = choose|j: int| 0 <= j < s.len() && s[j] == x;
                if j < s.len() - 1 {
                    assert(p[j] == x);
                }
            }
            if p.contains(x) {
                let j = choose|j: int| 0 <= j < p.len() && p[j] == x;
                assert(s[j] == x);
            }
            if x == s.last() {
                assert(s[s.len() - 1] == x);
            }
        }
        if !(s.last() == newline() || d.contains(s.last())) {
            let e = s.last();
            assert forall|x: Seq<char>| #[trigger] d.push(e).contains(x) <==> (d.contains(x) || x == e) by {
                if d.push(e).contains(x) {
                    let j = choose|j: int| 0 <= j < d.push(e).len() && d.push(e)[j] == x;
                    if j < d.len() {
                        assert(d[j] == x);
                    }
                }
                if d.contains(x) {
                    let j = choose|j: int| 0 <= j < d.len() && d[j] == x;
                    assert(d.push(e)[j] == x);
                }
                if x == e {
                    assert(d.push(e)[d.len() as int] == x);
                }
            }
        }
    }
}

/// How many entries of `s` equal `x`.
pub open spec fn count_of(s: Seq<Seq<char>>, x: Seq<char>) -> nat
    decreases s.len(),
{
    if s.len() == 0 {
        0
    } else {
        count_of(s.drop_last(), x) + if s.last() == x { 1nat } else { 0nat }
    }
}

/// An entry occurs in `s` exactly when it is counted there.
pub proof fn lemma_count_of_contains(s: Seq<Seq<char>>, x: Seq<char>)
    ensures
        count_of(s, x) > 0 <==> s.contains(x),
        count_of(s, x) <= s.len(),
    decreases s.len(),
{
    if s.len() > 0 {
        let p = s.drop_last();
        lemma_count_of_contains(p, x);
        if p.contains(x) {
            let j = choose|j: int| 0 <= j < p.len() && p[j] == x;
            assert(s[j] == x);
        }
        if s.last() == x {
            assert(s[s.len() - 1] == x);
        }
        if s.contains(x) {
            let j = choose|j: int| 0 <= j < s.len() && s[j] == x;
            if j < s.len() - 1 {
                assert(p[j] == x);
            }
        }
    }
}

/// The position of a string equal to `s` in `v`, if any.
pub fn find_string(v: &Vec<String>, s: &String) -> (res: Option<usize>)
    ensures
        match res {
            Some(k) => k < v.len() && v@[k as int]@ == s@,
            None => !views(v@).contains(s@),
        },
{
    let mut i: usize = 0;
    while i < v.len()
        invariant
            i <= v.len(),
            forall|j: int| 0 <= j < i ==> v@[j]@ != s@,
        decreases v.len() - i,
    {
        if v[i] == *s {
            return Some(i);
        }
        i = i + 1;
    }
    assert forall|j: int| 0 <= j < views(v@).len() implies views(v@)[j] != s@ by {
        assert(views(v@)[j] == v@[j]@);
    }
    None
}

/// No entry of `s` holds a newline character.
pub open spec fn newline_free(s: Seq<Seq<char>>) -> bool {
    forall|k: int| 0 <= k < s.len() ==> !(#[trigger] s[k]).contains('\n')
}

/// The entries of `s`, each kept at its first occurrence only.
pub open spec fn first_occurrences(s: Seq<Seq<char>>) -> Seq<Seq<char>>
    decreases s.len(),
{
    if s.len() == 0 {
        seq![]
    } else {
        let d = first_occurrences(s.drop_last());
        if d.contains(s.last()) {
            d
        } else {
            d.push(s.last())
        }
    }
}

/// Newline-free entries are not separators, so keeping distinct entries is
/// keeping first occurrences.
pub proof fn lemma_distinct_is_first_occurrences(s: Seq<Seq<char>>)
    requires
        newline_free(s),
    ensures
        distinct_entries(s) == first_occurrences(s),
    decreases s.len(),
{
    if s.len() > 0 {
        let p = s.drop_last();
        assert forall|k: int| 0 <= k < p.len() implies !(#[trigger] p[k]).contains('\n') by {
            assert(p[k] == s[k]);
        }
        lemma_distinct_is_first_occurrences(p);
        assert(!s[s.len() - 1].contains('\n'));
        assert(newline()[0] == '\n');
        assert(s.last() != newline());
    }
}

/// Joining two newline-free lists gives a newline-free list.
pub proof fn lemma_newline_free_append(a: Seq<Seq<char>>, b: Seq<Seq<char>>)
    requires
        newline_free(a),
        newline_free(b),
    ensures
        newline_free(a + b),
{
    assert forall|k: int| 0 <= k < (a + b).len() implies !(#[trigger] (a + b)[k]).contains('\n') by {
        if k < a.len() {
            assert((a + b)[k] == a[k]);
        } else {
            assert((a + b)[k] == b[k - a.len()]);
        }
    }
}

/// A fresh `String` holding the separator entry.
pub fn newline_string() -> (s: String)
    ensures
        s@ == newline(),
{
    let lit = "\n";
    proof {
        reveal_strlit("\n");
    }
    lit.to_string()
}

/// Whether `v` holds a string equal to `s`.
pub fn contains_string(v: &Vec<String>, s: &String) -> (res: bool)
    ensures
        res == views(v@).contains(s@),
{
    let mut i: usize = 0;
    while i < v.len()
        invariant
            i <= v.len(),
            forall|j: int| 0 <= j < i ==> v@[j]@ != s@,
        decreases v.len() - i,
    {
        if v[i] == *s {
            assert(views(v@)[i as int] == s@);
            return true;
        }
        i = i + 1;
    }
    assert forall|j: int| 0 <= j < views(v@).len() implies views(v@)[j] != s@ by {
        assert(views(v@)[j] == v@[j]@);
    }
    false
}

/// Appends every string of `items` to `out`, each followed by a separator.
pub fn append_with_separators(out: &mut Vec<String>, items: &Vec<String>)
    ensures
        views(final(out)@) == views(old(out)@) + with_separators(views(items@)),
{
    let sep = newline_string();
    let mut i: usize = 0;
    while i < items.len()
        invariant
            i <= items.len(),
            sep@ == newline(),
            views(out@) == views(old(out)@) + with_separators(views(items@).take(i as int)),
        decreases items.len() - i,
    {
        let ghost before = views(out@);
        let ghost next = views(items@).take(i + 1);
        assert(next.drop_last() == views(items@).take(i as int));
        assert(next.last() == items@[i as int]@);
        out.push(items[i].clone());
        out.push(sep.clone());
        assert(views(out@) == before + seq![items@[i as int]@, newline()]);
        i = i + 1;
    }
    assert(views(items@).take(items.len() as int) == views(items@));
}

/// Removes the separators and every repeated entry of a filtered log list,
/// keeping first occurrences in order, and puts a separator after each entry
/// that remains.
pub fn dedup_entries(entries: &Vec<String>) -> (res: Vec<String>)
    ensures
        views(res@) == with_separators(distinct_entries(views(entries@))),
{
    let sep = newline_string();
    let mut seen: Vec<String> = Vec::new();
    let mut res: Vec<String> = Vec::new();
    let mut i: usize = 0;
    while i < entries.len()
        invariant
            i <= entries.len(),
            sep@ == newline(),
            views(seen@) == distinct_entries(views(entries@).take(i as int)),
            views(res@) == with_separators(views(seen@)),
        decreases entries.len() - i,
    {
        let e = &entries[i];
        let ghost prefix = views(entries@).take(i as int);
        let ghost next = views(entries@).take(i + 1);
        assert(next.drop_last() == prefix);
        assert(next.last() == e@);
        if !(*e == sep) && !contains_string(&seen, e) {
            let ghost old_seen = views(seen@);
            seen.push(e.clone());
            res.push(e.clone());
            res.push(sep.clone());
            assert(views(seen@) == old_seen.push(e@));
            assert(views(seen@).drop_last() == old_seen);
        }
        i = i + 1;
    }
    assert(views(entries@).take(entries.len() as int) == views(entries@));
    res
}

} // verus!
