use vstd::prelude::*;

use crate::text::{same_chars, split_words, string_of, words};
use crate::utilities::ParallelizationStrategy;

verus! {

/// One sort key: a column and whether it sorts in descending order.
pub struct SortKey {
    pub column: String,
    pub descending: bool,
}

/// The sort key that a word of a sort list names: a leading `-` (with a
/// name after it) asks for descending order.
pub open spec fn sort_key_of(w: Seq<char>) -> (Seq<char>, bool) {
    if w.len() > 1 && w[0] == '-' {
        (w.skip(1), true)
    } else {
        (w, false)
    }
}

/// The sort keys of the sort list `sort`, one per word, in order.
pub fn parse_sort(sort: &str) -> (r: Vec<SortKey>)
    ensures
        r@.len() == words(sort@).len(),
        forall|i: int|
            0 <= i < r@.len() ==> (#[trigger] r@[i].column@, r@[i].descending) == sort_key_of(
                words(sort@)[i],
            ),
{
    let ws = split_words(sort);
    let mut r: Vec<SortKey> = Vec::new();
    let mut i: usize = 0;
    while i < ws.len()
        invariant
            i <= ws.len(),
            ws@.map_values(|w: Vec<char>| w@) == words(sort@),
            r@.len() == i,
            forall|k: int|
                0 <= k < i ==> (#[trigger] r@[k].column@, r@[k].descending) == sort_key_of(
                    words(sort@)[k],
                ),
        decreases ws.len() - i,
    {
        let w = &ws[i];
        assert(words(sort@)[i as int] == w@);
        if w.len() > 1 && w[0] == '-' {
            let mut name: Vec<char> = Vec::new();
            let mut k: usize = 1;
            while k < w.len()
                invariant
                    1 <= k <= w.len(),
                    name@ == w@.subrange(1, k as int),
                decreases w.len() - k,
            {
                name.push(w[k]);
                k += 1;
                assert(w@.subrange(1, k as int) == w@.subrange(1, k - 1).push(w@[k - 1]));
            }
            assert(w@.subrange(1, w.len() as int) == w@.skip(1));
            r.push(SortKey { column: string_of(&name), descending: true });
        } else {
            r.push(SortKey { column: string_of(w), descending: false });
        }
        i += 1;
    }
    r
}

/// The name that `renames` gives to `name`: the last pair that renames it
/// wins; a name that no pair renames stays.
pub open spec fn renamed(renames: Seq<(Seq<char>, Seq<char>)>, name: Seq<char>) -> Seq<char>
    decreases renames.len(),
{
    if renames.len() == 0 {
        name
    } else if renames.last().0 == name {
        renames.last().1
    } else {
        renamed(renames.drop_last(), name)
    }
}

/// The views of a list of renames.
pub open spec fn renames_view(r: Seq<(String, String)>) -> Seq<(Seq<char>, Seq<char>)> {
    r.map_values(|p: (String, String)| (p.0@, p.1@))
}

fn rename_one(renames: &Vec<(String, String)>, name: &Vec<char>) -> (r: Vec<char>)
    ensures
        r@ == renamed(renames_view(renames@), name@),
{
    let mut i: usize = renames.len();
    assert(renames@.take(i as int) == renames@);
    while i > 0
        invariant
            i <= renames.len(),
            renamed(renames_view(renames@), name@) == renamed(
                renames_view(renames@.take(i as int)),
                name@,
            ),
        decreases i,
    {
        let (from, to) = &renames[i - 1];
        let f = crate::text::chars_of(from.as_str());
        assert(renames_view(renames@.take(i as int)).drop_last() == renames_view(
            renames@.take(i - 1),
        ));
        assert(renames_view(renames@.take(i as int)).last() == (from@, to@));
        if same_chars(&f, name) {
            return crate::text::chars_of(to.as_str());
        }
        i -= 1;
    }
    let mut v: Vec<char> = Vec::new();
    let mut k: usize = 0;
    while k < name.len()
        invariant
            k <= name.len(),
            v@ == name@.take(k as int),
        decreases name.len() - k,
    {
        v.push(name[k]);
        k += 1;
        assert(name@.take(k as int) == name@.take(k - 1).push(name@[k - 1]));
    }
    assert(name@.take(name.len() as int) == name@);
    v
}

/// The columns that the list `variables` names, each under the name that
/// `renames` gives it.
pub fn resolve_columns(variables: &str, renames: &Vec<(String, String)>) -> (r: Vec<String>)
    ensures
        r@.len() == words(variables@).len(),
        forall|i: int|
            0 <= i < r@.len() ==> #[trigger] r@[i]@ == renamed(
                renames_view(renames@),
                words(variables@)[i],
            ),
{
    let ws = split_words(variables);
    let mut r: Vec<String> = Vec::new();
    let mut i: usize = 0;
    while i < ws.len()
        invariant
            i <= ws.len(),
            ws@.map_values(|w: Vec<char>| w@) == words(variables@),
            r@.len() == i,
            forall|k: int|
                0 <= k < i ==> #[trigger] r@[k]@ == renamed(
                    renames_view(renames@),
                    words(variables@)[k],
                ),
        decreases ws.len() - i,
    {
        assert(words(variables@)[i as int] == ws@[i as int]@);
        let v = rename_one(renames, &ws[i]);
        r.push(string_of(&v));
        i += 1;
    }
    r
}

/// The decomposition that a transfer's strategy argument asks for:
/// `columns` or `rows`; anything else leaves the choice to the heuristic.
pub fn strategy_from_arg(arg: &str) -> (r: Option<ParallelizationStrategy>)
    ensures
        r == (if arg@ == "columns"@ {
            Some(ParallelizationStrategy::ByColumn)
        } else if arg@ == "rows"@ {
            Some(ParallelizationStrategy::ByRow)
        } else {
            None
        }),
{
    if crate::text::same_text(arg, "columns") {
        Some(ParallelizationStrategy::ByColumn)
    } else if crate::text::same_text(arg, "rows") {
        Some(ParallelizationStrategy::ByRow)
    } else {
        None
    }
}

} // verus!
