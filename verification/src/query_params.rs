//! Query parameters of a directory listing request.
use vstd::prelude::*;

use crate::path::{lemma_split_after_sep, lemma_split_single, split_chars, split_on, texts};
use crate::text::{ascii_lower, chars_eq_str, chars_of, to_ascii_lowercase};

verus! {

/// The order a directory listing is asked for.
#[derive(Debug, PartialEq, Eq, Structural)]
pub enum SortBy {
    Name,
    Size,
    DateCreated,
    DateModified,
}

/// The value is not one of the sort orders.
#[derive(Debug, PartialEq, Eq, Structural)]
pub struct UnknownSortOrder;

/// The sort order a value names, compared without regard to ASCII case.
pub open spec fn sort_by_named(s: Seq<char>) -> Option<SortBy> {
    let l = ascii_lower(s);
    if l == "name"@ {
        Some(SortBy::Name)
    } else if l == "size"@ {
        Some(SortBy::Size)
    } else if l == "date_created"@ {
        Some(SortBy::DateCreated)
    } else if l == "date_modified"@ {
        Some(SortBy::DateModified)
    } else {
        None
    }
}

impl SortBy {
    /// Reads `name`, `size`, `date_created` or `date_modified`, in any ASCII
    /// case.
    pub fn from_str(s: &str) -> (res: Result<SortBy, UnknownSortOrder>)
        ensures
            sort_by_named(s@) matches Some(v) ==> res == Ok::<SortBy, UnknownSortOrder>(v),
            sort_by_named(s@) is None ==> res == Err::<SortBy, UnknownSortOrder>(UnknownSortOrder),
    {
        let chars = chars_of(s);
        let lower = to_ascii_lowercase(&chars);
        proof {
            assert(ascii_lower(lower@) =~= lower@);
            assert(ascii_lower(lower@) =~= ascii_lower(s@));
        }
        Self::from_chars(&lower)
    }

    fn from_chars(lower: &Vec<char>) -> (res: Result<SortBy, UnknownSortOrder>)
        requires
            ascii_lower(lower@) == lower@,
        ensures
            sort_by_named(lower@) matches Some(v) ==> res == Ok::<SortBy, UnknownSortOrder>(v),
            sort_by_named(lower@) is None ==> res == Err::<SortBy, UnknownSortOrder>(UnknownSortOrder),
    {
        if chars_eq_str(lower, "name") {
            Ok(SortBy::Name)
        } else if chars_eq_str(lower, "size") {
            Ok(SortBy::Size)
        } else if chars_eq_str(lower, "date_created") {
            Ok(SortBy::DateCreated)
        } else if chars_eq_str(lower, "date_modified") {
            Ok(SortBy::DateModified)
        } else {
            Err(UnknownSortOrder)
        }
    }
}

/// The parameters read from a query string.
#[derive(Debug, PartialEq, Eq, Structural)]
pub struct QueryParams {
    pub sort_by: Option<SortBy>,
}

/// The sort order that the `key=value` pairs `sets` set: the last
/// `sort_by` pair whose value names a sort order wins; pieces without `=`,
/// other keys and unknown values are ignored.
pub open spec fn sort_by_param(sets: Seq<Seq<char>>) -> Option<SortBy>
    decreases sets.len(),
{
    if sets.len() == 0 {
        None
    } else {
        let kv = split_on(sets.last(), '=');
        if kv.len() >= 2 && kv[0] == "sort_by"@ && sort_by_named(kv[1]) is Some {
            sort_by_named(kv[1])
        } else {
            sort_by_param(sets.drop_last())
        }
    }
}

impl QueryParams {
    /// Reads a query string of `&`-separated `key=value` pairs; it never
    /// fails.
    pub fn from_str(s: &str) -> (res: Result<QueryParams, UnknownSortOrder>)
        ensures
            res == Ok::<QueryParams, UnknownSortOrder>(
                QueryParams { sort_by: sort_by_param(split_on(s@, '&')) },
            ),
    {
        let chars = chars_of(s);
        let sets = split_chars(&chars, '&');
        let mut sort_by: Option<SortBy> = None;
        let mut i: usize = 0;
        assert(texts(sets@).take(0) =~= Seq::<Seq<char>>::empty());
        while i < sets.len()
            invariant
                i <= sets.len(),
                texts(sets@) == split_on(s@, '&'),
                sort_by == sort_by_param(texts(sets@).take(i as int)),
            decreases sets.len() - i,
        {
            proof {
                assert(texts(sets@).take(i + 1).drop_last() =~= texts(sets@).take(i as int));
                assert(texts(sets@).take(i + 1).last() == sets@[i as int]@);
            }
            let kv = split_chars(&sets[i], '=');
            if kv.len() >= 2 && chars_eq_str(&kv[0], "sort_by") {
                assert(texts(kv@)[0] == kv@[0]@);
                assert(texts(kv@)[1] == kv@[1]@);
                let lower = to_ascii_lowercase(&kv[1]);
                proof {
                    assert(ascii_lower(lower@) =~= lower@);
                    assert(sort_by_named(lower@) == sort_by_named(kv@[1]@)) by {
                        assert(ascii_lower(lower@) =~= ascii_lower(kv@[1]@));
                    }
                }
                match SortBy::from_chars(&lower) {
                    Ok(v) => {
                        sort_by = Some(v);
                    },
                    Err(_) => {},
                }
            }
            i = i + 1;
        }
        assert(texts(sets@).take(sets.len() as int) =~= texts(sets@));
        Ok(QueryParams { sort_by })
    }
}

/// ASCII lower-casing twice is lower-casing once.
proof fn lemma_ascii_lower_idempotent(v: Seq<char>)
    ensures
        ascii_lower(ascii_lower(v)) == ascii_lower(v),
{
    assert(ascii_lower(ascii_lower(v)) =~= ascii_lower(v));
}

/// The sort order a value names does not depend on the ASCII case of the
/// value.
pub proof fn lemma_sort_order_ignores_case(v: Seq<char>)
    ensures
        sort_by_named(ascii_lower(v)) == sort_by_named(v),
{
    lemma_ascii_lower_idempotent(v);
}

proof fn lemma_pair_pieces(v: Seq<char>)
    requires
        !v.contains('&'),
        !v.contains('='),
    ensures
        !("sort_by="@ + v).contains('&'),
        split_on("sort_by="@ + v, '=') == seq!["sort_by"@, v],
{
    reveal_strlit("sort_by=");
    reveal_strlit("sort_by");
    let key = "sort_by"@;
    let pair = "sort_by="@ + v;
    assert(!key.contains('=')) by {
        if key.contains('=') {
            let k = choose|k: int| 0 <= k < key.len() && key[k] == '=';
        }
    }
    assert(!pair.contains('&')) by {
        if pair.contains('&') {
            let k = choose|k: int| 0 <= k < pair.len() && pair[k] == '&';
            if k >= 8 {
                assert(v[k - 8] == '&');
            }
        }
    }
    assert(pair =~= key + seq!['='] + v);
    lemma_split_after_sep(key, v, '=');
    lemma_split_single(key, '=');
    assert(split_on(key, '=').push(v) =~= seq![key, v]);
}

/// A `sort_by=v` pair decides the order of the query it ends: appending
/// `&sort_by=v` (with `v` free of `&` and `=`) to any query asks for the
/// order `v` names when it names one, and leaves the query's order as it
/// was otherwise.
pub proof fn lemma_later_pair_wins(q: Seq<char>, v: Seq<char>)
    requires
        !v.contains('&'),
        !v.contains('='),
    ensures
        sort_by_param(split_on(q + "&sort_by="@ + v, '&')) == (if sort_by_named(v) is Some {
            sort_by_named(v)
        } else {
            sort_by_param(split_on(q, '&'))
        }),
{
    reveal_strlit("&sort_by=");
    reveal_strlit("sort_by=");
    let pair = "sort_by="@ + v;
    lemma_pair_pieces(v);
    assert(q + "&sort_by="@ + v =~= q + seq!['&'] + pair);
    lemma_split_after_sep(q, pair, '&');
    let sets = split_on(q, '&').push(pair);
    assert(sets.drop_last() =~= split_on(q, '&'));
    assert(sets.last() == pair);
    let kv = split_on(pair, '=');
    assert(kv.len() >= 2 && kv[0] == "sort_by"@ && kv[1] == v);
}

/// A query string made of the single pair `sort_by=v` (with `v` free of `&`
/// and `=`) asks for exactly the order that `SortBy::from_str` reads from
/// `v`, in whatever ASCII case `v` is written, and for none when `v` names
/// no order.
pub proof fn lemma_single_sort_pair(v: Seq<char>)
    requires
        !v.contains('&'),
        !v.contains('='),
    ensures
        sort_by_param(split_on("sort_by="@ + v, '&')) == sort_by_named(v),
        sort_by_param(split_on("sort_by="@ + v, '&')) == sort_by_named(ascii_lower(v)),
{
    reveal_strlit("sort_by=");
    let pair = "sort_by="@ + v;
    lemma_pair_pieces(v);
    lemma_split_single(pair, '&');
    let kv = split_on(pair, '=');
    assert(seq![pair].drop_last() =~= Seq::<Seq<char>>::empty());
    assert(seq![pair].last() == pair);
    assert(sort_by_param(Seq::<Seq<char>>::empty()) is None);
    assert(kv.len() >= 2 && kv[0] == "sort_by"@ && kv[1] == v);
    if sort_by_named(v) is Some {
        assert(sort_by_param(seq![pair]) == sort_by_named(v));
    } else {
        assert(sort_by_param(seq![pair]) == sort_by_param(seq![pair].drop_last()));
    }
    lemma_sort_order_ignores_case(v);
}

} // verus!
