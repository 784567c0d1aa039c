//! Pages: how much an enumeration returns at once.

use crate::text::texts;
use vstd::prelude::*;

verus! {

/// The largest page that an enumeration returns, and the size of one that names none.
pub const PAGE_LIMIT: usize = 10_000;

/// The page size for a requested limit.
pub open spec fn page_size(limit: Option<usize>) -> nat {
    match limit {
        Some(n) if n < PAGE_LIMIT => n as nat,
        _ => PAGE_LIMIT as nat,
    }
}

/// The page size for a requested limit.
pub fn page_limit(limit: Option<usize>) -> (size: usize)
    ensures
        size == page_size(limit),
{
    match limit {
        Some(n) if n < PAGE_LIMIT => n,
        _ => PAGE_LIMIT,
    }
}

/// At most so many of the first items.
pub open spec fn at_most(items: Seq<Seq<char>>, size: nat) -> Seq<Seq<char>> {
    if items.len() <= size {
        items
    } else {
        items.take(size as int)
    }
}

/// A page of names: each once, from the given set, as many as there are or fit.
pub open spec fn is_page(page: Seq<Seq<char>>, all: Set<Seq<char>>, size: nat) -> bool {
    &&& page.no_duplicates()
    &&& page.to_set().subset_of(all)
    &&& page.len() == if all.len() < size {
        all.len()
    } else {
        size
    }
}

/// The first names of a list that holds each name of a set once.
pub fn page_of(names: Vec<String>, size: usize) -> (page: Vec<String>)
    requires
        texts(names@).no_duplicates(),
    ensures
        is_page(texts(page@), texts(names@).to_set(), size as nat),
{
    let ghost all = texts(names@);
    let mut page = names;
    proof {
        all.unique_seq_to_set();
    }
    if page.len() > size {
        page.truncate(size);
        proof {
            assert(texts(page@) =~= all.take(size as int));
            assert forall|x: Seq<char>| #[trigger] texts(page@).to_set().contains(x) implies
                all.to_set().contains(x) by {
                let i = choose|i: int| 0 <= i < texts(page@).len() && texts(page@)[i] == x;
                assert(all[i] == x);
            }
        }
    }
    page
}

/// A page has at most ten thousand names, and at most as many as were asked for.
pub proof fn law_page_size(limit: Option<usize>)
    ensures
        page_size(limit) <= 10_000,
        limit matches Some(n) ==> page_size(limit) == if n <= 10_000 {
            n as nat
        } else {
            10_000
        },
        limit is None ==> page_size(limit) == 10_000,
{
}

/// A page holds names of the whole, each once, never more than fit; it holds all of them where they
/// fit, and is full where they do not.
pub proof fn law_page(page: Seq<Seq<char>>, all: Set<Seq<char>>, size: nat)
    requires
        is_page(page, all, size),
        all.finite(),
    ensures
        page.no_duplicates(),
        forall|i: int| 0 <= i < page.len() ==> all.contains(#[trigger] page[i]),
        page.len() <= size,
        all.len() <= size ==> forall|name: Seq<char>| all.contains(name) ==> page.contains(name),
        all.len() > size ==> page.len() == size,
{
    assert forall|i: int| 0 <= i < page.len() implies all.contains(#[trigger] page[i]) by {
        assert(page.to_set().contains(page[i]));
    }
    if all.len() <= size {
        page.unique_seq_to_set();
        vstd::set_lib::lemma_subset_equality(page.to_set(), all);
        assert forall|name: Seq<char>| all.contains(name) implies page.contains(name) by {
            assert(page.to_set().contains(name));
        }
    }
}

/// Of a list at most so many are kept, from the first on, and all where they fit.
pub proof fn law_at_most(items: Seq<Seq<char>>, size: nat)
    ensures
        at_most(items, size).len() == if items.len() < size {
            items.len()
        } else {
            size
        },
        forall|i: int|
            0 <= i < at_most(items, size).len() ==> #[trigger] at_most(items, size)[i] == items[i],
{
}

} // verus!
