//! Listings that come page by page, and what is gathered from them.

use crate::error::{ErrorModel, Result};
use crate::store::page::{at_most, page_limit, page_size};
use crate::store::s3::names::{prefix_outcome, s3_collection_prefix};
use crate::store::s3::store::{collections_of, extended, keys_of, S3Store, DELETE_LIMIT};
use crate::text::texts;
use vstd::prelude::*;

verus! {

/// A page of a listing: the object keys on it, and where it goes on.
#[derive(Debug, PartialEq, Eq)]
pub struct ListPage {
    pub objects: Vec<String>,
    pub truncated: Option<bool>,
    pub next: Option<String>,
}

/// What follows a page.
#[derive(Debug, PartialEq, Eq)]
pub enum ListStep {
    /// The next page is asked for, with the token that the last one gave.
    More(Option<String>),
    /// The listing is at its end, or enough was found.
    Done,
}

impl ListPage {
    /// What follows this page, given whether more is wanted.
    pub open spec fn followed(self, wanted: bool) -> ListStep {
        if self.truncated == Some(true) && wanted {
            ListStep::More(self.next)
        } else {
            ListStep::Done
        }
    }

    /// What follows this page, given whether more is wanted.
    pub fn into_step(self, wanted: bool) -> (step: ListStep)
        ensures
            step == self.followed(wanted),
    {
        match self.truncated {
            Some(true) if wanted => ListStep::More(self.next),
            _ => ListStep::Done,
        }
    }

    /// The objects on this page, to be deleted together; none once the listing is empty.
    pub fn into_batch(self) -> (batch: Option<Vec<String>>)
        ensures
            match batch {
                Some(objects) => objects@ == self.objects@ && self.objects@.len() > 0,
                None => self.objects@.len() == 0,
            },
    {
        if self.objects.len() == 0 {
            None
        } else {
            Some(self.objects)
        }
    }
}

fn truncated(items: Vec<String>, size: usize) -> (page: Vec<String>)
    ensures
        texts(page@) == at_most(texts(items@), size as nat),
{
    let ghost all = texts(items@);
    let mut page = items;
    if page.len() > size {
        page.truncate(size);
        assert(texts(page@) =~= all.take(size as int));
    }
    page
}

fn appended(list: Vec<String>, more: &Vec<String>) -> (whole: Vec<String>)
    ensures
        texts(whole@) == texts(list@) + texts(more@),
{
    let ghost first = texts(list@);
    let mut whole = list;
    let mut i: usize = 0;
    assert(first + texts(more@).take(0) =~= first);
    while i < more.len()
        invariant
            i <= more@.len(),
            texts(whole@) == first + texts(more@).take(i as int),
        decreases more@.len() - i,
    {
        let ghost before = whole@;
        whole.push(more[i].clone());
        proof {
            assert(texts(whole@) =~= texts(before).push(more@[i as int]@));
            assert(texts(more@).take(i + 1) =~= texts(more@).take(i as int).push(
                more@[i as int]@,
            ));
            assert(texts(whole@) =~= first + texts(more@).take(i + 1));
        }
        i += 1;
    }
    assert(texts(more@).take(i as int) =~= texts(more@));
    whole
}

/// The keys of a collection, gathered page by page.
pub struct KeyListing {
    collection: String,
    limit: usize,
    keys: Vec<String>,
}

impl KeyListing {
    pub closed spec fn collection(&self) -> Seq<char> {
        self.collection@
    }

    pub closed spec fn limit(&self) -> nat {
        self.limit as nat
    }

    /// The keys that were found.
    pub closed spec fn found(&self) -> Seq<Seq<char>> {
        texts(self.keys@)
    }

    /// Starts a listing, and says what the object keys on it start with.
    pub fn start(collection: &str, limit: Option<usize>) -> (listing: Result<(Self, String)>)
        ensures
            match listing {
                Ok((l, prefix)) => prefix_outcome(collection@) == Ok::<_, ErrorModel>(prefix@)
                    && l.collection() == collection@ && l.limit() == page_size(limit) && l.found()
                    == Seq::<Seq<char>>::empty(),
                Err(e) => prefix_outcome(collection@) == Err::<Seq<char>, _>(e@),
            },
    {
        let prefix = s3_collection_prefix(collection)?;
        let listing = KeyListing {
            collection: collection.to_owned(),
            limit: page_limit(limit),
            keys: Vec::new(),
        };
        assert(listing.found() =~= Seq::empty());
        Ok((listing, prefix))
    }

    /// Takes in a page, all of whose objects must belong to the collection.
    pub fn take_in(self, page: ListPage) -> (listing: Result<(Self, ListStep)>)
        ensures
            ({
                let read = keys_of(self.collection(), texts(page.objects@), page.objects@.len());
                match listing {
                    Ok((l, step)) => read is Ok && l.collection() == self.collection() && l.limit()
                        == self.limit() && l.found() == self.found() + read->Ok_0 && step
                        == page.followed(l.found().len() < l.limit()),
                    Err(e) => read == Err::<Seq<Seq<char>>, _>(e@),
                }
            }),
    {
        let more = S3Store::page_keys(self.collection.as_str(), &page.objects)?;
        let keys = appended(self.keys, &more);
        let wanted = S3Store::wants_next_page(page.truncated, keys.len(), self.limit);
        let step = if wanted {
            ListStep::More(page.next)
        } else {
            ListStep::Done
        };
        Ok((KeyListing { collection: self.collection, limit: self.limit, keys }, step))
    }

    /// The keys that were found, as many as fit on a page.
    pub fn finish(self) -> (keys: Vec<String>)
        ensures
            texts(keys@) == at_most(self.found(), self.limit()),
    {
        truncated(self.keys, self.limit)
    }
}

/// The collections, gathered page by page, each once.
pub struct CollectionListing {
    limit: usize,
    names: Vec<String>,
}

impl CollectionListing {
    pub closed spec fn limit(&self) -> nat {
        self.limit as nat
    }

    /// The names that were found.
    pub closed spec fn found(&self) -> Seq<Seq<char>> {
        texts(self.names@)
    }

    pub fn start(limit: Option<usize>) -> (listing: Self)
        ensures
            listing.limit() == page_size(limit),
            listing.found() == Seq::<Seq<char>>::empty(),
    {
        let listing = CollectionListing { limit: page_limit(limit), names: Vec::new() };
        assert(listing.found() =~= Seq::empty());
        listing
    }

    /// Takes in a page.
    pub fn take_in(self, page: ListPage) -> (listing: Result<(Self, ListStep)>)
        ensures
            ({
                let read = collections_of(texts(page.objects@), page.objects@.len());
                match listing {
                    Ok((l, step)) => read is Ok && l.limit() == self.limit() && l.found()
                        == extended(self.found(), read->Ok_0) && step == page.followed(
                        l.found().len() < l.limit(),
                    ),
                    Err(e) => read == Err::<Seq<Seq<char>>, _>(e@),
                }
            }),
    {
        let names = S3Store::page_collections(self.names, &page.objects)?;
        let wanted = S3Store::wants_next_page(page.truncated, names.len(), self.limit);
        let step = if wanted {
            ListStep::More(page.next)
        } else {
            ListStep::Done
        };
        Ok((CollectionListing { limit: self.limit, names }, step))
    }

    /// The names that were found, as many as fit on a page.
    pub fn finish(self) -> (names: Vec<String>)
        ensures
            texts(names@) == at_most(self.found(), self.limit()),
    {
        truncated(self.names, self.limit)
    }
}

/// A run of texts cut into pieces of a given size; the last may be shorter.
pub open spec fn chunks(items: Seq<Seq<char>>, size: nat) -> Seq<Seq<Seq<char>>>
    decreases items.len(),
{
    if size == 0 || items.len() == 0 {
        Seq::empty()
    } else if items.len() <= size {
        seq![items]
    } else {
        seq![items.take(size as int)] + chunks(items.skip(size as int), size)
    }
}

proof fn lemma_chunks_step(items: Seq<Seq<char>>, size: nat)
    requires
        size > 0,
        items.len() > size,
    ensures
        chunks(items, size) == seq![items.take(size as int)] + chunks(
            items.skip(size as int),
            size,
        ),
{
}

/// Cutting a run into pieces loses and changes nothing: the pieces joined are the run, and each
/// has at least one item and at most the given number.
pub proof fn law_chunks_whole(items: Seq<Seq<char>>, size: nat)
    requires
        size > 0,
    ensures
        chunks(items, size).flatten() == items,
        forall|i: int|
            0 <= i < chunks(items, size).len() ==> 1 <= (#[trigger] chunks(items, size)[i]).len()
                <= size,
    decreases items.len(),
{
    reveal_with_fuel(Seq::flatten, 2);
    if items.len() == 0 {
        assert(chunks(items, size).flatten() =~= items);
    } else if items.len() <= size {
        let one = seq![items];
        assert(one.drop_first() =~= Seq::<Seq<Seq<char>>>::empty());
        assert(one.flatten() =~= items);
    } else {
        let rest = items.skip(size as int);
        law_chunks_whole(rest, size);
        let whole = chunks(items, size);
        assert(whole.drop_first() =~= chunks(rest, size));
        assert(whole.first() == items.take(size as int));
        assert(whole.flatten() =~= items);
        assert forall|i: int| 0 <= i < whole.len() implies 1 <= (#[trigger] whole[i]).len()
            <= size by {
            if i > 0 {
                assert(whole[i] == chunks(rest, size)[i - 1]);
            }
        }
    }
}

/// The model of a list of batches.
pub open spec fn batches_model(batches: Seq<Vec<String>>) -> Seq<Seq<Seq<char>>> {
    batches.map_values(|b: Vec<String>| texts(b@))
}

/// Object keys that are gathered page by page to be deleted.
pub struct Sweep {
    collection: String,
    doomed: Vec<String>,
}

impl Sweep {
    pub closed spec fn collection(&self) -> Seq<char> {
        self.collection@
    }

    /// The object keys that are to be deleted.
    pub closed spec fn doomed(&self) -> Seq<Seq<char>> {
        texts(self.doomed@)
    }

    /// Starts to gather a collection, and says what the object keys start with.
    pub fn start(collection: &str) -> (sweep: Result<(Self, String)>)
        ensures
            match sweep {
                Ok((s, prefix)) => prefix_outcome(collection@) == Ok::<_, ErrorModel>(prefix@)
                    && s.collection() == collection@ && s.doomed() == Seq::<Seq<char>>::empty(),
                Err(e) => prefix_outcome(collection@) == Err::<Seq<char>, _>(e@),
            },
    {
        let prefix = s3_collection_prefix(collection)?;
        let sweep = Sweep { collection: collection.to_owned(), doomed: Vec::new() };
        assert(sweep.doomed() =~= Seq::empty());
        Ok((sweep, prefix))
    }

    /// Takes in a page, all of whose objects must belong to the collection. All pages are gathered
    /// before anything is deleted, so that a foreign object stops the sweep with nothing lost.
    pub fn take_in(self, page: ListPage) -> (sweep: Result<(Self, ListStep)>)
        ensures
            ({
                let read = keys_of(self.collection(), texts(page.objects@), page.objects@.len());
                match sweep {
                    Ok((s, step)) => read is Ok && s.collection() == self.collection()
                        && s.doomed() == self.doomed() + texts(page.objects@) && step
                        == page.followed(true),
                    Err(e) => read == Err::<Seq<Seq<char>>, _>(e@),
                }
            }),
    {
        let _ = S3Store::page_keys(self.collection.as_str(), &page.objects)?;
        let doomed = appended(self.doomed, &page.objects);
        Ok((Sweep { collection: self.collection, doomed }, page.into_step(true)))
    }

    /// The batches in which the object keys are deleted, as many at once as the service takes.
    /// There are none exactly where there is nothing to delete.
    pub fn batches(&self) -> (batches: Vec<Vec<String>>)
        ensures
            batches_model(batches@) == chunks(self.doomed(), DELETE_LIMIT as nat),
            batches@.len() == 0 <==> self.doomed().len() == 0,
    {
        let ghost all = texts(self.doomed@);
        let ghost wanted = chunks(all, DELETE_LIMIT as nat);
        let n: usize = self.doomed.len();
        let mut batches: Vec<Vec<String>> = Vec::new();
        let mut i: usize = 0;
        proof {
            assert(all.skip(0) =~= all);
            assert(batches_model(batches@) + chunks(all.skip(0), DELETE_LIMIT as nat) =~= wanted);
        }
        while i < n
            invariant
                i <= n,
                n == self.doomed@.len(),
                all == texts(self.doomed@),
                batches_model(batches@) + chunks(all.skip(i as int), DELETE_LIMIT as nat) == wanted,
            decreases n - i,
        {
            let end: usize = if n - i > DELETE_LIMIT {
                i + DELETE_LIMIT
            } else {
                n
            };
            let ghost before = batches@;
            let mut batch: Vec<String> = Vec::new();
            let mut j: usize = i;
            assert(texts(batch@) =~= all.subrange(i as int, i as int));
            while j < end
                invariant
                    i <= j <= end <= n,
                    n == self.doomed@.len(),
                    all == texts(self.doomed@),
                    texts(batch@) == all.subrange(i as int, j as int),
                decreases end - j,
            {
                let ghost earlier = batch@;
                batch.push(self.doomed[j].clone());
                proof {
                    assert(texts(batch@) =~= texts(earlier).push(all[j as int]));
                    assert(all.subrange(i as int, j + 1) =~= all.subrange(i as int, j as int).push(
                        all[j as int],
                    ));
                }
                j += 1;
            }
            let ghost piece = texts(batch@);
            batches.push(batch);
            proof {
                let rest = all.skip(i as int);
                assert(batches_model(batches@) =~= batches_model(before).push(piece));
                if n - i > DELETE_LIMIT {
                    lemma_chunks_step(rest, DELETE_LIMIT as nat);
                    assert(rest.take(DELETE_LIMIT as int) =~= piece);
                    assert(rest.skip(DELETE_LIMIT as int) =~= all.skip(end as int));
                } else {
                    assert(rest =~= piece);
                    assert(chunks(rest, DELETE_LIMIT as nat) =~= seq![piece]);
                    assert(chunks(all.skip(end as int), DELETE_LIMIT as nat) =~= Seq::empty());
                }
                assert(batches_model(batches@) + chunks(all.skip(end as int), DELETE_LIMIT as nat)
                    =~= wanted);
            }
            i = end;
        }
        proof {
            assert(chunks(all.skip(n as int), DELETE_LIMIT as nat) =~= Seq::empty());
            assert(batches_model(batches@) =~= wanted);
        }
        batches
    }
}

} // verus!
