//! What object keys and pages of a listing are read as.

use crate::entry::{entry_bytes, EntryModel};
use crate::error::ErrorModel;
use crate::store::s3::listing::{batches_model, ListPage, ListStep};
use crate::store::s3::names::{
    decomposed, key_of, key_outcome, lemma_key_behind_prefix, object_len, prefix_len,
    prefix_outcome, taken_apart,
};
use crate::store::s3::store::{
    collections_of, extended, failure_text, failures_text, keys_of, known, object_keys_of,
    says_not_found, writes_model, writes_of, DeleteFailure,
};
use crate::text::{lemma_occurs_around, lemma_occurs_in_itself, occurs_in};
use vstd::prelude::*;
#[allow(unused_imports)]
use vstd::string::*;

verus! {

/// The keys of a page: one for each object, in order, and each object is that key of the
/// collection. It fails exactly at the first object that cannot be read or belongs elsewhere.
pub proof fn law_page_keys(collection: Seq<char>, objects: Seq<Seq<char>>, n: nat)
    requires
        n <= objects.len(),
    ensures
        match keys_of(collection, objects, n) {
            Ok(keys) => keys.len() == n && forall|i: int|
                0 <= i < n ==> decomposed(#[trigger] objects[i]) == Ok::<_, ErrorModel>(
                    (collection, keys[i]),
                ),
            Err(e) => exists|k: int|
                {
                    &&& 0 <= k < n
                    &&& match decomposed(#[trigger] objects[k]) {
                        Err(fault) => e == fault,
                        Ok((c, _)) => c != collection && e is InvalidKey,
                    }
                    &&& forall|j: int|
                        0 <= j < k ==> (decomposed(#[trigger] objects[j]) matches Ok((c, _)) && c
                            == collection)
                },
        },
    decreases n,
{
    if n > 0 {
        let m = (n - 1) as nat;
        law_page_keys(collection, objects, m);
        match keys_of(collection, objects, m) {
            Ok(before) => {
                assert forall|j: int| 0 <= j < m implies (decomposed(
                    #[trigger] objects[j],
                ) matches Ok((c, _)) && c == collection) by {
                    assert(decomposed(objects[j]) == Ok::<_, ErrorModel>((collection, before[j])));
                }
                if keys_of(collection, objects, n) is Err {
                    assert(0 <= m < n);
                }
            },
            Err(e) => {
                let k = choose|k: int|
                    {
                        &&& 0 <= k < m
                        &&& match decomposed(#[trigger] objects[k]) {
                            Err(fault) => e == fault,
                            Ok((c, _)) => c != collection && e is InvalidKey,
                        }
                        &&& forall|j: int|
                            0 <= j < k ==> (decomposed(#[trigger] objects[j]) matches Ok((c, _))
                                && c == collection)
                    };
                assert(0 <= k < n);
            },
        }
    }
}

/// The collections of a page: one for each object, in order; the error is that of the first object
/// that cannot be read.
pub proof fn law_page_collections(objects: Seq<Seq<char>>, n: nat)
    requires
        n <= objects.len(),
    ensures
        match collections_of(objects, n) {
            Ok(names) => names.len() == n && forall|i: int|
                0 <= i < n ==> (decomposed(#[trigger] objects[i]) matches Ok((c, _)) && c
                    == names[i]),
            Err(e) => exists|k: int|
                0 <= k < n && decomposed(#[trigger] objects[k]) == Err::<
                    (Seq<char>, Seq<char>),
                    _,
                >(e),
        },
    decreases n,
{
    if n > 0 {
        let m = (n - 1) as nat;
        law_page_collections(objects, m);
        match collections_of(objects, m) {
            Ok(before) => {
                if let Err(e) = decomposed(objects[m as int]) {
                    assert(0 <= m < n);
                }
            },
            Err(e) => {
                let k = choose|k: int|
                    0 <= k < m && decomposed(#[trigger] objects[k]) == Err::<
                        (Seq<char>, Seq<char>),
                        _,
                    >(e);
                assert(0 <= k < n);
            },
        }
    }
}

/// The object keys of a list of keys: one for each, in order; the error is that of the first key
/// that has none.
pub proof fn law_object_keys(collection: Seq<char>, keys: Seq<Seq<char>>, n: nat)
    requires
        n <= keys.len(),
    ensures
        match object_keys_of(collection, keys, n) {
            Ok(objects) => objects.len() == n && forall|i: int|
                0 <= i < n ==> key_outcome(collection, #[trigger] keys[i]) == Ok::<_, ErrorModel>(
                    objects[i],
                ),
            Err(e) => exists|k: int|
                {
                    &&& 0 <= k < n
                    &&& key_outcome(collection, #[trigger] keys[k]) == Err::<Seq<char>, _>(e)
                    &&& forall|j: int|
                        0 <= j < k ==> key_outcome(collection, #[trigger] keys[j]) is Ok
                },
        },
    decreases n,
{
    if n > 0 {
        let m = (n - 1) as nat;
        law_object_keys(collection, keys, m);
        match object_keys_of(collection, keys, m) {
            Ok(before) => {
                assert forall|j: int| 0 <= j < m implies key_outcome(
                    collection,
                    #[trigger] keys[j],
                ) is Ok by {
                    assert(key_outcome(collection, keys[j]) == Ok::<_, ErrorModel>(before[j]));
                }
                if let Err(e) = key_outcome(collection, keys[m as int]) {
                    assert(0 <= m < n);
                }
            },
            Err(e) => {
                let k = choose|k: int|
                    {
                        &&& 0 <= k < m
                        &&& key_outcome(collection, #[trigger] keys[k]) == Err::<Seq<char>, _>(e)
                        &&& forall|j: int|
                            0 <= j < k ==> key_outcome(collection, #[trigger] keys[j]) is Ok
                    };
                assert(0 <= k < n);
            },
        }
    }
}

/// The writes of a batch: one for each key, in order, to its object key and with the stored form of
/// its own entry.
pub proof fn law_batch_writes(
    collection: Seq<char>,
    keys: Seq<Seq<char>>,
    entries: Seq<EntryModel>,
    n: nat,
)
    requires
        n <= keys.len(),
        n <= entries.len(),
    ensures
        match writes_of(collection, keys, entries, n) {
            Ok(writes) => writes.len() == n && forall|i: int|
                0 <= i < n ==> key_outcome(collection, #[trigger] keys[i]) == Ok::<_, ErrorModel>(
                    writes[i].0,
                ) && writes[i].1 == entry_bytes(entries[i]),
            Err(e) => exists|k: int|
                0 <= k < n && key_outcome(collection, #[trigger] keys[k]) == Err::<
                    Seq<char>,
                    _,
                >(e),
        },
    decreases n,
{
    if n > 0 {
        let m = (n - 1) as nat;
        law_batch_writes(collection, keys, entries, m);
        match writes_of(collection, keys, entries, m) {
            Ok(before) => {
                if let Err(e) = key_outcome(collection, keys[m as int]) {
                    assert(0 <= m < n);
                }
            },
            Err(e) => {
                let k = choose|k: int|
                    0 <= k < m && key_outcome(collection, #[trigger] keys[k]) == Err::<
                        Seq<char>,
                        _,
                    >(e);
                assert(0 <= k < n);
            },
        }
    }
}

/// Adding names to a list keeps the list as it is in front, adds each name that it lacks, and none
/// twice.
pub proof fn law_extended(names: Seq<Seq<char>>, more: Seq<Seq<char>>)
    ensures
        names.is_prefix_of(extended(names, more)),
        names.no_duplicates() ==> extended(names, more).no_duplicates(),
        forall|name: Seq<char>| #[trigger]
            extended(names, more).contains(name) <==> names.contains(name) || more.contains(name),
    decreases more.len(),
{
    let whole = extended(names, more);
    if more.len() == 0 {
        assert(names.is_prefix_of(names)) by {
            assert(names.take(names.len() as int) =~= names);
        }
    } else {
        let rest = more.drop_last();
        let last = more.last();
        let front = extended(names, rest);
        law_extended(names, rest);
        assert forall|name: Seq<char>| #[trigger] whole.contains(name) <==> names.contains(name)
            || more.contains(name) by {
            assert(front.contains(name) <==> names.contains(name) || rest.contains(name));
            assert(more.contains(name) <==> rest.contains(name) || name == last) by {
                if more.contains(name) {
                    let i = choose|i: int| 0 <= i < more.len() && more[i] == name;
                    if i < rest.len() {
                        assert(rest[i] == name);
                    }
                }
                if rest.contains(name) {
                    let i = choose|i: int| 0 <= i < rest.len() && rest[i] == name;
                    assert(more[i] == name);
                }
                if name == last {
                    assert(more[more.len() - 1] == name);
                }
            }
            if whole.len() > front.len() {
                if front.contains(name) {
                    let i = choose|i: int| 0 <= i < front.len() && front[i] == name;
                    assert(whole[i] == name);
                }
                if name == last {
                    assert(whole[front.len() as int] == name);
                }
                if whole.contains(name) && name != last {
                    let i = choose|i: int| 0 <= i < whole.len() && whole[i] == name;
                    assert(front[i] == name);
                }
            }
        }
        assert(names.is_prefix_of(whole)) by {
            assert(whole.take(names.len() as int) =~= front.take(names.len() as int));
        }
    }
}

/// A collection or a key has a name exactly where the whole name fits 1024 bytes; one that does not
/// is an invalid key.
pub proof fn law_names_fit(collection: Seq<char>, key: Seq<char>)
    ensures
        prefix_outcome(collection) is Ok <==> prefix_len(collection) <= 1024,
        key_outcome(collection, key) is Ok <==> object_len(collection, key) <= 1024,
        prefix_outcome(collection) matches Err(e) ==> e is InvalidKey,
        key_outcome(collection, key) matches Err(e) ==> e is InvalidKey,
{
}

/// A failed request counts as a missing object where its words hold one of three marks, wherever
/// they stand, and only there.
pub proof fn law_not_found(before: Seq<char>, behind: Seq<char>, message: Seq<char>)
    ensures
        says_not_found(before + "NoSuchKey"@ + behind),
        says_not_found(before + "404"@ + behind),
        says_not_found(before + "NotFound"@ + behind),
        says_not_found(message) ==> exists|i: int, mark: Seq<char>|
            {
                &&& 0 <= i <= message.len()
                &&& mark == "NoSuchKey"@ || mark == "404"@ || mark == "NotFound"@
                &&& #[trigger] mark.is_prefix_of(#[trigger] message.skip(i))
            },
{
    lemma_occurs(before, "NoSuchKey"@, behind);
    lemma_occurs(before, "404"@, behind);
    lemma_occurs(before, "NotFound"@, behind);
}

proof fn lemma_occurs(before: Seq<char>, mark: Seq<char>, behind: Seq<char>)
    ensures
        occurs_in(mark, before + mark + behind),
{
    let whole = before + mark + behind;
    assert(whole.skip(before.len() as int) =~= mark + behind);
    assert(mark.is_prefix_of(whole.skip(before.len() as int)));
}

/// The next page is asked for exactly where there is one and more is wanted, with the token of this
/// one.
pub proof fn law_next_page(page: ListPage, wanted: bool)
    ensures
        page.followed(wanted) matches ListStep::More(token) ==> page.truncated == Some(true)
            && wanted && token == page.next,
        page.followed(wanted) is Done ==> page.truncated != Some(true) || !wanted,
{
}

/// Whatever cannot be read as an object key is an invalid key.
pub proof fn law_object_key_errors(object_key: Seq<char>)
    ensures
        decomposed(object_key) matches Err(e) ==> e is InvalidKey,
{
    if let Ok((collection, key)) = taken_apart(object_key) {
        assert(key_of(key) matches Err(e) ==> e is InvalidKey);
    } else {
        lemma_collected_errors(
            crate::text::split(object_key, '/'),
            crate::text::decimal_value(crate::text::split(object_key, '/')[1]),
            crate::store::s3::names::chunk_count(
                crate::text::decimal_value(crate::text::split(object_key, '/')[1]),
            ),
        );
    }
}

proof fn lemma_collected_errors(segments: Seq<Seq<char>>, len: nat, i: nat)
    ensures
        crate::store::s3::names::collected(segments, len, i) matches Err(e) ==> e is InvalidKey,
    decreases i,
{
    if i > 0 {
        lemma_collected_errors(segments, len, (i - 1) as nat);
    }
}

/// The writes and batches of a list stand for their items, one for each, in order.
pub proof fn law_lists(writes: Seq<(String, Vec<u8>)>, batches: Seq<Vec<String>>, i: int, j: int)
    ensures
        writes_model(writes).len() == writes.len(),
        batches_model(batches).len() == batches.len(),
        0 <= i < writes.len() ==> writes_model(writes)[i] == (writes[i].0@, writes[i].1@),
        0 <= i < batches.len() ==> {
            &&& batches_model(batches)[i].len() == batches[i]@.len()
            &&& 0 <= j < batches[i]@.len() ==> batches_model(batches)[i][j] == batches[i]@[j]@
        },
{
}

/// Every object key of a collection starts with the prefix of that collection, so a listing by the
/// prefix misses none.
pub proof fn law_keys_behind_prefix(collection: Seq<char>, key: Seq<char>)
    ensures
        match (prefix_outcome(collection), key_outcome(collection, key)) {
            (Ok(prefix), Ok(object_key)) => prefix.is_prefix_of(object_key),
            _ => true,
        },
{
    lemma_key_behind_prefix(
        crate::store::s3::names::encoded_collection(collection),
        crate::store::s3::names::encoded_key(key),
    );
}

proof fn lemma_occurs_between(
    part: Seq<char>,
    before: Seq<char>,
    behind: Seq<char>,
    whole: Seq<char>,
)
    requires
        whole == before + part + behind,
    ensures
        occurs_in(part, whole),
{
    lemma_occurs_in_itself(part);
    lemma_occurs_around(part, part, before, behind);
}

proof fn lemma_three_parts(
    a: Seq<char>,
    b: Seq<char>,
    c: Seq<char>,
    d: Seq<char>,
    e: Seq<char>,
    f: Seq<char>,
)
    ensures
        occurs_in(b, a + b + c + d + e + f),
        occurs_in(d, a + b + c + d + e + f),
        occurs_in(f, a + b + c + d + e + f),
{
    let whole = a + b + c + d + e + f;
    assert(whole =~= a + b + (c + d + e + f));
    lemma_occurs_between(b, a, c + d + e + f, whole);
    assert(whole =~= (a + b + c) + d + (e + f));
    lemma_occurs_between(d, a + b + c, e + f, whole);
    assert(whole =~= (a + b + c + d + e) + f + Seq::<char>::empty());
    lemma_occurs_between(f, a + b + c + d + e, Seq::empty(), whole);
}

/// A failed deletion is named with its key, its code and its message.
pub proof fn law_failure_named(failure: DeleteFailure)
    ensures
        failure.key matches Some(key) ==> occurs_in(key@, failure_text(failure)),
        failure.code matches Some(code) ==> occurs_in(code@, failure_text(failure)),
        failure.message matches Some(message) ==> occurs_in(message@, failure_text(failure)),
{
    lemma_three_parts(
        "key="@,
        known(failure.key),
        " code="@,
        known(failure.code),
        " message="@,
        known(failure.message),
    );
}

/// The error for a batch delete names every failure.
pub proof fn law_failures_named(failures: Seq<DeleteFailure>, n: nat, i: int)
    requires
        0 <= i < n <= failures.len(),
    ensures
        occurs_in(failure_text(failures[i]), failures_text(failures, n)),
    decreases n,
{
    let text = failure_text(failures[i]);
    let whole = failures_text(failures, n);
    if n == 1 {
        lemma_occurs_in_itself(text);
    } else {
        let front = failures_text(failures, (n - 1) as nat);
        let last = failure_text(failures[n - 1]);
        assert(whole == front + ", "@ + last);
        if i < n - 1 {
            law_failures_named(failures, (n - 1) as nat, i);
            lemma_occurs_around(text, front, Seq::empty(), ", "@ + last);
            assert(whole =~= Seq::<char>::empty() + front + (", "@ + last));
        } else {
            assert(whole =~= (front + ", "@) + last + Seq::<char>::empty());
            lemma_occurs_between(text, front + ", "@, Seq::empty(), whole);
        }
    }
}

} // verus!
