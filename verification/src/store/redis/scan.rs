//! Scans of the server's keys: the pattern that selects them, and what is read off them.

use crate::error::{Error, ErrorModel, Outcome, Result};
use crate::ordered::{sorted_keys, KeySet};
use crate::text::{concat, list_contains, quote, quoted, str_eq, strip_prefix, texts};
use crate::utils::compound::{
    collection_prefix, compound, decompound, decompound_key, framed, law_compound_roundtrip,
    law_prefix_exact, subspace_prefix, Subspace,
};
use vstd::prelude::*;
#[allow(unused_imports)]
use vstd::string::*;
use vstd::utf8::encode_utf8;

verus! {

/// How many keys a step of a scan asks for.
pub const SCAN_COUNT: usize = 1_000;

/// Whether a character has a meaning of its own in a pattern.
pub open spec fn is_glob(c: char) -> bool {
    c == '*' || c == '?' || c == '[' || c == ']' || c == '\\'
}

/// A text with a backslash before each character that has a meaning in a pattern.
pub open spec fn escaped(text: Seq<char>) -> Seq<char>
    decreases text.len(),
{
    if text.len() == 0 {
        Seq::empty()
    } else if is_glob(text.last()) {
        escaped(text.drop_last()) + seq!['\\', text.last()]
    } else {
        escaped(text.drop_last()).push(text.last())
    }
}

/// The pattern for all keys that start with a prefix.
pub open spec fn prefix_pattern(prefix: Seq<char>) -> Seq<char> {
    escaped(prefix).push('*')
}

/// Whether a text matches a pattern, as far as patterns are made here: a star stands for any
/// text, a question mark for any character, a backslash takes the meaning from the character
/// behind it. Nothing matches a class of characters.
pub open spec fn matches_glob(pattern: Seq<char>, text: Seq<char>) -> bool
    decreases pattern.len() + text.len(),
{
    if pattern.len() == 0 {
        text.len() == 0
    } else if pattern[0] == '*' {
        matches_glob(pattern.skip(1), text) || (text.len() > 0 && matches_glob(
            pattern,
            text.skip(1),
        ))
    } else if text.len() == 0 || pattern[0] == '[' {
        false
    } else if pattern[0] == '?' {
        matches_glob(pattern.skip(1), text.skip(1))
    } else if pattern[0] == '\\' && pattern.len() > 1 {
        pattern[1] == text[0] && matches_glob(pattern.skip(2), text.skip(1))
    } else {
        pattern[0] == text[0] && matches_glob(pattern.skip(1), text.skip(1))
    }
}

proof fn lemma_star(text: Seq<char>)
    ensures
        matches_glob(seq!['*'], text),
    decreases text.len(),
{
    reveal_with_fuel(matches_glob, 2);
    if text.len() > 0 {
        lemma_star(text.skip(1));
    } else {
        assert(seq!['*'].skip(1) =~= Seq::<char>::empty());
    }
}

proof fn lemma_escaped_first(text: Seq<char>)
    requires
        text.len() > 0,
    ensures
        escaped(text) == (if is_glob(text[0]) {
            seq!['\\', text[0]]
        } else {
            seq![text[0]]
        }) + escaped(text.skip(1)),
    decreases text.len(),
{
    let head = if is_glob(text[0]) {
        seq!['\\', text[0]]
    } else {
        seq![text[0]]
    };
    if text.len() == 1 {
        reveal_with_fuel(escaped, 2);
        assert(text.skip(1) =~= Seq::<char>::empty());
        assert(text.drop_last() =~= Seq::<char>::empty());
        assert(escaped(text) =~= head + escaped(text.skip(1)));
    } else {
        lemma_escaped_first(text.drop_last());
        assert(text.drop_last().skip(1) =~= text.skip(1).drop_last());
        assert(escaped(text) =~= head + escaped(text.skip(1)));
    }
}

proof fn lemma_pattern_matches(prefix: Seq<char>, rest: Seq<char>, text: Seq<char>)
    requires
        rest == prefix_pattern(prefix),
    ensures
        matches_glob(rest, text) <==> prefix.is_prefix_of(text),
    decreases prefix.len(),
{
    if prefix.len() == 0 {
        assert(rest =~= seq!['*']);
        lemma_star(text);
        assert(prefix.is_prefix_of(text));
    } else {
        lemma_escaped_first(prefix);
        let tail = prefix.skip(1);
        if text.len() > 0 {
            lemma_pattern_matches(tail, prefix_pattern(tail), text.skip(1));
            if is_glob(prefix[0]) {
                assert(rest.skip(2) =~= prefix_pattern(tail));
            } else {
                assert(rest.skip(1) =~= prefix_pattern(tail));
            }
            if prefix.is_prefix_of(text) {
                assert(tail =~= text.skip(1).take(tail.len() as int));
            }
            if prefix[0] == text[0] && tail.is_prefix_of(text.skip(1)) {
                assert forall|i: int| 0 <= i < prefix.len() implies prefix[i] == text[i] by {
                    if i > 0 {
                        assert(tail[i - 1] == text.skip(1)[i - 1]);
                    }
                }
                assert(prefix =~= text.take(prefix.len() as int));
            }
        }
    }
}

/// The pattern of a prefix selects exactly the keys that start with it, whatever characters the
/// prefix is made of.
pub proof fn law_pattern_selects_prefix(prefix: Seq<char>, key: Seq<char>)
    ensures
        matches_glob(prefix_pattern(prefix), key) <==> prefix.is_prefix_of(key),
{
    lemma_pattern_matches(prefix, prefix_pattern(prefix), key);
}

/// The pattern for all keys that start with a prefix.
pub fn scan_pattern(prefix: &str) -> (pattern: String)
    ensures
        pattern@ == prefix_pattern(prefix@),
{
    let mut pattern = String::new();
    let mut i: usize = 0;
    let n: usize = prefix.unicode_len();
    proof {
        assert(prefix@.take(0) =~= Seq::empty());
    }
    while i < n
        invariant
            i <= n,
            n == prefix@.len(),
            pattern@ == escaped(prefix@.take(i as int)),
        decreases n - i,
    {
        let c = prefix.get_char(i);
        proof {
            let next = prefix@.take(i + 1);
            assert(next.drop_last() =~= prefix@.take(i as int));
            assert(next.last() == c);
        }
        let ghost before = pattern@;
        if c == '*' || c == '?' || c == '[' || c == ']' || c == '\\' {
            pattern.push('\\');
            pattern.push(c);
            assert(pattern@ =~= before + seq!['\\', c]);
        } else {
            pattern.push(c);
        }
        i += 1;
    }
    assert(prefix@.take(n as int) =~= prefix@);
    pattern.push('*');
    pattern
}

/// What a scan reads off the keys.
#[derive(Debug, PartialEq, Eq)]
pub enum ScanTarget {
    /// The keys of one collection, behind the prefix of a namespace.
    Keys { server: String, prefix: String, collection: String },
    /// The collections, off all keys but some that belong to none.
    Collections { internal: Vec<String> },
}

/// The key under which one of a collection's entries is found, off an identity that the server
/// returned for that collection.
pub open spec fn key_within(
    server: Seq<char>,
    prefix: Seq<char>,
    collection: Seq<char>,
    identity: Seq<char>,
) -> Outcome<Seq<char>> {
    if !prefix.is_prefix_of(identity) {
        Err(ErrorModel::InvalidKey(server + " SCAN returned an identity outside keyspace"@))
    } else {
        match decompound(identity.skip(prefix.len() as int)) {
            Err(e) => Err(e),
            Ok((c, k)) => if c == collection {
                Ok(k)
            } else {
                Err(
                    ErrorModel::InvalidKey(
                        server + " SCAN returned an identity outside collection "@ + quoted(
                            collection,
                        ),
                    ),
                )
            },
        }
    }
}

impl ScanTarget {
    /// What is read off one key, if anything.
    pub open spec fn name_of(&self, identity: Seq<char>) -> Outcome<Option<Seq<char>>> {
        match self {
            ScanTarget::Keys { server, prefix, collection } => match key_within(
                server@,
                prefix@,
                collection@,
                identity,
            ) {
                Ok(key) => Ok(Some(key)),
                Err(e) => Err(e),
            },
            ScanTarget::Collections { internal } => if texts(internal@).contains(identity) {
                Ok(None)
            } else {
                match decompound(identity) {
                    Ok((c, _)) => Ok(Some(c)),
                    Err(e) => Err(e),
                }
            },
        }
    }

    fn read_name<'a>(&self, identity: &'a str) -> (name: Result<Option<&'a str>>)
        ensures
            match name {
                Ok(Some(n)) => self.name_of(identity@) == Ok::<_, ErrorModel>(Some(n@)),
                Ok(None) => self.name_of(identity@) == Ok::<Option<Seq<char>>, ErrorModel>(None),
                Err(e) => self.name_of(identity@) == Err::<Option<Seq<char>>, _>(e@),
            },
    {
        match self {
            ScanTarget::Keys { server, prefix, collection } => match read_key_within(
                server.as_str(),
                prefix.as_str(),
                collection.as_str(),
                identity,
            ) {
                Ok(key) => Ok(Some(key)),
                Err(e) => Err(e),
            },
            ScanTarget::Collections { internal } => {
                if list_contains(internal, identity) {
                    return Ok(None);
                }
                match decompound_key(identity) {
                    Ok((c, _)) => Ok(Some(c)),
                    Err(e) => Err(e),
                }
            },
        }
    }
}

/// The key of an entry of a collection, off an identity that the server returned.
pub fn read_key_within<'a>(server: &str, prefix: &str, collection: &str, identity: &'a str) -> (key:
    Result<&'a str>)
    ensures
        match key {
            Ok(k) => key_within(server@, prefix@, collection@, identity@) == Ok::<_, ErrorModel>(
                k@,
            ),
            Err(e) => key_within(server@, prefix@, collection@, identity@) == Err::<Seq<char>, _>(
                e@,
            ),
        },
{
    match strip_prefix(identity, prefix) {
        None => Err(
            Error::InvalidKey(concat(server, " SCAN returned an identity outside keyspace")),
        ),
        Some(inner) => {
            assert(identity@.skip(prefix@.len() as int) =~= inner@);
            let (c, k) = decompound_key(inner)?;
            if str_eq(c, collection) {
                Ok(k)
            } else {
                let mut message = concat(
                    server,
                    " SCAN returned an identity outside collection ",
                );
                message.append(quote(collection).as_str());
                Err(Error::InvalidKey(message))
            }
        },
    }
}

/// The names after the first `n` keys of a batch. Once as many as wanted were found, the rest is
/// not looked at.
pub open spec fn scanned(
    target: ScanTarget,
    limit: Option<usize>,
    found: Set<Seq<char>>,
    batch: Seq<Seq<char>>,
    n: nat,
) -> Outcome<Set<Seq<char>>>
    decreases n,
{
    if n == 0 {
        Ok(found)
    } else {
        match scanned(target, limit, found, batch, (n - 1) as nat) {
            Err(e) => Err(e),
            Ok(names) => if limit is Some && names.len() >= limit->Some_0 {
                Ok(names)
            } else {
                match target.name_of(batch[n - 1]) {
                    Err(e) => Err(e),
                    Ok(Some(name)) => Ok(names.insert(name)),
                    Ok(None) => Ok(names),
                }
            },
        }
    }
}

proof fn lemma_scanned_prefix(
    target: ScanTarget,
    limit: Option<usize>,
    found: Set<Seq<char>>,
    batch: Seq<Seq<char>>,
    k: nat,
    n: nat,
)
    requires
        k <= n,
        scanned(target, limit, found, batch, k) is Err,
    ensures
        scanned(target, limit, found, batch, n) == scanned(target, limit, found, batch, k),
    decreases n,
{
    if k < n {
        lemma_scanned_prefix(target, limit, found, batch, k, (n - 1) as nat);
    }
}

proof fn lemma_scanned_full(
    target: ScanTarget,
    limit: Option<usize>,
    found: Set<Seq<char>>,
    batch: Seq<Seq<char>>,
    k: nat,
    n: nat,
)
    requires
        k <= n,
        limit is Some,
        scanned(target, limit, found, batch, k) matches Ok(names) && names.len() >= limit->Some_0,
    ensures
        scanned(target, limit, found, batch, n) == scanned(target, limit, found, batch, k),
    decreases n,
{
    if k < n {
        lemma_scanned_full(target, limit, found, batch, k, (n - 1) as nat);
    }
}

/// What a scan has found after a batch was there before or was read off a key of the batch; and
/// unless the scan is full, nothing that could be read off a key is missing.
pub proof fn law_scan_finds(
    target: ScanTarget,
    limit: Option<usize>,
    found: Set<Seq<char>>,
    batch: Seq<Seq<char>>,
    name: Seq<char>,
)
    requires
        found.finite(),
        scanned(target, limit, found, batch, batch.len()) is Ok,
    ensures
        ({
            let names = scanned(target, limit, found, batch, batch.len())->Ok_0;
            let read = exists|i: int|
                0 <= i < batch.len() && target.name_of(#[trigger] batch[i]) == Ok::<_, ErrorModel>(
                    Some(name),
                );
            &&& names.contains(name) ==> found.contains(name) || read
            &&& found.contains(name) ==> names.contains(name)
            &&& (limit is None || names.len() < limit->Some_0) && read ==> names.contains(name)
        }),
{
    lemma_scan_finds(target, limit, found, batch, name, batch.len());
}

proof fn lemma_scan_finds(
    target: ScanTarget,
    limit: Option<usize>,
    found: Set<Seq<char>>,
    batch: Seq<Seq<char>>,
    name: Seq<char>,
    n: nat,
)
    requires
        found.finite(),
        n <= batch.len(),
        scanned(target, limit, found, batch, n) is Ok,
    ensures
        ({
            let names = scanned(target, limit, found, batch, n)->Ok_0;
            let read = exists|i: int|
                0 <= i < n && target.name_of(#[trigger] batch[i]) == Ok::<_, ErrorModel>(
                    Some(name),
                );
            &&& names.finite()
            &&& names.contains(name) ==> found.contains(name) || read
            &&& found.contains(name) ==> names.contains(name)
            &&& (limit is None || names.len() < limit->Some_0) && read ==> names.contains(name)
        }),
    decreases n,
{
    if n > 0 {
        let k = (n - 1) as nat;
        lemma_scan_finds(target, limit, found, batch, name, k);
        let before = scanned(target, limit, found, batch, k)->Ok_0;
        let names = scanned(target, limit, found, batch, n)->Ok_0;
        assert(before.subset_of(names));
        vstd::set_lib::lemma_len_subset(before, names);
        if names.contains(name) && !found.contains(name) && !before.contains(name) {
            assert(target.name_of(batch[n - 1]) == Ok::<_, ErrorModel>(Some(name)));
        }
    }
}

/// A scan under way: what it looks for and what it has found.
pub struct NameScan {
    target: ScanTarget,
    limit: Option<usize>,
    names: KeySet,
}

impl NameScan {
    pub closed spec fn wf(&self) -> bool {
        self.names.wf()
    }

    pub closed spec fn target(&self) -> ScanTarget {
        self.target
    }

    /// How many names are wanted; all, where there is no number.
    pub closed spec fn limit(&self) -> Option<usize> {
        self.limit
    }

    /// What has been found.
    pub closed spec fn found(&self) -> Set<Seq<char>> {
        self.names@
    }

    pub open spec fn full(&self) -> bool {
        self.limit() is Some && self.found().len() >= self.limit()->Some_0
    }

    pub fn new(target: ScanTarget, limit: Option<usize>) -> (scan: Self)
        ensures
            scan.wf(),
            scan.target() == target,
            scan.limit() == limit,
            scan.found() == Set::<Seq<char>>::empty(),
    {
        NameScan { target, limit, names: KeySet::new() }
    }

    fn is_full(&self) -> (full: bool)
        requires
            self.wf(),
        ensures
            full == self.full(),
    {
        match self.limit {
            Some(limit) => self.names.len() >= limit,
            None => false,
        }
    }

    /// Whether the scan goes on at a cursor: zero ends it, and so do enough names.
    pub fn goes_on(&self, next_cursor: u64) -> (more: bool)
        requires
            self.wf(),
        ensures
            more == (next_cursor != 0 && !self.full()),
    {
        next_cursor != 0 && !self.is_full()
    }

    /// Takes in a batch of keys.
    pub fn take_in(self, batch: &Vec<String>) -> (scan: Result<Self>)
        requires
            self.wf(),
        ensures
            match scan {
                Ok(s) => s.wf() && s.target() == self.target() && s.limit() == self.limit()
                    && scanned(
                    self.target(),
                    self.limit(),
                    self.found(),
                    texts(batch@),
                    batch@.len(),
                ) == Ok::<_, ErrorModel>(s.found()),
                Err(e) => scanned(
                    self.target(),
                    self.limit(),
                    self.found(),
                    texts(batch@),
                    batch@.len(),
                ) == Err::<Set<Seq<char>>, _>(e@),
            },
    {
        let ghost target = self.target();
        let ghost limit = self.limit();
        let ghost found = self.found();
        let ghost all = texts(batch@);
        let mut scan = self;
        let mut i: usize = 0;
        while i < batch.len() && !scan.is_full()
            invariant
                i <= batch@.len(),
                target == self.target(),
                limit == self.limit(),
                found == self.found(),
                scan.wf(),
                scan.target() == target,
                scan.limit() == limit,
                all == texts(batch@),
                scanned(target, limit, found, all, i as nat) == Ok::<_, ErrorModel>(scan.found()),
            ensures
                i == batch@.len() || scan.full(),
            decreases batch@.len() - i,
        {
            proof {
                assert(all[i as int] == batch@[i as int]@);
                if scanned(target, limit, found, all, (i + 1) as nat) is Err {
                    lemma_scanned_prefix(target, limit, found, all, (i + 1) as nat, all.len());
                }
            }
            match scan.target.read_name(batch[i].as_str())? {
                Some(name) => {
                    let _ = scan.names.insert(name);
                },
                None => {},
            }
            i += 1;
        }
        proof {
            if scan.full() {
                lemma_scanned_full(target, limit, found, all, i as nat, all.len());
            }
        }
        Ok(scan)
    }

    /// What the scan has found, in order.
    pub fn names(&self) -> (names: Vec<String>)
        requires
            self.wf(),
        ensures
            texts(names@) == sorted_keys(self.found()),
    {
        self.names.sorted()
    }
}

/// Why a batch of keys cannot be one collection's, looking at the first `n`.
pub open spec fn foreign_fault(
    server: Seq<char>,
    prefix: Seq<char>,
    collection: Seq<char>,
    batch: Seq<Seq<char>>,
    n: nat,
) -> Option<ErrorModel>
    decreases n,
{
    if n == 0 {
        None
    } else {
        match foreign_fault(server, prefix, collection, batch, (n - 1) as nat) {
            Some(e) => Some(e),
            None => match key_within(server, prefix, collection, batch[n - 1]) {
                Ok(_) => None,
                Err(e) => Some(e),
            },
        }
    }
}

proof fn lemma_foreign_prefix(
    server: Seq<char>,
    prefix: Seq<char>,
    collection: Seq<char>,
    batch: Seq<Seq<char>>,
    k: nat,
    n: nat,
)
    requires
        k <= n,
        foreign_fault(server, prefix, collection, batch, k) is Some,
    ensures
        foreign_fault(server, prefix, collection, batch, n) == foreign_fault(
            server,
            prefix,
            collection,
            batch,
            k,
        ),
    decreases n,
{
    if k < n {
        lemma_foreign_prefix(server, prefix, collection, batch, k, (n - 1) as nat);
    }
}

/// Checks that every key of a batch belongs to a collection, so that the batch may be deleted
/// with it; and says whether anything is there to delete.
pub fn check_doomed(server: &str, prefix: &str, collection: &str, batch: &Vec<String>) -> (any:
    Result<bool>)
    ensures
        match any {
            Ok(b) => foreign_fault(server@, prefix@, collection@, texts(batch@), batch@.len())
                is None && b == (batch@.len() > 0),
            Err(e) => foreign_fault(server@, prefix@, collection@, texts(batch@), batch@.len())
                == Some(e@),
        },
{
    let ghost all = texts(batch@);
    let mut i: usize = 0;
    while i < batch.len()
        invariant
            i <= batch@.len(),
            all == texts(batch@),
            foreign_fault(server@, prefix@, collection@, all, i as nat) is None,
        decreases batch@.len() - i,
    {
        proof {
            assert(all[i as int] == batch@[i as int]@);
            if foreign_fault(server@, prefix@, collection@, all, (i + 1) as nat) is Some {
                lemma_foreign_prefix(
                    server@,
                    prefix@,
                    collection@,
                    all,
                    (i + 1) as nat,
                    all.len(),
                );
            }
        }
        let _ = read_key_within(server, prefix, collection, batch[i].as_str())?;
        i += 1;
    }
    Ok(batch.len() > 0)
}

/// The pattern for all keys of a collection in a namespace.
pub fn collection_pattern(keyspace: &Subspace, collection: &str) -> (pattern: String)
    ensures
        pattern@ == prefix_pattern(subspace_prefix(keyspace@) + framed(collection@)),
{
    scan_pattern(keyspace.scope(collection_prefix(collection).as_str()).as_str())
}

/// Collections do not leak into each other: the pattern of a collection selects a key of the same
/// namespace exactly when it belongs to that collection, and then the key is read off it.
pub proof fn law_scan_stays_in_collection(
    server: Seq<char>,
    keyspace: Seq<char>,
    collection: Seq<char>,
    c: Seq<char>,
    k: Seq<char>,
)
    requires
        encode_utf8(collection).len() <= usize::MAX,
        encode_utf8(c).len() <= usize::MAX,
    ensures
        ({
            let prefix = subspace_prefix(keyspace);
            let identity = prefix + compound(c, k);
            &&& matches_glob(prefix_pattern(prefix + framed(collection)), identity) <==> c
                == collection
            &&& key_within(server, prefix, c, identity) == Ok::<_, ErrorModel>(k)
        }),
{
    let prefix = subspace_prefix(keyspace);
    let identity = prefix + compound(c, k);
    law_pattern_selects_prefix(prefix + framed(collection), identity);
    law_prefix_exact(collection, c, k);
    law_compound_roundtrip(c, k);
    assert(identity.skip(prefix.len() as int) =~= compound(c, k));
    let whole = prefix + framed(collection);
    if whole.is_prefix_of(identity) {
        assert forall|i: int| 0 <= i < framed(collection).len() implies framed(collection)[i]
            == compound(c, k)[i] by {
            assert(whole[prefix.len() + i] == identity[prefix.len() + i]);
        }
        assert(framed(collection) =~= compound(c, k).take(framed(collection).len() as int));
    }
    if framed(collection).is_prefix_of(compound(c, k)) {
        assert(whole =~= identity.take(whole.len() as int));
    }
}

} // verus!
