//! Migration: moving entries from before there were namespaces into one.

use crate::error::{Error, ErrorModel, Result};
use crate::text::{concat, list_contains, str_eq, strip_prefix, texts};
use crate::utils::compound::{
    compound, decompound, decompound_key, law_compound_injective, law_compound_roundtrip,
    law_decompound_exact, law_subspace_roundtrip, subspace_compound_key, subspace_decompound, subspace_decompound_key,
    subspace_prefix, Subspace,
};
use vstd::prelude::*;
#[allow(unused_imports)]
use vstd::string::*;
use vstd::utf8::encode_utf8;

verus! {

/// What a migration takes along, and how.
#[derive(Clone, Debug, PartialEq, Eq)]
pub struct MigrationOptions {
    /// The collections that are migrated; an empty list stands for all.
    pub collections: Vec<String>,
    /// Only collections that start with the first text are migrated, and it is replaced by the
    /// second.
    pub collection_prefix: Option<(String, String)>,
    /// Whether entries keep the time that they still live.
    pub preserve_ttl: bool,
}

impl Default for MigrationOptions {
    fn default() -> (options: Self)
        ensures
            options.collections@.len() == 0,
            options.collection_prefix is None,
            options.preserve_ttl,
    {
        MigrationOptions { collections: Vec::new(), collection_prefix: None, preserve_ttl: true }
    }
}

/// What a migration did.
#[derive(Debug, Clone, Copy, PartialEq, Eq, Structural)]
pub struct MigrationReport {
    /// How many keys were looked at.
    pub scanned: u64,
    /// How many entries were copied.
    pub copied: u64,
    /// How many entries expired before they could be copied.
    pub skipped_expired: u64,
}

impl Default for MigrationReport {
    fn default() -> (report: Self)
        ensures
            report == (MigrationReport { scanned: 0, copied: 0, skipped_expired: 0 }),
    {
        MigrationReport { scanned: 0, copied: 0, skipped_expired: 0 }
    }
}

impl MigrationOptions {
    /// Whether a collection is migrated, by its name.
    pub open spec fn selects(&self, collection: Seq<char>) -> bool {
        self.collections@.len() == 0 || texts(self.collections@).contains(collection)
    }

    /// The collection into which another is migrated, if it is.
    pub open spec fn target_of(&self, collection: Seq<char>) -> Option<Seq<char>> {
        match self.collection_prefix {
            None => Some(collection),
            Some((from, to)) => if from@.is_prefix_of(collection) {
                Some(to@ + collection.skip(from@.len() as int))
            } else {
                None
            },
        }
    }
}

/// Whether a collection is migrated, by its name.
pub fn selected(options: &MigrationOptions, collection: &str) -> (chosen: bool)
    ensures
        chosen == options.selects(collection@),
{
    options.collections.len() == 0 || list_contains(&options.collections, collection)
}

/// The collection into which another is migrated, if it is.
pub fn target_collection(options: &MigrationOptions, collection: &str) -> (target: Option<String>)
    ensures
        match target {
            Some(t) => options.target_of(collection@) == Some(t@),
            None => options.target_of(collection@) is None,
        },
{
    match &options.collection_prefix {
        None => Some(collection.to_owned()),
        Some((from, to)) => match strip_prefix(collection, from.as_str()) {
            Some(rest) => {
                assert(collection@.skip(from@.len() as int) =~= rest@);
                Some(concat(to.as_str(), rest))
            },
            None => None,
        },
    }
}

/// An entry to migrate: where it is, its key, and its new collection.
#[derive(Debug, PartialEq, Eq)]
pub struct Candidate {
    pub legacy: String,
    pub key: String,
    pub target: String,
}

/// The model of [`Candidate`].
#[verifier::ext_equal]
pub struct CandidateModel {
    pub legacy: Seq<char>,
    pub key: Seq<char>,
    pub target: Seq<char>,
}

impl View for Candidate {
    type V = CandidateModel;

    open spec fn view(&self) -> CandidateModel {
        CandidateModel { legacy: self.legacy@, key: self.key@, target: self.target@ }
    }
}

/// What a migration into a namespace does with a key that it finds: a candidate, or nothing.
/// Nothing is done with what is in the namespace already, with what is no identity, and with what
/// the options leave out.
pub open spec fn candidate_of(
    keyspace: Seq<char>,
    options: MigrationOptions,
    identity: Seq<char>,
) -> Option<CandidateModel> {
    if subspace_decompound(keyspace, identity) is Some {
        None
    } else {
        match decompound(identity) {
            Err(_) => None,
            Ok((collection, key)) => match options.target_of(collection) {
                Some(target) if options.selects(collection) && !(subspace_prefix(
                    keyspace,
                ).is_prefix_of(identity) && target == collection) => Some(
                    CandidateModel { legacy: identity, key, target },
                ),
                _ => None,
            },
        }
    }
}

/// The candidates among the first `n` keys, in their order.
pub open spec fn candidates_of(
    keyspace: Seq<char>,
    options: MigrationOptions,
    identities: Seq<Seq<char>>,
    n: nat,
) -> Seq<CandidateModel>
    decreases n,
{
    if n == 0 {
        Seq::empty()
    } else {
        let before = candidates_of(keyspace, options, identities, (n - 1) as nat);
        match candidate_of(keyspace, options, identities[n - 1]) {
            Some(candidate) => before.push(candidate),
            None => before,
        }
    }
}

/// A migration is done once: what it has moved is no candidate of the next.
pub proof fn law_migrated_is_settled(
    keyspace: Seq<char>,
    options: MigrationOptions,
    candidate: CandidateModel,
)
    requires
        encode_utf8(candidate.target).len() <= usize::MAX,
    ensures
        candidate_of(keyspace, options, place_of(keyspace, candidate)) is None,
{
    law_subspace_roundtrip(keyspace, candidate.target, candidate.key);
}

/// A migration never takes up an entry that its namespace can read.
pub proof fn law_namespace_is_kept(
    keyspace: Seq<char>,
    options: MigrationOptions,
    identity: Seq<char>,
)
    ensures
        candidate_of(keyspace, options, identity) is Some ==> subspace_decompound(
            keyspace,
            identity,
        ) is None,
{
}

/// The place of a candidate in the namespace.
pub open spec fn place_of(keyspace: Seq<char>, candidate: CandidateModel) -> Seq<char> {
    subspace_prefix(keyspace) + compound(candidate.target, candidate.key)
}

/// A candidate is never its own target: dropping the old entry cannot drop the new one.
pub proof fn law_place_is_new(keyspace: Seq<char>, options: MigrationOptions, identity: Seq<char>)
    requires
        candidate_of(keyspace, options, identity) matches Some(c) && encode_utf8(c.target).len()
            <= usize::MAX,
    ensures
        place_of(keyspace, candidate_of(keyspace, options, identity)->Some_0) != identity,
{
    let candidate = candidate_of(keyspace, options, identity)->Some_0;
    law_subspace_roundtrip(keyspace, candidate.target, candidate.key);
}

/// No two entries are migrated into one place, so that none is lost to another.
pub proof fn law_places_apart(
    keyspace: Seq<char>,
    options: MigrationOptions,
    a: Seq<char>,
    b: Seq<char>,
)
    requires
        a != b,
        candidate_of(keyspace, options, a) matches Some(c) && encode_utf8(c.target).len()
            <= usize::MAX,
        candidate_of(keyspace, options, b) matches Some(c) && encode_utf8(c.target).len()
            <= usize::MAX,
    ensures
        place_of(keyspace, candidate_of(keyspace, options, a)->Some_0) != place_of(
            keyspace,
            candidate_of(keyspace, options, b)->Some_0,
        ),
{
    let first = candidate_of(keyspace, options, a)->Some_0;
    let second = candidate_of(keyspace, options, b)->Some_0;
    let p = subspace_prefix(keyspace);
    if place_of(keyspace, first) == place_of(keyspace, second) {
        assert(place_of(keyspace, first).skip(p.len() as int) =~= compound(
            first.target,
            first.key,
        ));
        assert(place_of(keyspace, second).skip(p.len() as int) =~= compound(
            second.target,
            second.key,
        ));
        law_compound_injective(first.target, first.key, second.target, second.key);
        law_decompound_exact(a);
        law_decompound_exact(b);
        let ca = decompound(a)->Ok_0.0;
        let cb = decompound(b)->Ok_0.0;
        if let Some((from, to)) = options.collection_prefix {
            let ra = ca.skip(from@.len() as int);
            let rb = cb.skip(from@.len() as int);
            assert((to@ + ra).skip(to@.len() as int) =~= ra);
            assert((to@ + rb).skip(to@.len() as int) =~= rb);
            assert(ca =~= from@ + ra);
            assert(cb =~= from@ + rb);
        }
        assert(ca == cb);
    }
}

/// What happens to a candidate.
#[derive(Debug, Clone, Copy, PartialEq, Eq, Structural)]
pub enum CopyStep {
    /// The time that the entry still lives is to be asked for.
    AskTtl,
    /// The entry is copied; with a time to live in milliseconds, where there is one.
    Copy { ttl: Option<u64> },
    /// The entry has expired: it is passed over.
    Expired,
    /// The namespace already has the entry: the old one is dropped.
    Present,
}

/// What happens to a candidate that still lives for so long by the server's answer.
pub open spec fn ttl_step(ttl: i64) -> CopyStep {
    if ttl == -2 || ttl == 0 {
        CopyStep::Expired
    } else if ttl > 0 {
        CopyStep::Copy { ttl: Some(ttl as u64) }
    } else {
        CopyStep::Copy { ttl: None }
    }
}

/// What happens to a candidate, given whether its place is taken.
pub open spec fn presence_step(preserve_ttl: bool, taken: bool) -> CopyStep {
    if taken {
        CopyStep::Present
    } else if preserve_ttl {
        CopyStep::AskTtl
    } else {
        CopyStep::Copy { ttl: None }
    }
}

impl MigrationReport {
    /// The report after one more candidate.
    pub open spec fn settled(self, step: CopyStep) -> MigrationReport {
        MigrationReport {
            scanned: self.scanned,
            copied: if step is Copy {
                (self.copied + 1) as u64
            } else {
                self.copied
            },
            skipped_expired: if step is Expired {
                (self.skipped_expired + 1) as u64
            } else {
                self.skipped_expired
            },
        }
    }
}

/// What happens to a candidate, given the server's answer on the time that it still lives: `-2`
/// for an entry that is gone, another negative number for one that lives on.
pub fn after_ttl(ttl: i64) -> (step: CopyStep)
    ensures
        step == ttl_step(ttl),
{
    if ttl == -2 || ttl == 0 {
        CopyStep::Expired
    } else if ttl > 0 {
        CopyStep::Copy { ttl: Some(ttl as u64) }
    } else {
        CopyStep::Copy { ttl: None }
    }
}

/// A migration under way: the candidates that were found, and what was done.
pub struct Migration {
    keyspace: Subspace,
    options: MigrationOptions,
    candidates: Vec<Candidate>,
    report: MigrationReport,
}

/// The model of a list of candidates.
pub open spec fn candidates_model(list: Seq<Candidate>) -> Seq<CandidateModel> {
    list.map_values(|c: Candidate| c@)
}

impl Migration {
    pub closed spec fn keyspace(&self) -> Seq<char> {
        self.keyspace@
    }

    pub closed spec fn options(&self) -> MigrationOptions {
        self.options
    }

    pub closed spec fn candidates(&self) -> Seq<CandidateModel> {
        candidates_model(self.candidates@)
    }

    pub closed spec fn report(&self) -> MigrationReport {
        self.report
    }

    /// Starts a migration into a namespace, which must not be the empty one.
    pub fn start(keyspace: &Subspace, options: MigrationOptions) -> (migration: Result<Self>)
        ensures
            match migration {
                Ok(m) => keyspace@.len() > 0 && m.keyspace() == keyspace@ && m.options() == options
                    && m.candidates() == Seq::<CandidateModel>::empty() && m.report() == (
                MigrationReport { scanned: 0, copied: 0, skipped_expired: 0 }),
                Err(e) => keyspace@.len() == 0 && e@ == ErrorModel::InvalidOperation(
                    "keyspace migration requires a non-empty target keyspace"@,
                ),
            },
    {
        if keyspace.is_empty() {
            return Err(
                Error::InvalidOperation(
                    "keyspace migration requires a non-empty target keyspace".to_owned(),
                ),
            );
        }
        let candidates: Vec<Candidate> = Vec::new();
        assert(candidates_model(candidates@) =~= Seq::empty());
        Ok(
            Migration {
                keyspace: keyspace.clone(),
                options,
                candidates,
                report: MigrationReport::default(),
            },
        )
    }

    fn candidate(&self, identity: &str) -> (candidate: Option<Candidate>)
        ensures
            match candidate {
                Some(c) => candidate_of(self.keyspace(), self.options(), identity@) == Some(c@),
                None => candidate_of(self.keyspace(), self.options(), identity@) is None,
            },
    {
        if subspace_decompound_key(&self.keyspace, identity).is_some() {
            return None;
        }
        let (collection, key) = match decompound_key(identity) {
            Ok(pair) => pair,
            Err(_) => {
                return None;
            },
        };
        if !selected(&self.options, collection) {
            return None;
        }
        let target = match target_collection(&self.options, collection) {
            Some(target) => target,
            None => {
                return None;
            },
        };
        if strip_prefix(identity, self.keyspace.prefix().as_str()).is_some() && str_eq(
            target.as_str(),
            collection,
        ) {
            return None;
        }
        Some(Candidate { legacy: identity.to_owned(), key: key.to_owned(), target })
    }

    /// Takes in a batch of keys that were found.
    pub fn take_in(&mut self, identities: &Vec<String>)
        requires
            old(self).report().scanned + identities@.len() <= u64::MAX,
        ensures
            final(self).keyspace() == old(self).keyspace(),
            final(self).options() == old(self).options(),
            final(self).candidates() == old(self).candidates() + candidates_of(
                old(self).keyspace(),
                old(self).options(),
                texts(identities@),
                identities@.len(),
            ),
            final(self).report() == (MigrationReport {
                scanned: (old(self).report().scanned + identities@.len()) as u64,
                ..old(self).report()
            }),
    {
        let ghost keyspace = self.keyspace();
        let ghost options = self.options();
        let ghost first = self.candidates();
        let ghost all = texts(identities@);
        self.report.scanned = self.report.scanned + identities.len() as u64;
        let mut i: usize = 0;
        assert(first + Seq::<CandidateModel>::empty() =~= first);
        while i < identities.len()
            invariant
                i <= identities@.len(),
                all == texts(identities@),
                keyspace == old(self).keyspace(),
                options == old(self).options(),
                first == old(self).candidates(),
                self.keyspace() == keyspace,
                self.options() == options,
                self.candidates() == first + candidates_of(keyspace, options, all, i as nat),
                self.report() == (MigrationReport {
                    scanned: (old(self).report().scanned + identities@.len()) as u64,
                    ..old(self).report()
                }),
            decreases identities@.len() - i,
        {
            assert(all[i as int] == identities@[i as int]@);
            match self.candidate(identities[i].as_str()) {
                Some(candidate) => {
                    let ghost before = self.candidates();
                    let ghost model = candidate@;
                    self.candidates.push(candidate);
                    proof {
                        assert(self.candidates() =~= before.push(model));
                        assert(before.push(model) =~= first + candidates_of(
                            keyspace,
                            options,
                            all,
                            i as nat,
                        ).push(model));
                    }
                },
                None => {},
            }
            i += 1;
        }
    }

    /// How many candidates there are.
    pub fn len(&self) -> (len: usize)
        ensures
            len == self.candidates().len(),
    {
        self.candidates.len()
    }

    /// A candidate, and its new place in the namespace.
    pub fn candidate_at(&self, index: usize) -> (candidate: (&Candidate, String))
        requires
            index < self.candidates().len(),
        ensures
            candidate.0@ == self.candidates()[index as int],
            candidate.1@ == place_of(self.keyspace(), self.candidates()[index as int]),
    {
        let candidate = &self.candidates[index];
        let place = subspace_compound_key(
            &self.keyspace,
            candidate.target.as_str(),
            candidate.key.as_str(),
        );
        (candidate, place)
    }

    /// What happens to a candidate that was found, given whether its new place is taken.
    pub fn after_presence(&self, taken: bool) -> (step: CopyStep)
        ensures
            step == presence_step(self.options().preserve_ttl, taken),
    {
        if taken {
            CopyStep::Present
        } else if self.options.preserve_ttl {
            CopyStep::AskTtl
        } else {
            CopyStep::Copy { ttl: None }
        }
    }

    /// Counts what was done with a candidate, and says whether the old entry is to be dropped.
    pub fn settle(&mut self, step: CopyStep) -> (drops: bool)
        requires
            !(step is AskTtl),
            old(self).report().copied < u64::MAX,
            old(self).report().skipped_expired < u64::MAX,
        ensures
            drops == !(step is Expired),
            final(self).keyspace() == old(self).keyspace(),
            final(self).options() == old(self).options(),
            final(self).candidates() == old(self).candidates(),
            final(self).report() == old(self).report().settled(step),
    {
        match step {
            CopyStep::Copy { .. } => {
                self.report.copied = self.report.copied + 1;
                true
            },
            CopyStep::Expired => {
                self.report.skipped_expired = self.report.skipped_expired + 1;
                false
            },
            _ => true,
        }
    }

    /// What was done.
    pub fn outcome(&self) -> (report: MigrationReport)
        ensures
            report == self.report(),
    {
        self.report
    }
}

/// A migration takes a collection exactly where some place of its list holds it, or the list is
/// empty.
pub proof fn law_selects(options: MigrationOptions, collection: Seq<char>)
    ensures
        options.selects(collection) <==> options.collections@.len() == 0 || exists|i: int|
            0 <= i < options.collections@.len() && #[trigger] options.collections@[i]@
                == collection,
{
    let names = texts(options.collections@);
    if names.contains(collection) {
        let i = choose|i: int| 0 <= i < names.len() && names[i] == collection;
        assert(options.collections@[i]@ == collection);
    }
    if exists|i: int|
        0 <= i < options.collections@.len() && #[trigger] options.collections@[i]@ == collection {
        let i = choose|i: int|
            0 <= i < options.collections@.len() && #[trigger] options.collections@[i]@
                == collection;
        assert(names[i] == collection);
    }
}

/// Without a prefix a collection keeps its name. With one, a collection that starts with the first
/// text gets the second in its place and keeps the rest; any other is not migrated.
pub proof fn law_target(options: MigrationOptions, collection: Seq<char>, rest: Seq<char>)
    ensures
        match options.collection_prefix {
            None => options.target_of(collection) == Some(collection),
            Some((from, to)) => {
                &&& options.target_of(from@ + rest) == Some(to@ + rest)
                &&& options.target_of(collection) is None <==> !from@.is_prefix_of(collection)
            },
        },
{
    if let Some((from, to)) = options.collection_prefix {
        assert((from@ + rest).skip(from@.len() as int) =~= rest);
        assert(from@.is_prefix_of(from@ + rest));
    }
}

/// What is migrated: an identity outside the namespace, of a collection that is taken; it keeps its
/// key. An identity that would not move within a namespace's prefix stays.
pub proof fn law_candidate(
    keyspace: Seq<char>,
    options: MigrationOptions,
    collection: Seq<char>,
    key: Seq<char>,
)
    requires
        encode_utf8(collection).len() <= usize::MAX,
    ensures
        ({
            let identity = compound(collection, key);
            let inside = subspace_prefix(keyspace).is_prefix_of(identity);
            match candidate_of(keyspace, options, identity) {
                Some(candidate) => {
                    &&& candidate.legacy == identity
                    &&& candidate.key == key
                    &&& options.target_of(collection) == Some(candidate.target)
                    &&& options.selects(collection)
                    &&& subspace_decompound(keyspace, identity) is None
                },
                None => {
                    ||| subspace_decompound(keyspace, identity) is Some
                    ||| !options.selects(collection)
                    ||| options.target_of(collection) is None
                    ||| inside && options.target_of(collection) == Some(collection)
                },
            }
        }),
{
    law_compound_roundtrip(collection, key);
}

/// Candidates are gathered one by one, in the order of the identities, however these come in
/// batches.
pub proof fn law_candidates_in_order(
    keyspace: Seq<char>,
    options: MigrationOptions,
    a: Seq<Seq<char>>,
    b: Seq<Seq<char>>,
)
    ensures
        candidates_of(keyspace, options, a + b, (a + b).len()) == candidates_of(
            keyspace,
            options,
            a,
            a.len(),
        ) + candidates_of(keyspace, options, b, b.len()),
        a.len() == 1 ==> candidates_of(keyspace, options, a, 1) == match candidate_of(
            keyspace,
            options,
            a[0],
        ) {
            Some(candidate) => seq![candidate],
            None => Seq::<CandidateModel>::empty(),
        },
    decreases b.len(),
{
    reveal_with_fuel(candidates_of, 2);
    if b.len() == 0 {
        assert(a + b =~= a);
        assert(candidates_of(keyspace, options, a, a.len()) + Seq::<CandidateModel>::empty()
            =~= candidates_of(keyspace, options, a, a.len()));
    } else {
        let front = b.drop_last();
        law_candidates_in_order(keyspace, options, a, front);
        lemma_candidates_of_prefix(keyspace, options, a + b, a + front, (a + front).len());
        lemma_candidates_of_prefix(keyspace, options, b, front, front.len());
        let whole = candidates_of(keyspace, options, a + b, (a + b).len());
        assert((a + b)[(a + b).len() - 1] == b[b.len() - 1]);
        assert(whole =~= candidates_of(keyspace, options, a, a.len()) + candidates_of(
            keyspace,
            options,
            b,
            b.len(),
        ));
    }
    if a.len() == 1 {
        assert(Seq::<CandidateModel>::empty().push(
            candidate_of(keyspace, options, a[0])->0,
        ) =~= seq![candidate_of(keyspace, options, a[0])->0]);
    }
}

proof fn lemma_candidates_of_prefix(
    keyspace: Seq<char>,
    options: MigrationOptions,
    a: Seq<Seq<char>>,
    b: Seq<Seq<char>>,
    n: nat,
)
    requires
        n <= a.len(),
        n <= b.len(),
        forall|i: int| 0 <= i < n ==> a[i] == b[i],
    ensures
        candidates_of(keyspace, options, a, n) == candidates_of(keyspace, options, b, n),
    decreases n,
{
    if n > 0 {
        lemma_candidates_of_prefix(keyspace, options, a, b, (n - 1) as nat);
    }
}

/// The candidates of a list stand for their fields, one for each, in order.
pub proof fn law_candidate_list(list: Seq<Candidate>, i: int)
    requires
        0 <= i < list.len(),
    ensures
        candidates_model(list).len() == list.len(),
        candidates_model(list)[i].legacy == list[i].legacy@,
        candidates_model(list)[i].key == list[i].key@,
        candidates_model(list)[i].target == list[i].target@,
{
}

/// A place that is taken is never written. A free one gets the entry at once, or, where times are
/// preserved, after its time was asked for: with that time where there is one, without where it
/// never expires, and not at all where it has expired meanwhile.
pub proof fn law_copy_steps(preserve_ttl: bool, taken: bool, ttl: i64)
    ensures
        presence_step(preserve_ttl, taken) is Present <==> taken,
        presence_step(preserve_ttl, taken) is AskTtl <==> !taken && preserve_ttl,
        presence_step(preserve_ttl, taken) == (CopyStep::Copy { ttl: None }) <==> !taken
            && !preserve_ttl,
        ttl > 0 ==> ttl_step(ttl) == (CopyStep::Copy { ttl: Some(ttl as u64) }),
        ttl == -1 ==> ttl_step(ttl) == (CopyStep::Copy { ttl: None }),
        ttl == -2 || ttl == 0 ==> ttl_step(ttl) is Expired,
{
}

/// Each candidate is counted once: as copied, or as expired, or, where it was there already, not at
/// all.
pub proof fn law_report(report: MigrationReport, step: CopyStep)
    requires
        report.copied < u64::MAX,
        report.skipped_expired < u64::MAX,
    ensures
        report.settled(step).scanned == report.scanned,
        report.settled(step).copied == report.copied + if step is Copy {
            1int
        } else {
            0int
        },
        report.settled(step).skipped_expired == report.skipped_expired + if step is Expired {
            1int
        } else {
            0int
        },
{
}

} // verus!
