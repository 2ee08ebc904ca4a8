//! Shared laser and material profiles: the durable queue of local changes
//! for the Charon service and the hashes last agreed with it. Reading and
//! writing the state file, and hashing payloads, are the caller's.

use vstd::prelude::*;

use crate::chars::{push_str, str_eq, string_from_chars};

verus! {

/// Which catalogue a shared profile belongs to.
#[derive(Debug, Clone, Copy, PartialEq, Eq, Structural)]
pub enum CatalogKind {
    LaserProfile,
    MaterialProfile,
}

impl CatalogKind {
    pub open spec fn spec_as_str(self) -> Seq<char> {
        match self {
            CatalogKind::LaserProfile => "laser_profile"@,
            CatalogKind::MaterialProfile => "material_profile"@,
        }
    }

    /// Stable name of the catalogue in keys and messages.
    pub fn as_str(&self) -> (r: &'static str)
        ensures
            r@ == self.spec_as_str(),
    {
        match self {
            CatalogKind::LaserProfile => "laser_profile",
            CatalogKind::MaterialProfile => "material_profile",
        }
    }
}

/// A local change of a shared profile waiting to be sent.
#[derive(Debug, Clone)]
pub struct PendingCatalogChange {
    pub kind: CatalogKind,
    pub id: String,
    /// Hash of the version the change was made on, when one was agreed.
    pub base_hash: Option<String>,
    pub content_hash: String,
    /// The profile as JSON; `None` for a deletion.
    pub payload: Option<String>,
}

/// A profile changed on both sides.
#[derive(Debug, Clone)]
pub struct CatalogConflict {
    pub kind: CatalogKind,
    pub id: String,
    pub local_hash: String,
    pub remote_hash: String,
}

/// An agreed hash, by catalogue key.
#[derive(Debug, Clone)]
pub struct KnownHash {
    pub key: String,
    pub hash: String,
}

/// Synchronisation state of the shared catalogues.
#[derive(Debug, Clone)]
pub struct CatalogSyncState {
    /// Last agreed hash per catalogue key; no key occurs twice.
    pub known_hashes: Vec<KnownHash>,
    pub pending: Vec<PendingCatalogChange>,
    pub conflicts: Vec<CatalogConflict>,
}

/// The key of a profile: its catalogue's name, a colon, and its id.
pub open spec fn spec_catalog_key(kind: CatalogKind, id: Seq<char>) -> Seq<char> {
    kind.spec_as_str() + ":"@ + id
}

/// Key of a profile in the state's hash table.
pub fn catalog_key(kind: CatalogKind, id: &str) -> (r: String)
    ensures
        r@ == spec_catalog_key(kind, id@),
{
    let mut out: Vec<char> = Vec::new();
    push_str(&mut out, kind.as_str());
    push_str(&mut out, ":");
    push_str(&mut out, id);
    string_from_chars(&out)
}

/// The hash agreed for `key`, when there is one.
pub open spec fn known_hash(known: Seq<KnownHash>, key: Seq<char>) -> Option<Seq<char>>
    decreases known.len(),
{
    if known.len() == 0 {
        None
    } else if known.last().key@ == key {
        Some(known.last().hash@)
    } else {
        known_hash(known.drop_last(), key)
    }
}

/// Is a change of this profile already queued?
pub open spec fn is_pending(pending: Seq<PendingCatalogChange>, kind: CatalogKind, id: Seq<char>) -> bool {
    exists|i: int| 0 <= i < pending.len() && pending[i].kind == kind && #[trigger] pending[i].id@ == id
}

/// No catalogue key is agreed twice.
pub open spec fn keys_unique(known: Seq<KnownHash>) -> bool {
    forall|i: int, j: int| 0 <= i < j < known.len() ==> #[trigger] known[i].key@ != #[trigger] known[j].key@
}

impl CatalogSyncState {
    /// The state is well formed: each key has at most one agreed hash.
    pub open spec fn wf(&self) -> bool {
        keys_unique(self.known_hashes@)
    }

    /// A state with nothing agreed and nothing queued.
    pub fn new() -> (s: CatalogSyncState)
        ensures
            s.wf(),
            s.known_hashes@.len() == 0,
            s.pending@.len() == 0,
            s.conflicts@.len() == 0,
    {
        CatalogSyncState { known_hashes: Vec::new(), pending: Vec::new(), conflicts: Vec::new() }
    }

    /// The agreed hash of a key.
    pub fn hash_of(&self, key: &str) -> (r: Option<String>)
        requires
            self.wf(),
        ensures
            match r {
                Some(h) => known_hash(self.known_hashes@, key@) == Some(h@),
                None => known_hash(self.known_hashes@, key@) is None,
            },
    {
        let mut i = self.known_hashes.len();
        assert(self.known_hashes@.subrange(0, i as int) =~= self.known_hashes@);
        while i > 0
            invariant
                i <= self.known_hashes@.len(),
                known_hash(self.known_hashes@, key@) == known_hash(
                    self.known_hashes@.subrange(0, i as int),
                    key@,
                ),
            decreases i,
        {
            let ghost pre = self.known_hashes@.subrange(0, i as int);
            assert(pre.drop_last() =~= self.known_hashes@.subrange(0, i - 1));
            if str_eq(self.known_hashes[i - 1].key.as_str(), key) {
                return Some(self.known_hashes[i - 1].hash.clone());
            }
            i = i - 1;
        }
        None
    }

    /// Position of the queued change of a profile.
    pub fn find_pending(&self, kind: CatalogKind, id: &str) -> (r: Option<usize>)
        ensures
            match r {
                Some(i) => i < self.pending@.len() && self.pending@[i as int].kind == kind
                    && self.pending@[i as int].id@ == id@,
                None => !is_pending(self.pending@, kind, id@),
            },
    {
        let mut i: usize = 0;
        while i < self.pending.len()
            invariant
                i <= self.pending@.len(),
                forall|k: int|
                    0 <= k < i ==> !(self.pending@[k].kind == kind && #[trigger] self.pending@[k].id@
                        == id@),
            decreases self.pending.len() - i,
        {
            if self.pending[i].kind == kind && str_eq(self.pending[i].id.as_str(), id) {
                return Some(i);
            }
            i = i + 1;
        }
        None
    }

    /// Queues a change of a profile (`payload` `None` for a deletion, with
    /// the hash of the payload). A change already queued for the profile is
    /// updated in place and keeps its base; otherwise the change is appended
    /// with the currently agreed hash as its base.
    pub fn enqueue(
        &mut self,
        kind: CatalogKind,
        id: &str,
        content_hash: String,
        payload: Option<String>,
    )
        requires
            old(self).wf(),
        ensures
            final(self).wf(),
            final(self).known_hashes@ == old(self).known_hashes@,
            final(self).conflicts@ == old(self).conflicts@,
            is_pending(old(self).pending@, kind, id@) ==> exists|i: int|
                {
                    &&& 0 <= i < old(self).pending@.len()
                    &&& old(self).pending@[i].kind == kind
                    &&& old(self).pending@[i].id@ == id@
                    &&& final(self).pending@ == old(self).pending@.update(
                        i,
                        PendingCatalogChange {
                            content_hash,
                            payload,
                            ..old(self).pending@[i]
                        },
                    )
                },
            !is_pending(old(self).pending@, kind, id@) ==> {
                &&& final(self).pending@.len() == old(self).pending@.len() + 1
                &&& final(self).pending@.subrange(0, old(self).pending@.len() as int)
                    == old(self).pending@
                &&& final(self).pending@.last().kind == kind
                &&& final(self).pending@.last().id@ == id@
                &&& final(self).pending@.last().content_hash == content_hash
                &&& final(self).pending@.last().payload == payload
                &&& match final(self).pending@.last().base_hash {
                    Some(h) => known_hash(old(self).known_hashes@, spec_catalog_key(kind, id@))
                        == Some(h@),
                    None => known_hash(old(self).known_hashes@, spec_catalog_key(kind, id@)) is None,
                }
            },
    {
        match self.find_pending(kind, id) {
            Some(i) => {
                let old_change = self.pending.remove(i);
                let change = PendingCatalogChange {
                    kind: old_change.kind,
                    id: old_change.id,
                    base_hash: old_change.base_hash,
                    content_hash,
                    payload,
                };
                self.pending.insert(i, change);
                assert(self.pending@ =~= old(self).pending@.update(
                    i as int,
                    PendingCatalogChange { content_hash, payload, ..old(self).pending@[i as int] },
                ));
            },
            None => {
                let key = catalog_key(kind, id);
                let base_hash = self.hash_of(key.as_str());
                self.pending.push(
                    PendingCatalogChange { kind, id: id.to_owned(), base_hash, content_hash, payload },
                );
                assert(self.pending@.subrange(0, old(self).pending@.len() as int)
                    =~= old(self).pending@);
            },
        }
    }
}

/// Should a profile be queued when the catalogues are first shared? Only
/// when nothing was agreed for it yet and no change of it is queued.
pub fn needs_seed(state: &CatalogSyncState, kind: CatalogKind, id: &str) -> (r: bool)
    requires
        state.wf(),
    ensures
        r == (known_hash(state.known_hashes@, spec_catalog_key(kind, id@)) is None
            && !is_pending(state.pending@, kind, id@)),
{
    let key = catalog_key(kind, id);
    state.hash_of(key.as_str()).is_none() && state.find_pending(kind, id).is_none()
}

/// A profile offered when the catalogues are first shared: its catalogue,
/// id, JSON payload and the payload's hash.
#[derive(Debug, Clone)]
pub struct SeedProfile {
    pub kind: CatalogKind,
    pub id: String,
    pub content_hash: String,
    pub payload: String,
}

/// The queued change `c` was made by seeding profile `p` into a state that
/// knew nothing of it.
pub open spec fn seeded_from(
    c: PendingCatalogChange,
    p: SeedProfile,
    known: Seq<KnownHash>,
    before: Seq<PendingCatalogChange>,
) -> bool {
    &&& !is_pending(before, p.kind, p.id@)
    &&& c.kind == p.kind
    &&& c.id@ == p.id@
    &&& c.content_hash == p.content_hash
    &&& c.payload == Some(p.payload)
    &&& c.base_hash is None
    &&& known_hash(known, spec_catalog_key(p.kind, p.id@)) is None
}

/// `c` was made by seeding one of `profiles`.
pub open spec fn seeded_by_one(
    c: PendingCatalogChange,
    profiles: Seq<SeedProfile>,
    known: Seq<KnownHash>,
    before: Seq<PendingCatalogChange>,
) -> bool {
    exists|k: int| 0 <= k < profiles.len() && seeded_from(c, #[trigger] profiles[k], known, before)
}

/// The queued change `c` is the one seeding profile `p` makes.
pub open spec fn change_for(c: PendingCatalogChange, p: SeedProfile) -> bool {
    &&& c.kind == p.kind
    &&& c.id@ == p.id@
    &&& c.content_hash == p.content_hash
    &&& c.payload == Some(p.payload)
    &&& c.base_hash is None
}

/// Some of the profiles at `picks` has this catalogue and id.
pub open spec fn picked(profiles: Seq<SeedProfile>, picks: Seq<int>, kind: CatalogKind, id: Seq<char>) -> bool {
    exists|q: int|
        0 <= q < picks.len() && profiles[picks[q]].kind == kind && #[trigger] profiles[picks[q]].id@ == id
}

/// The positions of the first `n` offered profiles that seeding queues, in
/// order: each the first occurrence of a profile that is neither agreed
/// (`known`) nor queued (`pending`).
pub open spec fn seed_picks(
    profiles: Seq<SeedProfile>,
    known: Seq<KnownHash>,
    pending: Seq<PendingCatalogChange>,
    n: nat,
) -> Seq<int>
    decreases n,
{
    if n == 0 {
        Seq::empty()
    } else {
        let ps = seed_picks(profiles, known, pending, (n - 1) as nat);
        let p = profiles[n - 1];
        if known_hash(known, spec_catalog_key(p.kind, p.id@)) is None && !is_pending(
            pending,
            p.kind,
            p.id@,
        ) && !picked(profiles, ps, p.kind, p.id@) {
            ps.push(n - 1)
        } else {
            ps
        }
    }
}

/// The changes seeding adds: exactly one for each picked profile, in order.
pub open spec fn seeded_in_order(
    before: CatalogSyncState,
    after: CatalogSyncState,
    profiles: Seq<SeedProfile>,
) -> bool {
    let picks = seed_picks(profiles, before.known_hashes@, before.pending@, profiles.len());
    &&& after.pending@.len() == before.pending@.len() + picks.len()
    &&& forall|j: int|
        0 <= j < picks.len() ==> change_for(
            #[trigger] after.pending@[before.pending@.len() + j],
            profiles[picks[j]],
        )
}

proof fn lemma_picks_bound(profiles: Seq<SeedProfile>, known: Seq<KnownHash>, pending: Seq<PendingCatalogChange>, n: nat)
    requires
        n <= profiles.len(),
    ensures
        forall|q: int|
            0 <= q < seed_picks(profiles, known, pending, n).len() ==> 0 <= #[trigger] seed_picks(
                profiles,
                known,
                pending,
                n,
            )[q] < n,
    decreases n,
{
    if n > 0 {
        lemma_picks_bound(profiles, known, pending, (n - 1) as nat);
        let ps = seed_picks(profiles, known, pending, (n - 1) as nat);
        let cur = seed_picks(profiles, known, pending, n);
        assert forall|q: int| 0 <= q < cur.len() implies 0 <= #[trigger] cur[q] < n by {
            if q < ps.len() {
                assert(cur[q] == ps[q]);
            }
        }
    }
}

proof fn lemma_pending_split(
    pending: Seq<PendingCatalogChange>,
    start: Seq<PendingCatalogChange>,
    profiles: Seq<SeedProfile>,
    picks: Seq<int>,
    kind: CatalogKind,
    id: Seq<char>,
)
    requires
        pending.len() == start.len() + picks.len(),
        pending.subrange(0, start.len() as int) == start,
        forall|j: int|
            0 <= j < picks.len() ==> change_for(#[trigger] pending[start.len() + j], profiles[picks[j]]),
        forall|q: int| 0 <= q < picks.len() ==> 0 <= #[trigger] picks[q] < profiles.len(),
    ensures
        is_pending(pending, kind, id) <==> (is_pending(start, kind, id) || picked(profiles, picks, kind, id)),
{
    if is_pending(pending, kind, id) {
        let w = choose|w: int| 0 <= w < pending.len() && pending[w].kind == kind && #[trigger] pending[w].id@ == id;
        if w < start.len() {
            assert(pending.subrange(0, start.len() as int)[w] == pending[w]);
            assert(start[w] == pending[w]);
        } else {
            let j = w - start.len();
            assert(change_for(pending[start.len() + j], profiles[picks[j]]));
            assert(profiles[picks[j]].id@ == id);
        }
    }
    if is_pending(start, kind, id) {
        let w = choose|w: int| 0 <= w < start.len() && start[w].kind == kind && #[trigger] start[w].id@ == id;
        assert(pending.subrange(0, start.len() as int)[w] == pending[w]);
        assert(pending[w].id@ == id);
    }
    if picked(profiles, picks, kind, id) {
        let q = choose|q: int|
            0 <= q < picks.len() && profiles[picks[q]].kind == kind && #[trigger] profiles[picks[q]].id@ == id;
        assert(change_for(pending[start.len() + q], profiles[picks[q]]));
        assert(pending[start.len() + q].id@ == id);
    }
}

/// What seeding `profiles` into `before` gives: the agreed hashes and the
/// conflicts stay, queued changes stay, every offered profile is queued or
/// agreed, and the changes added are those of offered profiles that were
/// neither.
pub open spec fn seed_outcome(
    before: CatalogSyncState,
    after: CatalogSyncState,
    profiles: Seq<SeedProfile>,
) -> bool {
    &&& after.known_hashes@ == before.known_hashes@
    &&& after.conflicts@ == before.conflicts@
    &&& after.pending@.len() >= before.pending@.len()
    &&& after.pending@.subrange(0, before.pending@.len() as int) == before.pending@
    &&& forall|k: int|
        0 <= k < profiles.len() ==> is_pending(
            after.pending@,
            (#[trigger] profiles[k]).kind,
            profiles[k].id@,
        ) || known_hash(before.known_hashes@, spec_catalog_key(profiles[k].kind, profiles[k].id@))
            is Some
    &&& forall|j: int|
        before.pending@.len() <= j < after.pending@.len() ==> seeded_by_one(
            #[trigger] after.pending@[j],
            profiles,
            before.known_hashes@,
            before.pending@,
        )
}

/// Seeding is idempotent: seeding the same profiles again queues nothing.
pub proof fn seeding_twice_adds_nothing(
    s0: CatalogSyncState,
    s1: CatalogSyncState,
    s2: CatalogSyncState,
    profiles: Seq<SeedProfile>,
)
    requires
        seed_outcome(s0, s1, profiles),
        seed_outcome(s1, s2, profiles),
    ensures
        s2.pending@ == s1.pending@,
{
    if s2.pending@.len() > s1.pending@.len() {
        let j = s1.pending@.len() as int;
        assert(seeded_by_one(s2.pending@[j], profiles, s1.known_hashes@, s1.pending@));
        let k = choose|k: int|
            0 <= k < profiles.len() && seeded_from(
                s2.pending@[j],
                #[trigger] profiles[k],
                s1.known_hashes@,
                s1.pending@,
            );
        assert(is_pending(s1.pending@, profiles[k].kind, profiles[k].id@) || known_hash(
            s0.known_hashes@,
            spec_catalog_key(profiles[k].kind, profiles[k].id@),
        ) is Some);
    }
    assert(s2.pending@ =~= s2.pending@.subrange(0, s1.pending@.len() as int));
}

/// Queues every offered profile (lasers first, then materials, as given)
/// that is neither agreed with the service nor queued already.
pub fn seed_shared_catalog(state: &mut CatalogSyncState, profiles: &Vec<SeedProfile>)
    requires
        old(state).wf(),
    ensures
        final(state).wf(),
        seed_outcome(*old(state), *final(state), profiles@),
        seeded_in_order(*old(state), *final(state), profiles@),
{
    let ghost start = state.pending@;
    let ghost known = state.known_hashes@;
    let mut i: usize = 0;
    while i < profiles.len()
        invariant
            i <= profiles@.len(),
            state.wf(),
            state.known_hashes@ == known,
            state.conflicts@ == old(state).conflicts@,
            start == old(state).pending@,
            known == old(state).known_hashes@,
            state.pending@.len() >= start.len(),
            state.pending@.subrange(0, start.len() as int) == start,
            forall|k: int|
                0 <= k < i ==> is_pending(
                    state.pending@,
                    (#[trigger] profiles@[k]).kind,
                    profiles@[k].id@,
                ) || known_hash(known, spec_catalog_key(profiles@[k].kind, profiles@[k].id@))
                    is Some,
            forall|j: int|
                start.len() <= j < state.pending@.len() ==> seeded_by_one(
                    #[trigger] state.pending@[j],
                    profiles@,
                    known,
                    start,
                ),
            state.pending@.len() == start.len() + seed_picks(profiles@, known, start, i as nat).len(),
            forall|j: int|
                0 <= j < seed_picks(profiles@, known, start, i as nat).len() ==> change_for(
                    #[trigger] state.pending@[start.len() + j],
                    profiles@[seed_picks(profiles@, known, start, i as nat)[j]],
                ),
        decreases profiles.len() - i,
    {
        let p = &profiles[i];
        proof {
            lemma_picks_bound(profiles@, known, start, i as nat);
            lemma_pending_split(state.pending@, start, profiles@, seed_picks(profiles@, known, start, i as nat), p.kind, p.id@);
        }
        if needs_seed(state, p.kind, p.id.as_str()) {
            let ghost before = state.pending@;
            let payload = Some(p.payload.clone());
            state.enqueue(p.kind, p.id.as_str(), p.content_hash.clone(), payload);
            proof {
                let n = before.len();
                assert(state.pending@.subrange(0, n as int) == before);
                assert forall|j: int| 0 <= j < n implies state.pending@[j] == before[j] by {
                    assert(state.pending@.subrange(0, n as int)[j] == state.pending@[j]);
                }
                assert(state.pending@.subrange(0, start.len() as int) =~= start) by {
                    assert forall|j: int| 0 <= j < start.len() implies state.pending@[j] == start[j] by {
                        assert(before.subrange(0, start.len() as int)[j] == before[j]);
                    }
                }
                assert(!is_pending(start, profiles@[i as int].kind, profiles@[i as int].id@)) by {
                    if is_pending(start, profiles@[i as int].kind, profiles@[i as int].id@) {
                        let w = choose|w: int|
                            0 <= w < start.len() && start[w].kind == profiles@[i as int].kind
                                && #[trigger] start[w].id@ == profiles@[i as int].id@;
                        assert(before.subrange(0, start.len() as int)[w] == before[w]);
                        assert(before[w] == start[w]);
                    }
                }
                assert(seeded_from(state.pending@[n as int], profiles@[i as int], known, start));
                assert forall|k: int|
                    0 <= k <= i implies is_pending(
                        state.pending@,
                        (#[trigger] profiles@[k]).kind,
                        profiles@[k].id@,
                    ) || known_hash(known, spec_catalog_key(profiles@[k].kind, profiles@[k].id@))
                        is Some by {
                    if k == i {
                        assert(state.pending@[n as int].id@ == profiles@[k].id@);
                    } else if is_pending(before, profiles@[k].kind, profiles@[k].id@) {
                        let w = choose|w: int|
                            0 <= w < before.len() && before[w].kind == profiles@[k].kind
                                && #[trigger] before[w].id@ == profiles@[k].id@;
                        assert(state.pending@[w] == before[w]);
                    }
                }
                assert forall|j: int|
                    start.len() <= j < state.pending@.len() implies seeded_by_one(
                        #[trigger] state.pending@[j],
                        profiles@,
                        known,
                        start,
                    ) by {
                    if j < n {
                        assert(state.pending@[j] == before[j]);
                    } else {
                        assert(seeded_from(state.pending@[j], profiles@[i as int], known, start));
                    }
                }
                let ps = seed_picks(profiles@, known, start, i as nat);
                assert(seed_picks(profiles@, known, start, (i + 1) as nat) == ps.push(i as int));
                let np = ps.push(i as int);
                assert forall|j: int| 0 <= j < np.len() implies change_for(
                    #[trigger] state.pending@[start.len() + j],
                    profiles@[np[j]],
                ) by {
                    if j < ps.len() {
                        assert(state.pending@[start.len() + j] == before[start.len() + j]);
                        assert(np[j] == ps[j]);
                    } else {
                        assert(start.len() + j == n);
                    }
                }
            }
        } else {
            proof {
                let ps = seed_picks(profiles@, known, start, i as nat);
                assert(seed_picks(profiles@, known, start, (i + 1) as nat) == ps);
            }
        }
        i = i + 1;
    }
}

} // verus!
