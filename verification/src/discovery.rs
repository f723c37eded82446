//! What a node knows of its siblings, and how it learns more.

use vstd::prelude::*;
use vstd::pervasive::VecAdditionalExecFns;
use vstd::std_specs::cmp::PartialEqSpecImpl;

use crate::backoff::{ExponentialBackoff, wait_until};
use crate::clock::{now_nanos, millis_to_nanos, max_clock_nanos, min_clock_nanos, NANOS_PER_MILLI};
use crate::ip::IpAddress;
use crate::simulation::SimulatedState;
use crate::text::str_eq;
use crate::transport::{MessageDirection, MessageKind, OutboundMessage, TransportSender, outgoing_message};

verus! {

/// A sibling node: where it is and when it was last heard of (an instant in
/// Unix nanoseconds). Two siblings are equal when their addresses are.
#[derive(Debug)]
pub struct Sibling {
    pub ip: IpAddress,
    pub last_seen: i128,
}

/// A sibling as values.
pub struct SiblingView {
    pub ip: Seq<char>,
    pub last_seen: i128,
}

impl View for Sibling {
    type V = SiblingView;

    open spec fn view(&self) -> SiblingView {
        SiblingView { ip: self.ip@, last_seen: self.last_seen }
    }
}

impl Clone for Sibling {
    fn clone(&self) -> (copy: Self)
        ensures
            copy@ == self@,
    {
        Sibling { ip: self.ip.clone(), last_seen: self.last_seen }
    }
}

impl PartialEq for Sibling {
    fn eq(&self, other: &Self) -> (same: bool) {
        self.ip == other.ip
    }
}

impl PartialEqSpecImpl for Sibling {
    open spec fn obeys_eq_spec() -> bool {
        true
    }

    open spec fn eq_spec(&self, other: &Sibling) -> bool {
        self.ip@ == other.ip@
    }
}

/// Whether no two entries share an id.
pub open spec fn keys_distinct(entries: Seq<(Seq<char>, SiblingView)>) -> bool {
    forall|i: int, j: int|
        0 <= i < j < entries.len() ==> #[trigger] entries[i].0 != #[trigger] entries[j].0
}

/// The map that the entries describe, each entry setting its id in turn.
pub open spec fn map_of(entries: Seq<(Seq<char>, SiblingView)>) -> Map<Seq<char>, SiblingView>
    decreases entries.len(),
{
    if entries.len() == 0 {
        Map::empty()
    } else {
        map_of(entries.drop_last()).insert(entries.last().0, entries.last().1)
    }
}

/// With distinct ids, the map holds exactly the entries' ids, each with its
/// entry's sibling, and has one key per entry.
pub proof fn lemma_map_of(entries: Seq<(Seq<char>, SiblingView)>)
    requires
        keys_distinct(entries),
    ensures
        forall|k: Seq<char>|
            #[trigger] map_of(entries).dom().contains(k) <==> exists|i: int|
                0 <= i < entries.len() && entries[i].0 == k,
        forall|i: int| 0 <= i < entries.len() ==> #[trigger] map_of(entries)[entries[i].0] == entries[i].1,
        map_of(entries).dom().finite(),
        map_of(entries).dom().len() == entries.len(),
    decreases entries.len(),
{
    if entries.len() > 0 {
        let rest = entries.drop_last();
        assert(keys_distinct(rest));
        lemma_map_of(rest);
        let last = entries.last();
        assert(!map_of(rest).dom().contains(last.0)) by {
            if map_of(rest).dom().contains(last.0) {
                let i = choose|i: int| 0 <= i < rest.len() && rest[i].0 == last.0;
                assert(entries[i].0 == entries[entries.len() - 1].0);
            }
        }
        assert forall|k: Seq<char>|
            #[trigger] map_of(entries).dom().contains(k) <==> exists|i: int|
                0 <= i < entries.len() && entries[i].0 == k by {
            if map_of(entries).dom().contains(k) && k != last.0 {
                let i = choose|i: int| 0 <= i < rest.len() && rest[i].0 == k;
                assert(entries[i].0 == k);
            }
            if exists|i: int| 0 <= i < entries.len() && entries[i].0 == k {
                let i = choose|i: int| 0 <= i < entries.len() && entries[i].0 == k;
                if i < entries.len() - 1 {
                    assert(rest[i].0 == k);
                }
            }
        }
        assert forall|i: int| 0 <= i < entries.len() implies #[trigger] map_of(entries)[entries[i].0]
            == entries[i].1 by {
            if i < entries.len() - 1 {
                assert(rest[i] == entries[i]);
                assert(entries[i].0 != last.0);
            }
        }
    }
}

/// Whether a sibling last seen at `last_seen` still counts at `now`: it was
/// seen less than `expiry` nanoseconds ago.
pub open spec fn is_recent(last_seen: int, now: int, expiry: int) -> bool {
    now - last_seen < expiry
}

/// The part of `m` whose siblings still count at `now`.
pub open spec fn recent_part(m: Map<Seq<char>, SiblingView>, now: int, expiry: int) -> Map<
    Seq<char>,
    SiblingView,
> {
    Map::new(
        |k: Seq<char>| m.dom().contains(k) && is_recent(m[k].last_seen as int, now, expiry),
        |k: Seq<char>| m[k],
    )
}

/// Decides `is_recent` without overflowing.
fn recent(last_seen: i128, now: i128, expiry: i128) -> (yes: bool)
    ensures
        yes == is_recent(last_seen as int, now as int, expiry as int),
{
    match now.checked_sub(last_seen) {
        Some(age) => age < expiry,
        None => now < last_seen,
    }
}

/// Siblings by node id. Ids are unique; the entries keep the order in which
/// their ids were first recorded.
#[derive(Debug)]
pub struct SiblingsMap {
    entries: Vec<(String, Sibling)>,
}

impl View for SiblingsMap {
    type V = Map<Seq<char>, SiblingView>;

    open spec fn view(&self) -> Map<Seq<char>, SiblingView> {
        map_of(self.entries())
    }
}

impl SiblingsMap {
    /// The entries, in order.
    pub closed spec fn entries(&self) -> Seq<(Seq<char>, SiblingView)> {
        self.entries@.map_values(|e: (String, Sibling)| (e.0@, e.1@))
    }

    /// No id occurs twice.
    pub open spec fn wf(&self) -> bool {
        keys_distinct(self.entries())
    }

    #[verifier::type_invariant]
    spec fn ids_unique(self) -> bool {
        self.wf()
    }

    /// An empty map.
    pub fn new() -> (map: SiblingsMap)
        ensures
            map.wf(),
            map.entries() == Seq::<(Seq<char>, SiblingView)>::empty(),
            map@ == Map::<Seq<char>, SiblingView>::empty(),
    {
        let map = SiblingsMap { entries: Vec::new() };
        assert(map.entries() =~= Seq::<(Seq<char>, SiblingView)>::empty());
        map
    }

    /// The number of siblings.
    pub fn len(&self) -> (n: usize)
        ensures
            n == self.entries().len(),
            n == self@.dom().len(),
    {
        proof {
            use_type_invariant(self);
            lemma_map_of(self.entries());
        }
        self.entries.len()
    }

    /// Whether there are no siblings.
    pub fn is_empty(&self) -> (empty: bool)
        ensures
            empty == (self.entries().len() == 0),
            empty == (self@.dom().len() == 0),
    {
        proof {
            use_type_invariant(self);
            lemma_map_of(self.entries());
        }
        self.entries.len() == 0
    }

    /// The id of the entry at `index`.
    pub fn id_at(&self, index: usize) -> (id: &String)
        requires
            index < self.entries().len(),
        ensures
            id@ == self.entries()[index as int].0,
    {
        &self.entries[index].0
    }

    /// The sibling of the entry at `index`.
    pub fn sibling_at(&self, index: usize) -> (sibling: &Sibling)
        requires
            index < self.entries().len(),
        ensures
            sibling@ == self.entries()[index as int].1,
    {
        &self.entries[index].1
    }

    /// Where `id` stands among the entries, if it does.
    fn index_of(&self, id: &str) -> (index: Option<usize>)
        ensures
            match index {
                Some(i) => i < self.entries().len() && self.entries()[i as int].0 == id@,
                None => !self@.dom().contains(id@),
            },
    {
        proof {
            use_type_invariant(self);
            lemma_map_of(self.entries());
        }
        let n = self.entries.len();
        let mut i: usize = 0;
        while i < n
            invariant
                n == self.entries().len(),
                i <= n,
                forall|j: int| 0 <= j < i ==> self.entries()[j].0 != id@,
            decreases n - i,
        {
            if str_eq(self.entries[i].0.as_str(), id) {
                return Some(i);
            }
            i = i + 1;
        }
        None
    }

    /// The sibling recorded under `id`, if any.
    pub fn get(&self, id: &str) -> (sibling: Option<&Sibling>)
        ensures
            sibling is Some <==> self@.dom().contains(id@),
            sibling matches Some(s) ==> s@ == self@[id@],
    {
        proof {
            use_type_invariant(self);
            lemma_map_of(self.entries());
        }
        match self.index_of(id) {
            Some(i) => Some(&self.entries[i].1),
            None => None,
        }
    }

    /// Records `sibling` under `id`, replacing any earlier record for that id
    /// in place; a new id goes last.
    pub fn insert(&mut self, id: String, sibling: Sibling)
        ensures
            final(self).wf(),
            final(self)@ == old(self)@.insert(id@, sibling@),
            old(self)@.dom().contains(id@) ==> exists|i: int|
                0 <= i < old(self).entries().len() && old(self).entries()[i].0 == id@
                    && final(self).entries() == old(self).entries().update(i, (id@, sibling@)),
            !old(self)@.dom().contains(id@) ==> final(self).entries() == old(self).entries().push(
                (id@, sibling@),
            ),
    {
        proof {
            use_type_invariant(&*self);
        }
        let ghost before = self.entries();
        proof {
            lemma_map_of(before);
        }
        let found = self.index_of(id.as_str());
        let mut entries: Vec<(String, Sibling)> = Vec::new();
        std::mem::swap(&mut entries, &mut self.entries);
        assert(entries@.map_values(|e: (String, Sibling)| (e.0@, e.1@)) == before);
        match found {
            Some(i) => {
                let ghost entry = (id@, sibling@);
                entries.set(i, (id, sibling));
                let ghost after = entries@.map_values(|e: (String, Sibling)| (e.0@, e.1@));
                proof {
                    assert(after =~= before.update(i as int, entry));
                    assert(keys_distinct(after)) by {
                        assert forall|a: int, b: int| 0 <= a < b < after.len() implies #[trigger] after[a].0
                            != #[trigger] after[b].0 by {
                            assert(before[a].0 != before[b].0);
                        }
                    }
                    lemma_map_of(after);
                    assert(map_of(after) =~= map_of(before).insert(entry.0, entry.1)) by {
                        assert forall|k: Seq<char>| #[trigger] map_of(after).dom().contains(k)
                            <==> map_of(before).insert(entry.0, entry.1).dom().contains(k) by {
                            let in_before = map_of(before).dom().contains(k);
                            let in_after = map_of(after).dom().contains(k);
                            assert(after[i as int].0 == entry.0);
                            assert(before[i as int].0 == entry.0);
                            if exists|j: int| 0 <= j < before.len() && before[j].0 == k {
                                let j = choose|j: int| 0 <= j < before.len() && before[j].0 == k;
                                if j != i {
                                    assert(after[j].0 == k);
                                }
                            }
                            if exists|j: int| 0 <= j < after.len() && after[j].0 == k {
                                let j = choose|j: int| 0 <= j < after.len() && after[j].0 == k;
                                if j != i {
                                    assert(before[j].0 == k);
                                }
                            }
                        }
                        assert forall|k: Seq<char>| #[trigger] map_of(after).dom().contains(k)
                            implies map_of(after)[k] == map_of(before).insert(entry.0, entry.1)[k] by {
                            let j = choose|j: int| 0 <= j < after.len() && after[j].0 == k;
                            if j != i {
                                assert(before[j] == after[j]);
                            }
                        }
                    }
                }
                self.entries = entries;
            },
            None => {
                let ghost entry = (id@, sibling@);
                entries.push((id, sibling));
                let ghost after = entries@.map_values(|e: (String, Sibling)| (e.0@, e.1@));
                proof {
                    assert(after =~= before.push(entry));
                    assert(!exists|j: int| 0 <= j < before.len() && before[j].0 == entry.0);
                    assert(keys_distinct(after)) by {
                        assert forall|a: int, b: int| 0 <= a < b < after.len() implies #[trigger] after[a].0
                            != #[trigger] after[b].0 by {
                            if b == before.len() {
                                assert(before[a].0 == after[a].0);
                            } else {
                                assert(before[a].0 != before[b].0);
                            }
                        }
                    }
                    assert(after.drop_last() =~= before);
                }
                self.entries = entries;
            },
        }
    }

    /// Keeps only the siblings seen less than `expiry` nanoseconds before
    /// `now`, in their order.
    pub fn retain_recent(&mut self, now: i128, expiry: i128)
        ensures
            final(self).wf(),
            final(self)@ == recent_part(old(self)@, now as int, expiry as int),
    {
        proof {
            use_type_invariant(&*self);
        }
        let ghost before = self.entries();
        let mut kept: Vec<(String, Sibling)> = Vec::new();
        let n = self.entries.len();
        let mut i: usize = 0;
        while i < n
            invariant
                n == before.len(),
                before == self.entries(),
                keys_distinct(before),
                i <= n,
                keys_distinct(kept@.map_values(|e: (String, Sibling)| (e.0@, e.1@))),
                forall|a: int|
                    0 <= a < kept@.len() ==> exists|j: int|
                        0 <= j < i && #[trigger] kept@[a].0@ == before[j].0,
                map_of(kept@.map_values(|e: (String, Sibling)| (e.0@, e.1@))) =~= recent_part(
                    map_of(before.take(i as int)),
                    now as int,
                    expiry as int,
                ),
            decreases n - i,
        {
            let ghost kept_before = kept@.map_values(|e: (String, Sibling)| (e.0@, e.1@));
            let ghost entry = before[i as int];
            proof {
                assert(before.take(i as int + 1).drop_last() =~= before.take(i as int));
                assert(keys_distinct(before.take(i as int)));
                lemma_map_of(before.take(i as int));
                assert(!map_of(before.take(i as int)).dom().contains(entry.0)) by {
                    if map_of(before.take(i as int)).dom().contains(entry.0) {
                        let j = choose|j: int| 0 <= j < i && before.take(i as int)[j].0 == entry.0;
                        assert(before[j].0 == before[i as int].0);
                    }
                }
            }
            if recent(self.entries[i].1.last_seen, now, expiry) {
                let id = self.entries[i].0.clone();
                let sibling = self.entries[i].1.clone();
                kept.push((id, sibling));
                proof {
                    let kept_after = kept@.map_values(|e: (String, Sibling)| (e.0@, e.1@));
                    assert(kept_after =~= kept_before.push(entry));
                    assert(kept_after.drop_last() =~= kept_before);
                    assert(keys_distinct(kept_after)) by {
                        assert forall|a: int, b: int| 0 <= a < b < kept_after.len() implies #[trigger] kept_after[a].0
                            != #[trigger] kept_after[b].0 by {
                            if b == kept_before.len() {
                                assert(kept@[a].0@ == kept_before[a].0);
                                let j = choose|j: int| 0 <= j < i && #[trigger] kept@[a].0@ == before[j].0;
                                assert(before[j].0 != before[i as int].0);
                            } else {
                                assert(kept_before[a].0 != kept_before[b].0);
                            }
                        }
                    }
                    assert forall|a: int| 0 <= a < kept@.len() implies exists|j: int|
                        0 <= j < i + 1 && #[trigger] kept@[a].0@ == before[j].0 by {
                        if a == kept@.len() - 1 {
                            assert(kept@[a].0@ == before[i as int].0);
                        } else {
                            assert(kept@[a].0@ == kept_before[a].0);
                        }
                    }
                }
            }
            proof {
                assert forall|a: int| 0 <= a < kept@.len() implies exists|j: int|
                    0 <= j < i + 1 && #[trigger] kept@[a].0@ == before[j].0 by {
                    if exists|j: int| 0 <= j < i && #[trigger] kept@[a].0@ == before[j].0 {
                        let j = choose|j: int| 0 <= j < i && #[trigger] kept@[a].0@ == before[j].0;
                        assert(0 <= j < i + 1);
                    }
                }
            }
            i = i + 1;
        }
        proof {
            assert(before.take(n as int) =~= before);
        }
        self.entries = kept;
    }
}

/// The address of each sibling, by id.
pub open spec fn ip_map(m: Map<Seq<char>, SiblingView>) -> Map<Seq<char>, Seq<char>> {
    m.map_values(|s: SiblingView| s.ip)
}

impl PartialEq for SiblingsMap {
    /// Two maps are equal when they hold the same ids, each with equal
    /// siblings (the same address).
    fn eq(&self, other: &Self) -> (same: bool) {
        proof {
            use_type_invariant(self);
            use_type_invariant(other);
            lemma_map_of(self.entries());
            lemma_map_of(other.entries());
        }
        if self.entries.len() != other.entries.len() {
            proof {
                if ip_map(self@) == ip_map(other@) {
                    assert(self@.dom() =~= ip_map(self@).dom());
                    assert(other@.dom() =~= ip_map(other@).dom());
                }
            }
            return false;
        }
        let n = self.entries.len();
        let mut i: usize = 0;
        while i < n
            invariant
                n == self.entries().len(),
                n == other.entries().len(),
                i <= n,
                keys_distinct(self.entries()),
                keys_distinct(other.entries()),
                self@.dom().len() == n,
                other@.dom().len() == n,
                self@.dom().finite(),
                other@.dom().finite(),
                forall|j: int|
                    0 <= j < i ==> #[trigger] other@.dom().contains(self.entries()[j].0)
                        && other@[self.entries()[j].0].ip == self.entries()[j].1.ip,
            decreases n - i,
        {
            proof {
                lemma_map_of(self.entries());
            }
            match other.get(self.entries[i].0.as_str()) {
                Some(found) => {
                    if !(found.ip == self.entries[i].1.ip) {
                        proof {
                            let k = self.entries()[i as int].0;
                            assert(self@[k] == self.entries()[i as int].1);
                            assert(ip_map(self@)[k] != ip_map(other@)[k]);
                        }
                        return false;
                    }
                    proof {
                        assert(self.entries()[i as int].1 == self.entries@[i as int].1@);
                        assert(self.entries()[i as int].0 == self.entries@[i as int].0@);
                    }
                },
                None => {
                    proof {
                        let k = self.entries()[i as int].0;
                        assert(self@.dom().contains(k));
                        assert(!ip_map(other@).dom().contains(k));
                    }
                    return false;
                },
            }
            i = i + 1;
        }
        proof {
            assert(self@.dom().subset_of(other@.dom())) by {
                assert forall|k: Seq<char>| self@.dom().contains(k) implies other@.dom().contains(k) by {
                    let j = choose|j: int| 0 <= j < self.entries().len() && self.entries()[j].0 == k;
                    assert(other@.dom().contains(self.entries()[j].0));
                }
            }
            vstd::set_lib::lemma_subset_equality(self@.dom(), other@.dom());
            assert(ip_map(self@) =~= ip_map(other@)) by {
                assert forall|k: Seq<char>| #[trigger] ip_map(self@).dom().contains(k) implies ip_map(self@)[k]
                    == ip_map(other@)[k] by {
                    let j = choose|j: int| 0 <= j < self.entries().len() && self.entries()[j].0 == k;
                    assert(other@.dom().contains(self.entries()[j].0));
                    assert(self@[k] == self.entries()[j].1);
                }
            }
        }
        true
    }
}

impl PartialEqSpecImpl for SiblingsMap {
    open spec fn obeys_eq_spec() -> bool {
        true
    }

    open spec fn eq_spec(&self, other: &SiblingsMap) -> bool {
        ip_map(self@) == ip_map(other@)
    }
}

/// `m` after recording each of `entries` in turn, where a record replaces an
/// existing one only if the existing one was not seen more recently.
pub open spec fn merge_fresh(
    m: Map<Seq<char>, SiblingView>,
    entries: Seq<(Seq<char>, SiblingView)>,
) -> Map<Seq<char>, SiblingView>
    decreases entries.len(),
{
    if entries.len() == 0 {
        m
    } else {
        let before = merge_fresh(m, entries.drop_last());
        let (k, v) = entries.last();
        if before.dom().contains(k) && before[k].last_seen > v.last_seen {
            before
        } else {
            before.insert(k, v)
        }
    }
}

/// For each id, the fresher of the two records: the one in `incoming`
/// unless `existing` holds one seen strictly more recently.
pub open spec fn fresher_of(
    existing: Map<Seq<char>, SiblingView>,
    incoming: Map<Seq<char>, SiblingView>,
) -> Map<Seq<char>, SiblingView> {
    Map::new(
        |k: Seq<char>| existing.dom().contains(k) || incoming.dom().contains(k),
        |k: Seq<char>|
            if incoming.dom().contains(k) && !(existing.dom().contains(k)
                && existing[k].last_seen > incoming[k].last_seen) {
                incoming[k]
            } else {
                existing[k]
            },
    )
}

/// Merging gossip never replaces a record by a staler one: every id ends up
/// with the fresher of its existing and incoming records (the incoming one on a
/// tie), and ids that were not gossiped about keep their records.
pub proof fn merge_keeps_fresher(
    existing: Map<Seq<char>, SiblingView>,
    incoming: Seq<(Seq<char>, SiblingView)>,
)
    requires
        keys_distinct(incoming),
    ensures
        merge_fresh(existing, incoming) == fresher_of(existing, map_of(incoming)),
    decreases incoming.len(),
{
    lemma_map_of(incoming);
    if incoming.len() == 0 {
        assert(fresher_of(existing, map_of(incoming)) =~= existing);
    } else {
        let rest = incoming.drop_last();
        assert(keys_distinct(rest));
        merge_keeps_fresher(existing, rest);
        lemma_map_of(rest);
        let (k, v) = incoming.last();
        assert(!map_of(rest).dom().contains(k)) by {
            if map_of(rest).dom().contains(k) {
                let i = choose|i: int| 0 <= i < rest.len() && rest[i].0 == k;
                assert(incoming[i].0 == incoming[incoming.len() - 1].0);
            }
        }
        assert(merge_fresh(existing, incoming) =~= fresher_of(existing, map_of(incoming)));
    }
}

/// The addresses of the siblings in `m`.
pub open spec fn known_ips(m: Map<Seq<char>, SiblingView>) -> Set<Seq<char>> {
    Set::new(|ip: Seq<char>| exists|k: Seq<char>| m.dom().contains(k) && m[k].ip == ip)
}

/// The views of a list of addresses.
pub open spec fn ip_views(ips: Seq<IpAddress>) -> Seq<Seq<char>> {
    ips.map_values(|ip: IpAddress| ip@)
}

/// A round at `now` keeps a sibling recorded as seen at `seen` exactly when
/// it was seen less than the expiry time before `now`, whatever else is known;
/// once a round drops it, every later round would drop it too, and a round at
/// least the expiry time after `seen` always drops it.
pub proof fn expiry_judges_age_at_round_time(
    m: Map<Seq<char>, SiblingView>,
    id: Seq<char>,
    ip: Seq<char>,
    seen: i128,
    now: int,
    later: int,
    expiry: int,
)
    requires
        now <= later,
    ensures
        recent_part(m.insert(id, SiblingView { ip, last_seen: seen }), now, expiry).dom().contains(id)
            <==> now - seen < expiry,
        !recent_part(m.insert(id, SiblingView { ip, last_seen: seen }), now, expiry).dom().contains(id)
            ==> !recent_part(
            m.insert(id, SiblingView { ip, last_seen: seen }),
            later,
            expiry,
        ).dom().contains(id),
        now >= seen + expiry ==> !recent_part(
            m.insert(id, SiblingView { ip, last_seen: seen }),
            now,
            expiry,
        ).dom().contains(id),
        forall|k: Seq<char>|
            #[trigger] recent_part(m, now, expiry).dom().contains(k) ==> recent_part(
                m,
                now,
                expiry,
            )[k] == m[k],
{
}

/// Gossip read at `t` refreshes every record it names that was last seen no
/// later than `t`, and leaves every record seen after `t` alone: each named id
/// ends up last seen at the later of the two instants, with the address of
/// the record that instant belongs to; ids not named keep their records.
pub proof fn gossip_refreshes_older_records(
    existing: Map<Seq<char>, SiblingView>,
    incoming: Map<Seq<char>, SiblingView>,
    t: i128,
)
    requires
        forall|k: Seq<char>| #[trigger] incoming.dom().contains(k) ==> incoming[k].last_seen == t,
    ensures
        forall|k: Seq<char>|
            #[trigger] incoming.dom().contains(k) ==> {
                let r = fresher_of(existing, incoming)[k];
                &&& existing.dom().contains(k) && existing[k].last_seen > t ==> r == existing[k]
                &&& !(existing.dom().contains(k) && existing[k].last_seen > t) ==> r.last_seen == t
                    && r.ip == incoming[k].ip
                &&& existing.dom().contains(k) ==> r.last_seen >= existing[k].last_seen
                &&& r.last_seen >= t
            },
        forall|k: Seq<char>|
            #[trigger] existing.dom().contains(k) && !incoming.dom().contains(k) ==> fresher_of(
                existing,
                incoming,
            )[k] == existing[k],
        fresher_of(existing, incoming).dom() == existing.dom().union(incoming.dom()),
{
    assert(fresher_of(existing, incoming).dom() =~= existing.dom().union(incoming.dom()));
}

/// A sequence extended by one element holds what it held and that element.
proof fn lemma_contains_push(s: Seq<Seq<char>>, x: Seq<char>)
    ensures
        forall|y: Seq<char>| #[trigger] s.push(x).contains(y) <==> s.contains(y) || y == x,
{
    assert forall|y: Seq<char>| #[trigger] s.push(x).contains(y) <==> s.contains(y) || y == x by {
        if s.push(x).contains(y) {
            let i = choose|i: int| 0 <= i < s.push(x).len() && s.push(x)[i] == y;
            if i < s.len() {
                assert(s[i] == y);
            }
        }
        if s.contains(y) {
            let i = choose|i: int| 0 <= i < s.len() && s[i] == y;
            assert(s.push(x)[i] == y);
        }
        if y == x {
            assert(s.push(x)[s.len() as int] == y);
        }
    }
}

/// What a network check decided.
#[derive(PartialEq, Eq, Structural, Debug, Clone, Copy)]
pub enum NetworkCheck {
    /// The network and DNS are up: go on with a lookup.
    Available,
    /// They are not: wait this many nanoseconds, then give up this round.
    Unavailable { wait_nanos: u128 },
}

/// One round under the doubling DNS retry rule.
#[derive(PartialEq, Eq, Structural, Debug, Clone, Copy)]
pub struct DnsRetryStep {
    /// Seconds to wait before the round ends (0 for none).
    pub wait_seconds: u64,
    /// The backoff the next round starts from.
    pub next_backoff_seconds: u64,
    /// Whether the round goes on to look for siblings.
    pub proceed: bool,
}

/// The doubling DNS retry rule: with DNS available the backoff clears and the
/// round goes on; without it the round fails, first waiting out the current
/// backoff if there is one, and the next backoff is twice as long (2 seconds
/// after none).
pub fn dns_retry_step(backoff_seconds: u64, dns_available: bool) -> (step: DnsRetryStep)
    requires
        !dns_available ==> backoff_seconds * 2 <= u64::MAX,
    ensures
        dns_available ==> step == (DnsRetryStep { wait_seconds: 0, next_backoff_seconds: 0, proceed: true }),
        !dns_available && backoff_seconds > 0 ==> step == (DnsRetryStep {
            wait_seconds: backoff_seconds,
            next_backoff_seconds: (backoff_seconds * 2) as u64,
            proceed: false,
        }),
        !dns_available && backoff_seconds == 0 ==> step == (DnsRetryStep { wait_seconds: 0, next_backoff_seconds: 2, proceed: false }),
{
    if dns_available {
        DnsRetryStep { wait_seconds: 0, next_backoff_seconds: 0, proceed: true }
    } else if backoff_seconds > 0 {
        DnsRetryStep { wait_seconds: backoff_seconds, next_backoff_seconds: backoff_seconds * 2, proceed: false }
    } else {
        DnsRetryStep { wait_seconds: 0, next_backoff_seconds: 2, proceed: false }
    }
}

/// A node's knowledge of its siblings and its schedule for looking for more.
pub struct Discovery {
    pub siblings: SiblingsMap,
    /// How long a sibling counts without being heard of, in nanoseconds.
    pub sibling_expiry_time: i128,
    pub backoff: ExponentialBackoff,
}

impl Discovery {
    /// How long, in nanoseconds, a sibling counts without being heard of.
    pub open spec fn expiry(&self) -> int {
        self.sibling_expiry_time as int
    }

    /// The retry schedule.
    pub open spec fn schedule(&self) -> ExponentialBackoff {
        self.backoff
    }

    /// A discovery with no siblings, whose siblings expire after
    /// `sibling_expiry_time_ms` milliseconds and whose retry schedule is due
    /// now.
    pub fn new(sibling_expiry_time_ms: i64) -> (d: Discovery)
        ensures
            d.siblings@ == Map::<Seq<char>, SiblingView>::empty(),
            d.expiry() == millis_to_nanos(sibling_expiry_time_ms),
            d.schedule().backoff_seconds() == crate::backoff::INITIAL_BACKOFF_SECONDS,
            min_clock_nanos() <= d.schedule().next_retry_at() <= max_clock_nanos(),
    {
        let now = now_nanos();
        Self::new_at(sibling_expiry_time_ms, now)
    }

    /// A discovery with no siblings, whose siblings expire after
    /// `sibling_expiry_time_ms` milliseconds and whose retry schedule is due
    /// at `now`.
    pub fn new_at(sibling_expiry_time_ms: i64, now: i128) -> (d: Discovery)
        requires
            min_clock_nanos() <= now,
        ensures
            d.siblings@ == Map::<Seq<char>, SiblingView>::empty(),
            d.expiry() == millis_to_nanos(sibling_expiry_time_ms),
            d.schedule().backoff_seconds() == crate::backoff::INITIAL_BACKOFF_SECONDS,
            d.schedule().next_retry_at() == now,
    {
        Discovery {
            siblings: SiblingsMap::new(),
            sibling_expiry_time: (sibling_expiry_time_ms as i128) * NANOS_PER_MILLI,
            backoff: ExponentialBackoff::new_at(now),
        }
    }

    /// Whether one more wait can be scheduled (see `ExponentialBackoff::can_advance`).
    pub fn can_wait(&self) -> (ok: bool)
        ensures
            ok == self.schedule().can_advance(),
    {
        self.backoff.check_can_advance()
    }

    /// Decides, seen at `now`, whether this round may look for siblings: when
    /// outbound messages and DNS are both available the schedule restarts at
    /// `now`; otherwise the round waits out the remaining backoff.
    pub fn check_network_backoff_at(&mut self, state: &SimulatedState, now: i128) -> (check:
        NetworkCheck)
        requires
            min_clock_nanos() <= now <= max_clock_nanos(),
            !(state.outbound() && state.dns()) ==> old(self).schedule().can_advance(),
        ensures
            final(self).siblings == old(self).siblings,
            final(self).expiry() == old(self).expiry(),
            state.outbound() && state.dns() ==> {
                &&& check == NetworkCheck::Available
                &&& final(self).schedule().next_retry_at() == now
                &&& final(self).schedule().backoff_seconds() == old(self).schedule().backoff_seconds()
            },
            !(state.outbound() && state.dns()) ==> {
                &&& check == NetworkCheck::Unavailable {
                    wait_nanos: wait_until(old(self).schedule().next_retry_at(), now as int) as u128,
                }
                &&& final(self).schedule().next_retry_at() == old(self).schedule().next_retry_at()
                    + old(self).schedule().backoff_seconds() * crate::clock::NANOS_PER_SECOND
                &&& final(self).schedule().backoff_seconds() == crate::backoff::grown_backoff(
                    old(self).schedule().backoff_seconds(),
                )
            },
    {
        if state.outbound_network_messages_available() && state.dns_available() {
            self.backoff.reset_at(now);
            return NetworkCheck::Available;
        }
        let wait_nanos = self.backoff.remaining_wait_at(now);
        NetworkCheck::Unavailable { wait_nanos }
    }

    /// Decides, seen now, whether this round may look for siblings (see
    /// `check_network_backoff_at`).
    pub fn check_network_backoff(&mut self, state: &SimulatedState) -> (check: NetworkCheck)
        requires
            !(state.outbound() && state.dns()) ==> old(self).schedule().can_advance(),
        ensures
            final(self).siblings == old(self).siblings,
            final(self).expiry() == old(self).expiry(),
            state.outbound() && state.dns() ==> check == NetworkCheck::Available
                && final(self).schedule().backoff_seconds() == old(self).schedule().backoff_seconds()
                && min_clock_nanos() <= final(self).schedule().next_retry_at() <= max_clock_nanos(),
            !(state.outbound() && state.dns()) ==> {
                &&& exists|now: int|
                    min_clock_nanos() <= now <= max_clock_nanos() && check
                        == NetworkCheck::Unavailable {
                        wait_nanos: wait_until(old(self).schedule().next_retry_at(), now) as u128,
                    }
                &&& final(self).schedule().next_retry_at() == old(self).schedule().next_retry_at()
                    + old(self).schedule().backoff_seconds() * crate::clock::NANOS_PER_SECOND
                &&& final(self).schedule().backoff_seconds() == crate::backoff::grown_backoff(
                    old(self).schedule().backoff_seconds(),
                )
            },
    {
        let now = now_nanos();
        self.check_network_backoff_at(state, now)
    }

    /// Forgets, at `now`, the siblings not heard of within the expiry time.
    pub fn remove_expired_siblings_at(&mut self, now: i128)
        ensures
            final(self).siblings@ == recent_part(old(self).siblings@, now as int, old(self).expiry()),
            final(self).expiry() == old(self).expiry(),
            final(self).schedule() == old(self).schedule(),
    {
        self.siblings.retain_recent(now, self.sibling_expiry_time);
    }

    /// Forgets the siblings not heard of within the expiry time.
    pub fn remove_expired_siblings(&mut self)
        ensures
            exists|now: int|
                min_clock_nanos() <= now <= max_clock_nanos() && final(self).siblings@ == recent_part(
                    old(self).siblings@,
                    now,
                    old(self).expiry(),
                ),
            final(self).expiry() == old(self).expiry(),
            final(self).schedule() == old(self).schedule(),
    {
        let now = now_nanos();
        self.remove_expired_siblings_at(now);
    }

    /// Whether `ip` is the address of a known sibling.
    fn knows_ip(&self, ip: &IpAddress) -> (known: bool)
        ensures
            known == known_ips(self.siblings@).contains(ip@),
    {
        proof {
            use_type_invariant(&self.siblings);
            lemma_map_of(self.siblings.entries());
        }
        let n = self.siblings.len();
        let mut i: usize = 0;
        while i < n
            invariant
                n == self.siblings.entries().len(),
                keys_distinct(self.siblings.entries()),
                i <= n,
                forall|j: int| 0 <= j < i ==> self.siblings.entries()[j].1.ip != ip@,
            decreases n - i,
        {
            if self.siblings.sibling_at(i).ip == *ip {
                proof {
                    let k = self.siblings.entries()[i as int].0;
                    lemma_map_of(self.siblings.entries());
                    assert(self.siblings@.dom().contains(k));
                }
                return true;
            }
            i = i + 1;
        }
        proof {
            lemma_map_of(self.siblings.entries());
            if known_ips(self.siblings@).contains(ip@) {
                let k = choose|k: Seq<char>| self.siblings@.dom().contains(k) && self.siblings@[k].ip == ip@;
                let j = choose|j: int| 0 <= j < n && self.siblings.entries()[j].0 == k;
                assert(self.siblings@[k] == self.siblings.entries()[j].1);
            }
        }
        false
    }

    /// The discovered addresses that belong to no known sibling, each once:
    /// the nodes to ask to identify themselves.
    pub fn poll_and_identify_siblings(&self, discovered: &Vec<IpAddress>) -> (unknown: Vec<IpAddress>)
        ensures
            forall|a: int, b: int|
                0 <= a < b < unknown@.len() ==> #[trigger] unknown@[a]@ != #[trigger] unknown@[b]@,
            forall|ip: Seq<char>|
                #[trigger] ip_views(unknown@).contains(ip) <==> ip_views(discovered@).contains(ip)
                    && !known_ips(self.siblings@).contains(ip),
    {
        let mut unknown: Vec<IpAddress> = Vec::new();
        let n = discovered.len();
        let mut i: usize = 0;
        while i < n
            invariant
                n == discovered@.len(),
                i <= n,
                forall|a: int, b: int|
                    0 <= a < b < unknown@.len() ==> #[trigger] unknown@[a]@ != #[trigger] unknown@[b]@,
                forall|ip: Seq<char>|
                    #[trigger] ip_views(unknown@).contains(ip) <==> ip_views(discovered@.take(i as int)).contains(ip)
                        && !known_ips(self.siblings@).contains(ip),
            decreases n - i,
        {
            let candidate = &discovered[i];
            let ghost seen = discovered@.take(i as int);
            let ghost next_seen = discovered@.take(i as int + 1);
            proof {
                assert(ip_views(next_seen) =~= ip_views(seen).push(candidate@));
                lemma_contains_push(ip_views(seen), candidate@);
            }
            let mut listed = false;
            let m = unknown.len();
            let mut j: usize = 0;
            while j < m
                invariant
                    m == unknown@.len(),
                    j <= m,
                    !listed ==> forall|b: int| 0 <= b < j ==> unknown@[b]@ != candidate@,
                    listed ==> ip_views(unknown@).contains(candidate@),
                decreases m - j,
            {
                if unknown[j] == *candidate {
                    listed = true;
                    proof {
                        assert(ip_views(unknown@)[j as int] == candidate@);
                    }
                }
                j = j + 1;
            }
            if !listed && !self.knows_ip(candidate) {
                let ghost before = unknown@;
                unknown.push(candidate.clone());
                proof {
                    assert(ip_views(unknown@) =~= ip_views(before).push(candidate@));
                    lemma_contains_push(ip_views(before), candidate@);
                    assert(!ip_views(before).contains(candidate@)) by {
                        if ip_views(before).contains(candidate@) {
                            let b = choose|b: int| 0 <= b < before.len() && ip_views(before)[b] == candidate@;
                            assert(before[b]@ == candidate@);
                        }
                    }
                    assert forall|a: int, b: int| 0 <= a < b < unknown@.len() implies #[trigger] unknown@[a]@
                        != #[trigger] unknown@[b]@ by {
                        if b == before.len() {
                            assert(ip_views(before)[a] == before[a]@);
                        } else {
                            assert(before[a]@ != before[b]@);
                        }
                    }
                }
            } else {
                proof {
                    if !listed {
                        assert(known_ips(self.siblings@).contains(candidate@));
                    }
                }
            }
            i = i + 1;
        }
        proof {
            assert(discovered@.take(n as int) =~= discovered@);
        }
        unknown
    }

    /// Records, at `now`, that the node `sibling_id` is at `sibling_ip`.
    pub fn record_sibling_at(&mut self, sibling_id: String, sibling_ip: IpAddress, now: i128)
        ensures
            final(self).siblings@ == old(self).siblings@.insert(
                sibling_id@,
                SiblingView { ip: sibling_ip@, last_seen: now },
            ),
            final(self).expiry() == old(self).expiry(),
            final(self).schedule() == old(self).schedule(),
    {
        self.siblings.insert(sibling_id, Sibling { ip: sibling_ip, last_seen: now });
    }

    /// Records that the node `sibling_id` is at `sibling_ip`, seen now.
    pub fn record_sibling(&mut self, sibling_id: String, sibling_ip: IpAddress)
        ensures
            exists|now: i128|
                min_clock_nanos() <= now <= max_clock_nanos() && final(self).siblings@ == old(
                    self,
                ).siblings@.insert(sibling_id@, SiblingView { ip: sibling_ip@, last_seen: now }),
            final(self).expiry() == old(self).expiry(),
            final(self).schedule() == old(self).schedule(),
    {
        let now = now_nanos();
        self.record_sibling_at(sibling_id, sibling_ip, now);
    }

    /// Records the siblings another node gossiped about, keeping an existing
    /// record wherever it was seen more recently than the gossiped one.
    pub fn record_siblings(&mut self, new_siblings: SiblingsMap)
        ensures
            final(self).siblings@ == merge_fresh(old(self).siblings@, new_siblings.entries()),
            final(self).siblings@ == fresher_of(old(self).siblings@, new_siblings@),
            final(self).expiry() == old(self).expiry(),
            final(self).schedule() == old(self).schedule(),
    {
        proof {
            use_type_invariant(&new_siblings);
        }
        let ghost incoming = new_siblings.entries();
        let n = new_siblings.len();
        let mut i: usize = 0;
        while i < n
            invariant
                n == incoming.len(),
                incoming == new_siblings.entries(),
                i <= n,
                self.siblings@ == merge_fresh(old(self).siblings@, incoming.take(i as int)),
                self.expiry() == old(self).expiry(),
                self.schedule() == old(self).schedule(),
            decreases n - i,
        {
            proof {
                assert(incoming.take(i as int + 1).drop_last() =~= incoming.take(i as int));
            }
            let id = new_siblings.id_at(i);
            let sibling = new_siblings.sibling_at(i);
            let keep_existing = match self.siblings.get(id.as_str()) {
                Some(existing) => existing.last_seen > sibling.last_seen,
                None => false,
            };
            if !keep_existing {
                self.siblings.insert(id.clone(), sibling.clone());
            }
            i = i + 1;
        }
        proof {
            assert(incoming.take(n as int) =~= incoming);
            merge_keeps_fresher(old(self).siblings@, incoming);
        }
    }

    /// Finishes a discovery round at `now`, given the addresses a lookup found,
    /// or nothing when the round's network check or lookup failed. A failed
    /// round changes nothing; a successful one yields the discovered
    /// addresses that belong to no known sibling (each once) and then forgets
    /// the siblings not heard of within the expiry time.
    pub fn finish_discovery_round_at(&mut self, discovered: Option<&Vec<IpAddress>>, now: i128) -> (unknown:
        Option<Vec<IpAddress>>)
        ensures
            discovered is None ==> unknown is None && final(self).siblings@ == old(self).siblings@,
            discovered matches Some(d) ==> {
                &&& unknown matches Some(u) && {
                    &&& forall|a: int, b: int|
                        0 <= a < b < u@.len() ==> #[trigger] u@[a]@ != #[trigger] u@[b]@
                    &&& forall|ip: Seq<char>|
                        #[trigger] ip_views(u@).contains(ip) <==> ip_views(d@).contains(ip)
                            && !known_ips(old(self).siblings@).contains(ip)
                }
                &&& final(self).siblings@ == recent_part(
                    old(self).siblings@,
                    now as int,
                    old(self).expiry(),
                )
            },
            final(self).expiry() == old(self).expiry(),
            final(self).schedule() == old(self).schedule(),
    {
        match discovered {
            None => None,
            Some(d) => {
                let unknown = self.poll_and_identify_siblings(d);
                self.remove_expired_siblings_at(now);
                Some(unknown)
            },
        }
    }

    /// Finishes a discovery round now (see `finish_discovery_round_at`).
    pub fn finish_discovery_round(&mut self, discovered: Option<&Vec<IpAddress>>) -> (unknown: Option<
        Vec<IpAddress>,
    >)
        ensures
            discovered is None ==> unknown is None && final(self).siblings@ == old(self).siblings@,
            discovered matches Some(d) ==> {
                &&& unknown matches Some(u) && {
                    &&& forall|a: int, b: int|
                        0 <= a < b < u@.len() ==> #[trigger] u@[a]@ != #[trigger] u@[b]@
                    &&& forall|ip: Seq<char>|
                        #[trigger] ip_views(u@).contains(ip) <==> ip_views(d@).contains(ip)
                            && !known_ips(old(self).siblings@).contains(ip)
                }
                &&& exists|now: int|
                    min_clock_nanos() <= now <= max_clock_nanos() && final(self).siblings@
                        == recent_part(old(self).siblings@, now, old(self).expiry())
            },
            final(self).expiry() == old(self).expiry(),
            final(self).schedule() == old(self).schedule(),
    {
        let now = now_nanos();
        self.finish_discovery_round_at(discovered, now)
    }

    /// The gossip requests a node sends after a failed discovery round: one to
    /// each known sibling, in their order.
    pub fn gossip_requests(&self, sender: &TransportSender) -> (out: Vec<OutboundMessage>)
        ensures
            out@.len() == self.siblings.entries().len(),
            forall|i: int|
                0 <= i < out@.len() ==> sender.is_datagram_of(
                    #[trigger] out@[i],
                    outgoing_message(
                        sender.src_node_id(),
                        MessageDirection::Request,
                        MessageKind::Gossip,
                        None,
                    ),
                    self.siblings.entries()[i].1.ip,
                ),
    {
        let mut out: Vec<OutboundMessage> = Vec::new();
        let n = self.siblings.len();
        let mut i: usize = 0;
        while i < n
            invariant
                n == self.siblings.entries().len(),
                i <= n,
                out@.len() == i,
                forall|j: int|
                    0 <= j < i ==> sender.is_datagram_of(
                        #[trigger] out@[j],
                        outgoing_message(
                            sender.src_node_id(),
                            MessageDirection::Request,
                            MessageKind::Gossip,
                            None,
                        ),
                        self.siblings.entries()[j].1.ip,
                    ),
            decreases n - i,
        {
            let request = sender.request_gossip(self.siblings.sibling_at(i).ip.clone());
            out.push(request);
            i = i + 1;
        }
        out
    }

    /// The addresses of the known siblings, in their order.
    pub fn sibling_ips(&self) -> (ips: Vec<IpAddress>)
        ensures
            ip_views(ips@) == self.siblings.entries().map_values(|e: (Seq<char>, SiblingView)| e.1.ip),
    {
        let mut ips: Vec<IpAddress> = Vec::new();
        let n = self.siblings.len();
        let mut i: usize = 0;
        while i < n
            invariant
                n == self.siblings.entries().len(),
                i <= n,
                ip_views(ips@) =~= self.siblings.entries().take(i as int).map_values(
                    |e: (Seq<char>, SiblingView)| e.1.ip,
                ),
            decreases n - i,
        {
            let ghost before = ips@;
            ips.push(self.siblings.sibling_at(i).ip.clone());
            proof {
                assert(ip_views(ips@) =~= ip_views(before).push(self.siblings.entries()[i as int].1.ip));
                assert(self.siblings.entries().take(i as int + 1) =~= self.siblings.entries().take(
                    i as int,
                ).push(self.siblings.entries()[i as int]));
            }
            i = i + 1;
        }
        proof {
            assert(self.siblings.entries().take(n as int) =~= self.siblings.entries());
        }
        ips
    }
}

} // verus!
