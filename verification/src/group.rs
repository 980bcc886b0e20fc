use vstd::prelude::*;
use vstd::assert_seqs_equal;
use vstd::pervasive::VecAdditionalExecFns;
use crate::actions::{lemma_view_actions_push, view_actions, Action, ActionV};
use crate::addr::{spec_is_solicited_node, unspecified_addr, Ip6Addr};
use crate::iface::InterfaceId;

verus! {

// ---------------------------------------------------------------------------
// Shared helpers: sequences as sets.
// ---------------------------------------------------------------------------

/// The sequence with later repetitions of an element dropped: each element
/// keeps its first occurrence only.
pub open spec fn dedup_seq<T>(s: Seq<T>) -> Seq<T>
    decreases s.len(),
{
    if s.len() == 0 {
        Seq::empty()
    } else {
        let d = dedup_seq(s.drop_last());
        if d.contains(s.last()) {
            d
        } else {
            d.push(s.last())
        }
    }
}

/// Whether the list holds the address.
pub fn addr_in(v: &Vec<Ip6Addr>, a: Ip6Addr) -> (r: bool)
    ensures
        r == v@.contains(a),
{
    let mut i: usize = 0;
    while i < v.len()
        invariant
            i <= v@.len(),
            forall|j: int| 0 <= j < i ==> v@[j] != a,
        decreases v@.len() - i,
    {
        if v[i] == a {
            return true;
        }
        i += 1;
    }
    false
}

/// Whether the list holds the interface id.
pub fn iface_in(v: &Vec<InterfaceId>, id: InterfaceId) -> (r: bool)
    ensures
        r == v@.contains(id),
{
    let mut i: usize = 0;
    while i < v.len()
        invariant
            i <= v@.len(),
            forall|j: int| 0 <= j < i ==> v@[j] != id,
        decreases v@.len() - i,
    {
        if v[i] == id {
            return true;
        }
        i += 1;
    }
    false
}

/// The addresses with later repetitions dropped.
pub fn dedup_addrs(v: &Vec<Ip6Addr>) -> (r: Vec<Ip6Addr>)
    ensures
        r@ == dedup_seq(v@),
{
    let mut out: Vec<Ip6Addr> = Vec::new();
    let mut i: usize = 0;
    proof {
        assert(v@.take(0) =~= Seq::<Ip6Addr>::empty());
    }
    while i < v.len()
        invariant
            i <= v@.len(),
            out@ == dedup_seq(v@.take(i as int)),
        decreases v@.len() - i,
    {
        let a = v[i];
        proof {
            assert(v@.take(i + 1).drop_last() =~= v@.take(i as int));
            assert(v@.take(i + 1).last() == a);
        }
        if !addr_in(&out, a) {
            out.push(a);
        }
        i += 1;
    }
    proof {
        assert(v@.take(i as int) =~= v@);
    }
    out
}

/// The interface ids with later repetitions dropped.
pub fn dedup_ifaces(v: &Vec<InterfaceId>) -> (r: Vec<InterfaceId>)
    ensures
        r@ == dedup_seq(v@),
{
    let mut out: Vec<InterfaceId> = Vec::new();
    let mut i: usize = 0;
    proof {
        assert(v@.take(0) =~= Seq::<InterfaceId>::empty());
    }
    while i < v.len()
        invariant
            i <= v@.len(),
            out@ == dedup_seq(v@.take(i as int)),
        decreases v@.len() - i,
    {
        let id = v[i];
        proof {
            assert(v@.take(i + 1).drop_last() =~= v@.take(i as int));
            assert(v@.take(i + 1).last() == id);
        }
        if !iface_in(&out, id) {
            out.push(id);
        }
        i += 1;
    }
    proof {
        assert(v@.take(i as int) =~= v@);
    }
    out
}

// ---------------------------------------------------------------------------
// Solicited-node recognition.
// ---------------------------------------------------------------------------

/// Whether the upper 104 bits of the address equal those of
/// `ff02::1:ff00:0`, the solicited-node multicast prefix.
pub fn is_solicited_node_address(addr: &Ip6Addr) -> (r: bool)
    ensures
        r == spec_is_solicited_node(*addr),
{
    addr.s0 == 0xff02 && addr.s1 == 0 && addr.s2 == 0 && addr.s3 == 0 && addr.s4 == 0
        && addr.s5 == 1 && addr.s6 >= 0xff00
}

// ---------------------------------------------------------------------------
// MLD subscriptions and the kernel forwarding cache.
// ---------------------------------------------------------------------------

/// One tracked MLD membership: when it was recorded, for which group, and
/// the recorded sources, without repetitions.
#[derive(Debug, Clone, PartialEq)]
pub struct MldSubscription {
    pub timestamp: u64,
    pub group_addr: Ip6Addr,
    pub source_addrs: Vec<Ip6Addr>,
}

/// A subscription as recorded for one arrival interface.
#[derive(Debug, Clone, PartialEq)]
pub struct MldSubEntry {
    pub if_index: InterfaceId,
    pub sub: MldSubscription,
}

/// The interfaces, in record order, whose entries subscribe to `group`.
pub open spec fn subscribed_ifs(entries: Seq<MldSubEntry>, group: Ip6Addr) -> Seq<InterfaceId>
    decreases entries.len(),
{
    if entries.len() == 0 {
        Seq::empty()
    } else {
        (if entries[0].sub.group_addr == group {
            seq![entries[0].if_index]
        } else {
            Seq::empty()
        }) + subscribed_ifs(entries.skip(1), group)
    }
}

/// Whether the entry has been silent longer than the timeout at time
/// `now`.
pub open spec fn sub_expired(e: MldSubEntry, now: u64, timeout: u64) -> bool {
    now - e.sub.timestamp > timeout
}

/// The entries that survive an expiry sweep, order kept.
pub open spec fn retained_subs(entries: Seq<MldSubEntry>, now: u64, timeout: u64) -> Seq<
    MldSubEntry,
>
    decreases entries.len(),
{
    if entries.len() == 0 {
        Seq::empty()
    } else {
        (if sub_expired(entries[0], now, timeout) {
            Seq::empty()
        } else {
            seq![entries[0]]
        }) + retained_subs(entries.skip(1), now, timeout)
    }
}

/// The forwarding-cache deletions an expiry sweep issues: for each expired
/// entry, one source-wildcard deletion and one per recorded source.
pub open spec fn removal_actions(
    entries: Seq<MldSubEntry>,
    now: u64,
    timeout: u64,
    parent_vif: u16,
) -> Seq<ActionV>
    decreases entries.len(),
{
    if entries.len() == 0 {
        Seq::empty()
    } else {
        (if sub_expired(entries[0], now, timeout) {
            seq![
                ActionV::DelMroute {
                    parent: parent_vif,
                    group: entries[0].sub.group_addr,
                    source: unspecified_addr(),
                },
            ] + entries[0].sub.source_addrs@.map_values(
                |s: Ip6Addr| ActionV::DelMroute {
                    parent: parent_vif,
                    group: entries[0].sub.group_addr,
                    source: s,
                },
            )
        } else {
            Seq::empty()
        }) + removal_actions(entries.skip(1), now, timeout, parent_vif)
    }
}

/// Tracks per-(interface, group, sources) MLD subscriptions, the virtual
/// interface numbers handed to the kernel, and which interface faces the
/// upstream. Its methods return the kernel-state changes to perform.
#[derive(Debug)]
pub struct MldSubscriptionManager {
    subscriptions: Vec<MldSubEntry>,
    vifs: Vec<(InterfaceId, u16)>,
    last_vifd: u16,
    parent_if_index: InterfaceId,
}

impl MldSubscriptionManager {
    pub closed spec fn subs(self) -> Seq<MldSubEntry> {
        self.subscriptions@
    }

    pub closed spec fn vifs_seq(self) -> Seq<(InterfaceId, u16)> {
        self.vifs@
    }

    pub closed spec fn last_vif(self) -> u16 {
        self.last_vifd
    }

    pub closed spec fn parent_if(self) -> InterfaceId {
        self.parent_if_index
    }

    /// An interface and group pair is tracked at most once, and each
    /// interface has at most one virtual interface number.
    pub open spec fn wf(self) -> bool {
        &&& forall|i: int, j: int|
            0 <= i < j < self.subs().len() ==> !(#[trigger] self.subs()[i].if_index == (
            #[trigger] self.subs()[j]).if_index && self.subs()[i].sub.group_addr
                == self.subs()[j].sub.group_addr)
        &&& forall|i: int, j: int|
            0 <= i < j < self.vifs_seq().len() ==> (#[trigger] self.vifs_seq()[i]).0 != (
            #[trigger] self.vifs_seq()[j]).0
    }

    pub open spec fn has_sub(self, if_index: InterfaceId, group: Ip6Addr) -> bool {
        exists|i: int|
            0 <= i < self.subs().len() && (#[trigger] self.subs()[i]).if_index == if_index
                && self.subs()[i].sub.group_addr == group
    }

    pub open spec fn sub_at(self, if_index: InterfaceId, group: Ip6Addr) -> MldSubEntry {
        self.subs()[choose|i: int|
            0 <= i < self.subs().len() && (#[trigger] self.subs()[i]).if_index == if_index
                && self.subs()[i].sub.group_addr == group]
    }

    pub open spec fn has_vif(self, if_index: InterfaceId) -> bool {
        exists|i: int|
            0 <= i < self.vifs_seq().len() && (#[trigger] self.vifs_seq()[i]).0 == if_index
    }

    pub open spec fn vif_at(self, if_index: InterfaceId) -> u16 {
        self.vifs_seq()[choose|i: int|
            0 <= i < self.vifs_seq().len() && (#[trigger] self.vifs_seq()[i]).0 == if_index].1
    }

    /// The virtual interface numbers of the given interfaces, in order,
    /// skipping interfaces that have none.
    pub open spec fn vifs_of(self, ids: Seq<InterfaceId>) -> Seq<u16>
        decreases ids.len(),
    {
        if ids.len() == 0 {
            Seq::empty()
        } else {
            (if self.has_vif(ids[0]) {
                seq![self.vif_at(ids[0])]
            } else {
                Seq::empty()
            }) + self.vifs_of(ids.skip(1))
        }
    }

    fn find_sub(&self, if_index: InterfaceId, group: Ip6Addr) -> (r: Option<usize>)
        ensures
            match r {
                Some(i) => i < self.subs().len() && self.subs()[i as int].if_index == if_index
                    && self.subs()[i as int].sub.group_addr == group,
                None => !self.has_sub(if_index, group),
            },
    {
        let mut i: usize = 0;
        while i < self.subscriptions.len()
            invariant
                i <= self.subs().len(),
                forall|j: int|
                    0 <= j < i ==> !((#[trigger] self.subs()[j]).if_index == if_index
                        && self.subs()[j].sub.group_addr == group),
            decreases self.subs().len() - i,
        {
            if self.subscriptions[i].if_index == if_index && self.subscriptions[i].sub.group_addr
                == group {
                return Some(i);
            }
            i += 1;
        }
        None
    }

    fn find_vif(&self, if_index: InterfaceId) -> (r: Option<usize>)
        ensures
            match r {
                Some(i) => i < self.vifs_seq().len() && self.vifs_seq()[i as int].0 == if_index,
                None => !self.has_vif(if_index),
            },
    {
        let mut i: usize = 0;
        while i < self.vifs.len()
            invariant
                i <= self.vifs_seq().len(),
                forall|j: int| 0 <= j < i ==> (#[trigger] self.vifs_seq()[j]).0 != if_index,
            decreases self.vifs_seq().len() - i,
        {
            if self.vifs[i].0 == if_index {
                return Some(i);
            }
            i += 1;
        }
        None
    }

    /// The virtual interface number assigned to the interface, if any.
    pub fn get_vifd(&self, if_index: InterfaceId) -> (r: Option<u16>)
        requires
            self.wf(),
        ensures
            r == (if self.has_vif(if_index) {
                Some(self.vif_at(if_index))
            } else {
                Option::<u16>::None
            }),
    {
        match self.find_vif(if_index) {
            Some(i) => {
                proof {
                    lemma_vif_unique(*self, if_index, i as int);
                }
                Some(self.vifs[i].1)
            },
            None => None,
        }
    }

    /// Gives the interface the next virtual interface number, unless it
    /// already has one; the kernel is asked to install the new one.
    pub fn add_if(&mut self, if_index: InterfaceId) -> (r: Vec<Action>)
        requires
            old(self).wf(),
            old(self).last_vif() < 65535,
        ensures
            final(self).wf(),
            final(self).subs() == old(self).subs(),
            final(self).parent_if() == old(self).parent_if(),
            old(self).has_vif(if_index) ==> *final(self) == *old(self) && r@.len() == 0,
            !old(self).has_vif(if_index) ==> ({
                &&& final(self).vifs_seq() == old(self).vifs_seq().push(
                    (if_index, (old(self).last_vif() + 1) as u16),
                )
                &&& final(self).last_vif() == old(self).last_vif() + 1
                &&& view_actions(r@) == seq![
                    ActionV::AddVif { vif: (old(self).last_vif() + 1) as u16, if_index },
                ]
            }),
            forall|id: InterfaceId|
                #[trigger] old(self).has_vif(id) ==> final(self).has_vif(id)
                    && final(self).vif_at(id) == old(self).vif_at(id),
            final(self).has_vif(if_index),
            !old(self).has_vif(if_index) ==> final(self).vif_at(if_index) == old(self).last_vif()
                + 1,
    {
        if self.find_vif(if_index).is_some() {
            proof {
                lemma_vifs_stable(*self, *self);
            }
            return Vec::new();
        }
        proof {
            assert(!self.has_vif(if_index));
        }
        let ghost absent = *self;
        self.last_vifd = self.last_vifd + 1;
        let vif = self.last_vifd;
        let ghost pre = *self;
        self.vifs.push((if_index, vif));
        let mut actions: Vec<Action> = Vec::new();
        actions.push(Action::AddVif { vif, if_index });
        proof {
            assert(self.vifs_seq()[self.vifs_seq().len() - 1].0 == if_index);
            assert forall|a: int, b: int|
                0 <= a < b < self.vifs_seq().len() implies (#[trigger] self.vifs_seq()[a]).0 != (
            #[trigger] self.vifs_seq()[b]).0 by {
                assert(absent == *old(self));
                assert(pre.vifs_seq() == old(self).vifs_seq());
                assert(self.vifs_seq() == old(self).vifs_seq().push((if_index, vif)));
                if b == self.vifs_seq().len() - 1 {
                    assert(self.vifs_seq()[a] == old(self).vifs_seq()[a]);
                    if old(self).vifs_seq()[a].0 == if_index {
                        assert(old(self).has_vif(if_index));
                        assert(false);
                    }
                } else {
                    assert(self.vifs_seq()[a] == old(self).vifs_seq()[a]);
                    assert(self.vifs_seq()[b] == old(self).vifs_seq()[b]);
                    assert(old(self).vifs_seq()[a].0 != old(self).vifs_seq()[b].0);
                }
            }
            assert(self.subs() == old(self).subs());
            assert forall|x: int, y: int|
                0 <= x < y < self.subs().len() implies !((#[trigger] self.subs()[x]).if_index == (
            #[trigger] self.subs()[y]).if_index && self.subs()[x].sub.group_addr
                == self.subs()[y].sub.group_addr) by {
                assert(!((old(self).subs()[x]).if_index == (old(self).subs()[y]).if_index && old(
                    self,
                ).subs()[x].sub.group_addr == old(self).subs()[y].sub.group_addr));
            }
            assert(self.wf());
            lemma_vif_unique(*self, if_index, self.vifs_seq().len() - 1);
            assert forall|id: InterfaceId| #[trigger] old(self).has_vif(id) implies self.has_vif(
                id,
            ) && self.vif_at(id) == old(self).vif_at(id) by {
                let i = choose|i: int|
                    0 <= i < old(self).vifs_seq().len() && (#[trigger] old(self).vifs_seq()[i]).0
                        == id;
                lemma_vif_unique(*old(self), id, i);
                assert(self.vifs_seq()[i].0 == id);
                lemma_vif_unique(*self, id, i);
            }
            assert(view_actions(actions@) =~= seq![
                ActionV::AddVif { vif, if_index },
            ]);
        }
        actions
    }

    /// Withdraws the interface's virtual interface number, if it has one;
    /// the kernel is asked to remove it.
    pub fn remove_if(&mut self, if_index: InterfaceId) -> (r: Vec<Action>)
        requires
            old(self).wf(),
        ensures
            final(self).wf(),
            final(self).subs() == old(self).subs(),
            final(self).parent_if() == old(self).parent_if(),
            final(self).last_vif() == old(self).last_vif(),
            !final(self).has_vif(if_index),
            forall|id: InterfaceId|
                id != if_index ==> (#[trigger] final(self).has_vif(id) == old(self).has_vif(id))
                    && (old(self).has_vif(id) ==> final(self).vif_at(id) == old(self).vif_at(id)),
            old(self).has_vif(if_index) ==> view_actions(r@) == seq![
                ActionV::DelVif { vif: old(self).vif_at(if_index) },
            ],
            !old(self).has_vif(if_index) ==> *final(self) == *old(self) && r@.len() == 0,
    {
        match self.find_vif(if_index) {
            Some(i) => {
                proof {
                    lemma_vif_unique(*self, if_index, i as int);
                }
                let ghost pre = *self;
                let entry = self.vifs.remove(i);
                let mut actions: Vec<Action> = Vec::new();
                actions.push(Action::DelVif { vif: entry.1 });
                proof {
                    assert forall|a: int, b: int|
                        0 <= a < b < self.vifs_seq().len() implies (
                    #[trigger] self.vifs_seq()[a]).0 != (#[trigger] self.vifs_seq()[b]).0 by {
                        let a0: int = if a < i { a } else { a + 1 };
                        let b0: int = if b < i { b } else { b + 1 };
                        assert(self.vifs_seq()[a] == pre.vifs_seq()[a0]);
                        assert(self.vifs_seq()[b] == pre.vifs_seq()[b0]);
                    }
                    assert forall|j: int|
                        0 <= j < self.vifs_seq().len() implies (#[trigger] self.vifs_seq()[j]).0
                        != if_index by {
                        let j0: int = if j < i { j } else { j + 1 };
                        assert(self.vifs_seq()[j] == pre.vifs_seq()[j0]);
                    }
                    assert(self.subs() == pre.subs());
                    assert(self.wf());
                    assert forall|id: InterfaceId|
                        id != if_index && pre.has_vif(id) implies self.has_vif(id) && self.vif_at(
                        id,
                    ) == pre.vif_at(id) by {
                        let j = choose|j: int|
                            0 <= j < pre.vifs_seq().len() && (#[trigger] pre.vifs_seq()[j]).0
                                == id;
                        let j1: int = if j < i { j } else { j - 1 };
                        assert(self.vifs_seq()[j1] == pre.vifs_seq()[j]);
                        lemma_vif_unique(*self, id, j1);
                    }
                    assert forall|id: InterfaceId|
                        id != if_index && self.has_vif(id) implies pre.has_vif(id) by {
                        let j = choose|j: int|
                            0 <= j < self.vifs_seq().len() && (#[trigger] self.vifs_seq()[j]).0
                                == id;
                        let j0: int = if j < i { j } else { j + 1 };
                        assert(pre.vifs_seq()[j0] == self.vifs_seq()[j]);
                    }
                    assert(view_actions(actions@) =~= seq![
                        ActionV::DelVif { vif: pre.vif_at(if_index) },
                    ]);
                }
                actions
            },
            None => Vec::new(),
        }
    }
}

/// Whether any entry subscribes to the group.
pub open spec fn has_group(entries: Seq<MldSubEntry>, g: Ip6Addr) -> bool {
    exists|i: int| 0 <= i < entries.len() && (#[trigger] entries[i]).sub.group_addr == g
}

/// The sources recorded for `group`, across all interfaces, in record
/// order and with repetitions.
pub open spec fn group_sources(entries: Seq<MldSubEntry>, group: Ip6Addr) -> Seq<Ip6Addr>
    decreases entries.len(),
{
    if entries.len() == 0 {
        Seq::empty()
    } else {
        (if entries[0].sub.group_addr == group {
            entries[0].sub.source_addrs@
        } else {
            Seq::empty()
        }) + group_sources(entries.skip(1), group)
    }
}

pub proof fn lemma_group_sources_snoc(s: Seq<MldSubEntry>, e: MldSubEntry, g: Ip6Addr)
    ensures
        group_sources(s.push(e), g) == group_sources(s, g) + (if e.sub.group_addr == g {
            e.sub.source_addrs@
        } else {
            Seq::empty()
        }),
    decreases s.len(),
{
    let tail = if e.sub.group_addr == g {
        e.sub.source_addrs@
    } else {
        Seq::<Ip6Addr>::empty()
    };
    if s.len() == 0 {
        assert(s.push(e)[0] == e);
        assert(s.push(e).skip(1) =~= Seq::<MldSubEntry>::empty());
        assert(group_sources(s.push(e), g) == tail + group_sources(
            s.push(e).skip(1),
            g,
        ));
        assert(group_sources(s.push(e).skip(1), g) == Seq::<Ip6Addr>::empty());
        assert(tail + Seq::<Ip6Addr>::empty() =~= Seq::<Ip6Addr>::empty() + tail);
        assert(group_sources(s, g) == Seq::<Ip6Addr>::empty());
    } else {
        assert(s.push(e).skip(1) =~= s.skip(1).push(e));
        lemma_group_sources_snoc(s.skip(1), e, g);
        assert(s.push(e)[0] == s[0]);
        let head = if s[0].sub.group_addr == g {
            s[0].sub.source_addrs@
        } else {
            Seq::<Ip6Addr>::empty()
        };
        assert(group_sources(s.push(e), g) == head + (group_sources(s.skip(1), g) + tail));
        assert(head + (group_sources(s.skip(1), g) + tail) =~= (head + group_sources(
            s.skip(1),
            g,
        )) + tail);
    }
}

impl MldSubscriptionManager {
    /// Builds the manager for one upstream and its downstreams: the
    /// upstream gets virtual interface 1, the downstreams the following
    /// numbers in order, and the kernel is asked to install each.
    pub fn new(parent_if_index: InterfaceId, downstreams: &Vec<InterfaceId>) -> (r: (
        Self,
        Vec<Action>,
    ))
        requires
            downstreams@.len() < 65535,
        ensures
            r.0.wf(),
            r.0.subs() == Seq::<MldSubEntry>::empty(),
            r.0.parent_if() == parent_if_index,
            r.0.has_vif(parent_if_index) && r.0.vif_at(parent_if_index) == 1,
            forall|i: int| 0 <= i < downstreams@.len() ==> r.0.has_vif(#[trigger] downstreams@[i]),
            view_actions(r.1@) == r.0.vifs_seq().map_values(
                |p: (InterfaceId, u16)| ActionV::AddVif { vif: p.1, if_index: p.0 },
            ),
    {
        let mut m = MldSubscriptionManager {
            subscriptions: Vec::new(),
            vifs: Vec::new(),
            last_vifd: 0,
            parent_if_index,
        };
        let mut actions = m.add_if(parent_if_index);
        proof {
            assert(view_actions(actions@) =~= m.vifs_seq().map_values(
                |p: (InterfaceId, u16)| ActionV::AddVif { vif: p.1, if_index: p.0 },
            ));
        }
        let mut i: usize = 0;
        while i < downstreams.len()
            invariant
                i <= downstreams@.len(),
                downstreams@.len() < 65535,
                m.wf(),
                m.subs() == Seq::<MldSubEntry>::empty(),
                m.parent_if() == parent_if_index,
                m.has_vif(parent_if_index) && m.vif_at(parent_if_index) == 1,
                m.last_vif() <= 1 + i,
                forall|j: int| 0 <= j < i ==> m.has_vif(#[trigger] downstreams@[j]),
                view_actions(actions@) == m.vifs_seq().map_values(
                    |p: (InterfaceId, u16)| ActionV::AddVif { vif: p.1, if_index: p.0 },
                ),
            decreases downstreams@.len() - i,
        {
            let ghost mpre = m;
            let ghost apre = actions@;
            let mut acts = m.add_if(downstreams[i]);
            let ghost av = acts@;
            actions.append(&mut acts);
            proof {
                if mpre.has_vif(downstreams@[i as int]) {
                    assert(actions@ =~= apre);
                    assert(view_actions(actions@) =~= m.vifs_seq().map_values(
                        |p: (InterfaceId, u16)| ActionV::AddVif { vif: p.1, if_index: p.0 },
                    ));
                } else {
                    let d = downstreams@[i as int];
                    let nv = (mpre.last_vif() + 1) as u16;
                    assert(m.vifs_seq() == mpre.vifs_seq().push((d, nv)));
                    assert(view_actions(av) == seq![ActionV::AddVif { vif: nv, if_index: d }]);
                    assert(view_actions(av).len() == av.len());
                    assert(av.len() == 1);
                    assert(view_actions(apre).len() == apre.len());
                    assert(apre.len() == mpre.vifs_seq().len());
                    assert(actions@ == apre + av);
                    assert(m.vifs_seq()[mpre.vifs_seq().len() as int] == (d, nv));
                    assert_seqs_equal!(
                        view_actions(actions@) == m.vifs_seq().map_values(
                            |p: (InterfaceId, u16)| ActionV::AddVif { vif: p.1, if_index: p.0 },
                        ),
                        k => {
                            assert(view_actions(actions@)[k] == actions@[k]@);
                            if k < apre.len() {
                                assert(actions@[k] == apre[k]);
                                assert(view_actions(apre)[k] == apre[k]@);
                                assert(m.vifs_seq()[k] == mpre.vifs_seq()[k]);
                            } else {
                                assert(k == apre.len());
                                assert(actions@[k] == av[0]);
                                assert(view_actions(av)[0] == av[0]@);
                                assert(m.vifs_seq()[k] == (d, nv));
                            }
                        }
                    );
                }
            }
            i += 1;
        }
        (m, actions)
    }

    /// The interfaces currently subscribed to the group, in record order.
    pub fn get_subscribed_interfaces(&self, group_addr: Ip6Addr) -> (r: Vec<InterfaceId>)
        ensures
            r@ == subscribed_ifs(self.subs(), group_addr),
    {
        let mut out: Vec<InterfaceId> = Vec::new();
        let mut i: usize = 0;
        proof {
            assert(self.subs().skip(0) =~= self.subs());
            assert(out@ + subscribed_ifs(self.subs(), group_addr) =~= subscribed_ifs(
                self.subs(),
                group_addr,
            ));
        }
        while i < self.subscriptions.len()
            invariant
                i <= self.subs().len(),
                subscribed_ifs(self.subs(), group_addr) == out@ + subscribed_ifs(
                    self.subs().skip(i as int),
                    group_addr,
                ),
            decreases self.subs().len() - i,
        {
            let ghost rem = self.subs().skip(i as int);
            proof {
                assert(rem[0] == self.subs()[i as int]);
                assert(rem.skip(1) =~= self.subs().skip(i + 1));
            }
            if self.subscriptions[i].sub.group_addr == group_addr {
                out.push(self.subscriptions[i].if_index);
                proof {
                    assert(out@ + subscribed_ifs(self.subs().skip(i + 1), group_addr)
                        =~= out@.drop_last() + (seq![rem[0].if_index] + subscribed_ifs(
                        self.subs().skip(i + 1),
                        group_addr,
                    )));
                }
            } else {
                proof {
                    assert(Seq::<InterfaceId>::empty() + subscribed_ifs(
                        self.subs().skip(i + 1),
                        group_addr,
                    ) =~= subscribed_ifs(self.subs().skip(i + 1), group_addr));
                }
            }
            i += 1;
        }
        proof {
            assert(subscribed_ifs(self.subs().skip(i as int), group_addr)
                == Seq::<InterfaceId>::empty());
            assert(out@ + Seq::<InterfaceId>::empty() =~= out@);
        }
        out
    }

    /// The virtual interface numbers of the given interfaces, in order,
    /// skipping those without one.
    fn collect_vifs(&self, ids: &Vec<InterfaceId>) -> (r: Vec<u16>)
        requires
            self.wf(),
        ensures
            r@ == self.vifs_of(ids@),
    {
        let mut out: Vec<u16> = Vec::new();
        let mut i: usize = 0;
        proof {
            assert(ids@.skip(0) =~= ids@);
            assert(out@ + self.vifs_of(ids@) =~= self.vifs_of(ids@));
        }
        while i < ids.len()
            invariant
                i <= ids@.len(),
                self.wf(),
                self.vifs_of(ids@) == out@ + self.vifs_of(ids@.skip(i as int)),
            decreases ids@.len() - i,
        {
            let ghost rem = ids@.skip(i as int);
            proof {
                assert(rem[0] == ids@[i as int]);
                assert(rem.skip(1) =~= ids@.skip(i + 1));
            }
            match self.get_vifd(ids[i]) {
                Some(v) => {
                    out.push(v);
                    proof {
                        assert(out@ + self.vifs_of(ids@.skip(i + 1)) =~= out@.drop_last() + (
                        seq![v] + self.vifs_of(ids@.skip(i + 1))));
                    }
                },
                None => {
                    proof {
                        assert(Seq::<u16>::empty() + self.vifs_of(ids@.skip(i + 1))
                            =~= self.vifs_of(ids@.skip(i + 1)));
                    }
                },
            }
            i += 1;
        }
        proof {
            assert(self.vifs_of(ids@.skip(i as int)) == Seq::<u16>::empty());
            assert(out@ + Seq::<u16>::empty() =~= out@);
        }
        out
    }

    /// Whether any interface currently subscribes to the group.
    pub fn group_subscribed(&self, group_addr: Ip6Addr) -> (r: bool)
        ensures
            r == has_group(self.subs(), group_addr),
    {
        let mut i: usize = 0;
        while i < self.subscriptions.len()
            invariant
                i <= self.subs().len(),
                forall|j: int|
                    0 <= j < i ==> (#[trigger] self.subs()[j]).sub.group_addr != group_addr,
            decreases self.subs().len() - i,
        {
            if self.subscriptions[i].sub.group_addr == group_addr {
                return true;
            }
            i += 1;
        }
        false
    }

    /// Every group with at least one subscription, first appearance first.
    pub fn get_groups(&self) -> (r: Vec<Ip6Addr>)
        ensures
            r@ == dedup_seq(self.subs().map_values(|e: MldSubEntry| e.sub.group_addr)),
    {
        let mut out: Vec<Ip6Addr> = Vec::new();
        let mut i: usize = 0;
        proof {
            assert(self.subs().take(0).map_values(|e: MldSubEntry| e.sub.group_addr)
                =~= Seq::<Ip6Addr>::empty());
        }
        while i < self.subscriptions.len()
            invariant
                i <= self.subs().len(),
                out@ == dedup_seq(
                    self.subs().take(i as int).map_values(|e: MldSubEntry| e.sub.group_addr),
                ),
            decreases self.subs().len() - i,
        {
            let g = self.subscriptions[i].sub.group_addr;
            proof {
                let mapped = self.subs().take(i + 1).map_values(
                    |e: MldSubEntry| e.sub.group_addr,
                );
                assert(mapped.drop_last() =~= self.subs().take(i as int).map_values(
                    |e: MldSubEntry| e.sub.group_addr,
                ));
                assert(mapped.last() == g);
            }
            if !addr_in(&out, g) {
                out.push(g);
            }
            i += 1;
        }
        proof {
            assert(self.subs().take(i as int) =~= self.subs());
        }
        out
    }

    /// The union of the sources recorded for the group across all
    /// interfaces, without repetitions, first appearance first.
    pub fn get_source_addresses(&self, group_addr: Ip6Addr) -> (r: Vec<Ip6Addr>)
        ensures
            r@ == dedup_seq(group_sources(self.subs(), group_addr)),
    {
        let mut out: Vec<Ip6Addr> = Vec::new();
        let mut i: usize = 0;
        let ghost target = group_sources(self.subs(), group_addr);
        proof {
            assert(self.subs().take(0) =~= Seq::<MldSubEntry>::empty());
        }
        while i < self.subscriptions.len()
            invariant
                i <= self.subs().len(),
                out@ == dedup_seq(group_sources(self.subs().take(i as int), group_addr)),
            decreases self.subs().len() - i,
        {
            let ghost acc = group_sources(self.subs().take(i as int), group_addr);
            proof {
                assert(self.subs().take(i + 1) =~= self.subs().take(i as int).push(
                    self.subs()[i as int],
                ));
                lemma_group_sources_snoc(
                    self.subs().take(i as int),
                    self.subs()[i as int],
                    group_addr,
                );
            }
            if self.subscriptions[i].sub.group_addr == group_addr {
                let srcs = &self.subscriptions[i].sub.source_addrs;
                let mut j: usize = 0;
                proof {
                    assert(acc + srcs@.take(0) =~= acc);
                }
                while j < srcs.len()
                    invariant
                        j <= srcs@.len(),
                        out@ == dedup_seq(acc + srcs@.take(j as int)),
                        srcs@ == self.subs()[i as int].sub.source_addrs@,
                        i < self.subs().len(),
                        acc == group_sources(self.subs().take(i as int), group_addr),
                    decreases srcs@.len() - j,
                {
                    let a = srcs[j];
                    proof {
                        assert((acc + srcs@.take(j + 1)).drop_last() =~= acc + srcs@.take(
                            j as int,
                        ));
                        assert((acc + srcs@.take(j + 1)).last() == a);
                    }
                    if !addr_in(&out, a) {
                        out.push(a);
                    }
                    j += 1;
                }
                proof {
                    assert(acc + srcs@.take(j as int) =~= acc + srcs@);
                    assert(group_sources(self.subs().take(i + 1), group_addr) == acc + srcs@);
                }
            } else {
                proof {
                    assert(group_sources(self.subs().take(i + 1), group_addr) =~= acc);
                }
            }
            i += 1;
        }
        proof {
            assert(self.subs().take(i as int) =~= self.subs());
        }
        out
    }
}

/// The forwarding-cache installations a fresh subscription asks for: one
/// entry per recorded source, or a single source-wildcard entry when no
/// source was named.
pub open spec fn mroute_adds(
    parent: u16,
    outs: Seq<u16>,
    group: Ip6Addr,
    srcs: Seq<Ip6Addr>,
) -> Seq<ActionV> {
    if srcs.len() == 0 {
        seq![
            ActionV::AddMroute { parent, outputs: outs, group, source: unspecified_addr() },
        ]
    } else {
        srcs.map_values(
            |s: Ip6Addr| ActionV::AddMroute { parent, outputs: outs, group, source: s },
        )
    }
}

/// A fresh subscription asks only for forwarding-cache installations.
pub proof fn lemma_mroute_adds_shape(parent: u16, outs: Seq<u16>, g: Ip6Addr, srcs: Seq<Ip6Addr>)
    ensures
        forall|j: int|
            0 <= j < mroute_adds(parent, outs, g, srcs).len() ==> (#[trigger] mroute_adds(
                parent,
                outs,
                g,
                srcs,
            )[j]) is AddMroute,
{
}

/// A first observation asks only for joins.
pub proof fn lemma_join_actions_shape(ids: Seq<InterfaceId>, heard_on: InterfaceId, addr: Ip6Addr)
    ensures
        forall|j: int|
            0 <= j < join_actions(ids, heard_on, addr).len() ==> (#[trigger] join_actions(
                ids,
                heard_on,
                addr,
            )[j]) is JoinMulticast,
    decreases ids.len(),
{
    if ids.len() > 0 {
        lemma_join_actions_shape(ids.skip(1), heard_on, addr);
        let head = if ids[0] == heard_on {
            Seq::<ActionV>::empty()
        } else {
            seq![ActionV::JoinMulticast { group: addr, if_index: ids[0] }]
        };
        assert forall|j: int|
            0 <= j < join_actions(ids, heard_on, addr).len() implies (#[trigger] join_actions(
            ids,
            heard_on,
            addr,
        )[j]) is JoinMulticast by {
            if j >= head.len() {
                assert(join_actions(ids, heard_on, addr)[j] == join_actions(
                    ids.skip(1),
                    heard_on,
                    addr,
                )[j - head.len()]);
            }
        }
    }
}

/// An expiry sweep of the join tracker asks only for leaves.
pub proof fn lemma_leave_actions_shape(addrs: Seq<Ip6Addr>, kept: Seq<NdpSubEntry>)
    ensures
        forall|j: int|
            0 <= j < leave_actions(addrs, kept).len() ==> (#[trigger] leave_actions(
                addrs,
                kept,
            )[j]) is LeaveMulticast,
    decreases addrs.len(),
{
    if addrs.len() > 0 {
        lemma_leave_actions_shape(addrs.skip(1), kept);
        let head = if ndp_has_addr(kept, addrs[0]) {
            Seq::<ActionV>::empty()
        } else {
            seq![
                ActionV::LeaveMulticast {
                    group: addrs[0],
                    if_index: crate::iface::unspecified_id(),
                },
            ]
        };
        assert forall|j: int|
            0 <= j < leave_actions(addrs, kept).len() implies (#[trigger] leave_actions(
            addrs,
            kept,
        )[j]) is LeaveMulticast by {
            if j >= head.len() {
                assert(leave_actions(addrs, kept)[j] == leave_actions(
                    addrs.skip(1),
                    kept,
                )[j - head.len()]);
            }
        }
    }
}

/// An element-wise copy of a virtual-interface list.
fn clone_vifs(v: &Vec<u16>) -> (r: Vec<u16>)
    ensures
        r@ == v@,
{
    let mut out: Vec<u16> = Vec::new();
    let mut i: usize = 0;
    while i < v.len()
        invariant
            i <= v@.len(),
            out@ == v@.take(i as int),
        decreases v@.len() - i,
    {
        out.push(v[i]);
        proof {
            assert(out@ =~= v@.take(i + 1));
        }
        i += 1;
    }
    proof {
        assert(v@.take(i as int) =~= v@);
    }
    out
}

impl MldSubscriptionManager {
    /// Records a subscription and asks the kernel for the matching
    /// forwarding-cache entries, whose output set spans every interface
    /// currently subscribed to the group. A pair of interface and group
    /// that is already tracked is left exactly as it was, with nothing
    /// asked of the kernel: renewals neither reprogram the cache nor
    /// refresh the timestamp.
    pub fn add_subscription(
        &mut self,
        if_index: InterfaceId,
        group_addr: Ip6Addr,
        source_addrs: Vec<Ip6Addr>,
        now: u64,
    ) -> (r: Vec<Action>)
        requires
            old(self).wf(),
            old(self).has_vif(old(self).parent_if()),
        ensures
            final(self).wf(),
            final(self).vifs_seq() == old(self).vifs_seq(),
            final(self).last_vif() == old(self).last_vif(),
            final(self).parent_if() == old(self).parent_if(),
            final(self).has_sub(if_index, group_addr),
            old(self).has_sub(if_index, group_addr) ==> *final(self) == *old(self) && r@.len()
                == 0,
            !old(self).has_sub(if_index, group_addr) ==> ({
                let e = final(self).subs().last();
                &&& final(self).subs() == old(self).subs().push(e)
                &&& e.if_index == if_index
                &&& e.sub.timestamp == now
                &&& e.sub.group_addr == group_addr
                &&& e.sub.source_addrs@ == dedup_seq(source_addrs@)
                &&& view_actions(r@) == mroute_adds(
                    old(self).vif_at(old(self).parent_if()),
                    final(self).vifs_of(subscribed_ifs(final(self).subs(), group_addr)),
                    group_addr,
                    dedup_seq(source_addrs@),
                )
            }),
    {
        if self.find_sub(if_index, group_addr).is_some() {
            return Vec::new();
        }
        proof {
            assert(!self.has_sub(if_index, group_addr));
        }
        let srcs = dedup_addrs(&source_addrs);
        let srcs_copy = crate::iface::clone_addrs(&srcs);
        let entry = MldSubEntry {
            if_index,
            sub: MldSubscription { timestamp: now, group_addr, source_addrs: srcs },
        };
        self.subscriptions.push(entry);
        proof {
            assert(self.subs() == old(self).subs().push(self.subs().last()));
            assert forall|a: int, b: int|
                0 <= a < b < self.subs().len() implies !((#[trigger] self.subs()[a]).if_index == (
            #[trigger] self.subs()[b]).if_index && self.subs()[a].sub.group_addr
                == self.subs()[b].sub.group_addr) by {
                if b == self.subs().len() - 1 {
                    assert(self.subs()[a] == old(self).subs()[a]);
                    if old(self).subs()[a].if_index == if_index && old(
                        self,
                    ).subs()[a].sub.group_addr == group_addr {
                        assert(old(self).has_sub(if_index, group_addr));
                        assert(false);
                    }
                } else {
                    assert(self.subs()[a] == old(self).subs()[a]);
                    assert(self.subs()[b] == old(self).subs()[b]);
                    assert(!((old(self).subs()[a]).if_index == (old(
                        self,
                    ).subs()[b]).if_index && old(self).subs()[a].sub.group_addr == old(
                        self,
                    ).subs()[b].sub.group_addr));
                }
            }
            assert(self.vifs_seq() == old(self).vifs_seq());
            assert(self.wf());
            assert(self.subs()[self.subs().len() - 1].if_index == if_index);
            assert(self.has_sub(if_index, group_addr));
            lemma_vifs_stable(*self, *old(self));
        }
        let parent_vif = match self.get_vifd(self.parent_if_index) {
            Some(v) => v,
            None => {
                proof {
                    assert(false);
                }
                0
            },
        };
        let sub_ifs = self.get_subscribed_interfaces(group_addr);
        let outs = self.collect_vifs(&sub_ifs);
        let ghost outsv = outs@;
        let mut actions: Vec<Action> = Vec::new();
        if srcs_copy.len() == 0 {
            actions.push(
                Action::AddMroute {
                    parent: parent_vif,
                    outputs: outs,
                    group: group_addr,
                    source: Ip6Addr::unspecified(),
                },
            );
            proof {
                assert(view_actions(actions@) =~= mroute_adds(
                    parent_vif,
                    outsv,
                    group_addr,
                    dedup_seq(source_addrs@),
                ));
            }
        } else {
            let ghost f = |s: Ip6Addr| ActionV::AddMroute {
                parent: parent_vif,
                outputs: outsv,
                group: group_addr,
                source: s,
            };
            let mut k: usize = 0;
            proof {
                assert(view_actions(actions@) =~= srcs_copy@.take(0).map_values(f));
            }
            while k < srcs_copy.len()
                invariant
                    k <= srcs_copy@.len(),
                    outs@ == outsv,
                    view_actions(actions@) == srcs_copy@.take(k as int).map_values(f),
                    f == (|s: Ip6Addr| ActionV::AddMroute {
                        parent: parent_vif,
                        outputs: outsv,
                        group: group_addr,
                        source: s,
                    }),
                decreases srcs_copy@.len() - k,
            {
                let o2 = clone_vifs(&outs);
                let ghost o2v = o2@;
                let ghost vpre = actions@;
                let add_action = Action::AddMroute {
                    parent: parent_vif,
                    outputs: o2,
                    group: group_addr,
                    source: srcs_copy[k],
                };
                let ghost aa = add_action;
                actions.push(add_action);
                proof {
                    assert(actions@ == vpre.push(aa));
                    lemma_view_actions_push(vpre, aa);
                    assert(o2v == outsv);
                    assert(aa@ == f(srcs_copy@[k as int]));
                    assert(srcs_copy@.take(k + 1) =~= srcs_copy@.take(k as int).push(
                        srcs_copy@[k as int],
                    ));
                    assert(srcs_copy@.take(k + 1).map_values(f) =~= srcs_copy@.take(
                        k as int,
                    ).map_values(f).push(f(srcs_copy@[k as int])));
                }
                k += 1;
            }
            proof {
                assert(srcs_copy@.take(k as int) =~= srcs_copy@);
                assert(view_actions(actions@) == mroute_adds(
                    parent_vif,
                    outsv,
                    group_addr,
                    dedup_seq(source_addrs@),
                ));
            }
        }
        actions
    }

    /// Drops every subscription that has been silent longer than the
    /// timeout, and asks the kernel to delete the matching
    /// forwarding-cache entries: for each expired subscription a
    /// source-wildcard deletion, then one per recorded source.
    pub fn remove_old_subscriptions(&mut self, timeout: u64, now: u64) -> (r: Vec<Action>)
        requires
            old(self).wf(),
            old(self).has_vif(old(self).parent_if()),
        ensures
            final(self).wf(),
            final(self).subs() == retained_subs(old(self).subs(), now, timeout),
            final(self).vifs_seq() == old(self).vifs_seq(),
            final(self).last_vif() == old(self).last_vif(),
            final(self).parent_if() == old(self).parent_if(),
            view_actions(r@) == removal_actions(
                old(self).subs(),
                now,
                timeout,
                old(self).vif_at(old(self).parent_if()),
            ),
    {
        let parent_vif = match self.get_vifd(self.parent_if_index) {
            Some(v) => v,
            None => {
                proof {
                    assert(false);
                }
                0
            },
        };
        let ghost olds = self.subs();
        let ghost pv = parent_vif;
        // First pass: collect the deletions, reading only.
        let mut actions: Vec<Action> = Vec::new();
        let mut i: usize = 0;
        proof {
            assert(olds.skip(0) =~= olds);
            assert(view_actions(actions@) + removal_actions(olds, now, timeout, pv)
                =~= removal_actions(olds, now, timeout, pv));
        }
        while i < self.subscriptions.len()
            invariant
                i <= olds.len(),
                olds == self.subs(),
                pv == parent_vif,
                removal_actions(olds, now, timeout, pv) == view_actions(actions@)
                    + removal_actions(olds.skip(i as int), now, timeout, pv),
            decreases olds.len() - i,
        {
            let ghost rem = olds.skip(i as int);
            proof {
                assert(rem[0] == olds[i as int]);
                assert(rem.skip(1) =~= olds.skip(i + 1));
            }
            let ts = self.subscriptions[i].sub.timestamp;
            let is_expired = ts < now && now - ts > timeout;
            proof {
                assert(is_expired == sub_expired(olds[i as int], now, timeout));
            }
            if is_expired {
                let g = self.subscriptions[i].sub.group_addr;
                let ghost apre = view_actions(actions@);
                let ghost vpre0 = actions@;
                let wild_action = Action::DelMroute {
                    parent: parent_vif,
                    group: g,
                    source: Ip6Addr::unspecified(),
                };
                let ghost wa = wild_action;
                actions.push(wild_action);
                let ghost f = |s: Ip6Addr| ActionV::DelMroute {
                    parent: pv,
                    group: g,
                    source: s,
                };
                let ghost srcsv = olds[i as int].sub.source_addrs@;
                let mut j: usize = 0;
                proof {
                    assert(actions@ == vpre0.push(wa));
                    lemma_view_actions_push(vpre0, wa);
                    assert(wa@ == (ActionV::DelMroute {
                        parent: pv,
                        group: g,
                        source: unspecified_addr(),
                    }));
                    assert(view_actions(actions@) =~= apre + seq![
                        ActionV::DelMroute { parent: pv, group: g, source: unspecified_addr() },
                    ] + srcsv.take(0).map_values(f));
                }
                while j < self.subscriptions[i].sub.source_addrs.len()
                    invariant
                        i < olds.len(),
                        olds == self.subs(),
                        j <= srcsv.len(),
                        srcsv == olds[i as int].sub.source_addrs@,
                        g == olds[i as int].sub.group_addr,
                        pv == parent_vif,
                        view_actions(actions@) == apre + seq![
                            ActionV::DelMroute {
                                parent: pv,
                                group: g,
                                source: unspecified_addr(),
                            },
                        ] + srcsv.take(j as int).map_values(f),
                        f == (|s: Ip6Addr| ActionV::DelMroute { parent: pv, group: g, source: s }),
                    decreases srcsv.len() - j,
                {
                    let src = self.subscriptions[i].sub.source_addrs[j];
                    let ghost vpre = actions@;
                    let src_action = Action::DelMroute { parent: parent_vif, group: g, source: src };
                    let ghost sa = src_action;
                    actions.push(src_action);
                    proof {
                        assert(actions@ == vpre.push(sa));
                        lemma_view_actions_push(vpre, sa);
                        assert(sa@ == f(srcsv[j as int]));
                        assert(srcsv.take(j + 1) =~= srcsv.take(j as int).push(srcsv[j as int]));
                        assert(srcsv.take(j + 1).map_values(f) =~= srcsv.take(
                            j as int,
                        ).map_values(f).push(f(srcsv[j as int])));
                        assert(view_actions(actions@) =~= apre + seq![
                            ActionV::DelMroute {
                                parent: pv,
                                group: g,
                                source: unspecified_addr(),
                            },
                        ] + srcsv.take(j + 1).map_values(f));
                    }
                    j += 1;
                }
                proof {
                    assert(srcsv.take(j as int) =~= srcsv);
                    assert(removal_actions(rem, now, timeout, pv) == (seq![
                        ActionV::DelMroute { parent: pv, group: g, source: unspecified_addr() },
                    ] + srcsv.map_values(f)) + removal_actions(olds.skip(i + 1), now, timeout, pv));
                    assert(view_actions(actions@) + removal_actions(olds.skip(i + 1), now, timeout, pv)
                        =~= (apre + seq![
                        ActionV::DelMroute { parent: pv, group: g, source: unspecified_addr() },
                    ] + srcsv.map_values(f)) + removal_actions(olds.skip(i + 1), now, timeout, pv));
                    assert((apre + seq![
                        ActionV::DelMroute { parent: pv, group: g, source: unspecified_addr() },
                    ] + srcsv.map_values(f)) + removal_actions(olds.skip(i + 1), now, timeout, pv)
                        =~= apre + ((seq![
                        ActionV::DelMroute { parent: pv, group: g, source: unspecified_addr() },
                    ] + srcsv.map_values(f)) + removal_actions(olds.skip(i + 1), now, timeout, pv)));
                }
            } else {
                proof {
                    assert(Seq::<ActionV>::empty() + removal_actions(
                        olds.skip(i + 1),
                        now,
                        timeout,
                        pv,
                    ) =~= removal_actions(olds.skip(i + 1), now, timeout, pv));
                }
            }
            i += 1;
        }
        proof {
            assert(removal_actions(olds.skip(i as int), now, timeout, pv) == Seq::<
                ActionV,
            >::empty());
            assert(view_actions(actions@) + Seq::<ActionV>::empty() =~= view_actions(actions@));
        }
        // Second pass: drop the expired entries, back to front so that
        // earlier indexes stay valid.
        let mut k: usize = self.subscriptions.len();
        proof {
            assert(olds.take(k as int) =~= olds);
            assert(olds.take(k as int) + retained_subs(olds.skip(k as int), now, timeout)
                =~= olds);
        }
        while k > 0
            invariant
                k <= olds.len(),
                self.subs() == olds.take(k as int) + retained_subs(
                    olds.skip(k as int),
                    now,
                    timeout,
                ),
                self.vifs_seq() == old(self).vifs_seq(),
                self.last_vif() == old(self).last_vif(),
                self.parent_if() == old(self).parent_if(),
            decreases k,
        {
            k -= 1;
            let ts = self.subscriptions[k].sub.timestamp;
            let is_expired = ts < now && now - ts > timeout;
            proof {
                assert(self.subs()[k as int] == olds.take(k + 1)[k as int]);
                assert(olds.take(k + 1)[k as int] == olds[k as int]);
                assert(is_expired == sub_expired(olds[k as int], now, timeout));
                assert(olds.skip(k as int)[0] == olds[k as int]);
                assert(olds.skip(k as int).skip(1) =~= olds.skip(k + 1));
            }
            if is_expired {
                self.subscriptions.remove(k);
                proof {
                    assert(self.subs() =~= olds.take(k as int) + retained_subs(
                        olds.skip(k as int),
                        now,
                        timeout,
                    ));
                }
            } else {
                proof {
                    assert(olds.take(k + 1) =~= olds.take(k as int).push(olds[k as int]));
                    assert(self.subs() =~= olds.take(k as int) + (seq![olds[k as int]]
                        + retained_subs(olds.skip(k + 1), now, timeout)));
                    assert(olds.take(k as int) + (seq![olds[k as int]] + retained_subs(
                        olds.skip(k + 1),
                        now,
                        timeout,
                    )) =~= olds.take(k as int) + retained_subs(olds.skip(k as int), now, timeout));
                }
            }
        }
        proof {
            assert(olds.take(0) + retained_subs(olds, now, timeout) =~= retained_subs(
                olds,
                now,
                timeout,
            ));
            lemma_retained_keys(olds, now, timeout);
            assert(self.subs() == retained_subs(olds, now, timeout));
            assert forall|a: int, b: int|
                0 <= a < b < self.vifs_seq().len() implies (#[trigger] self.vifs_seq()[a]).0 != (
            #[trigger] self.vifs_seq()[b]).0 by {
                assert(self.vifs_seq()[a] == old(self).vifs_seq()[a]);
                assert(self.vifs_seq()[b] == old(self).vifs_seq()[b]);
                assert((old(self).vifs_seq()[a]).0 != (old(self).vifs_seq()[b]).0);
            }
            assert(self.wf());
        }
        actions
    }
}

/// Every survivor of an expiry sweep is one of the original entries.
proof fn lemma_retained_contains(entries: Seq<MldSubEntry>, now: u64, timeout: u64, x: MldSubEntry)
    requires
        retained_subs(entries, now, timeout).contains(x),
    ensures
        entries.contains(x),
    decreases entries.len(),
{
    if entries.len() > 0 {
        let r = retained_subs(entries, now, timeout);
        let tail = retained_subs(entries.skip(1), now, timeout);
        if sub_expired(entries[0], now, timeout) {
            assert(r == Seq::<MldSubEntry>::empty() + tail);
            assert(r =~= tail);
            lemma_retained_contains(entries.skip(1), now, timeout, x);
            let i = choose|i: int| 0 <= i < entries.skip(1).len() && entries.skip(1)[i] == x;
            assert(entries[i + 1] == x);
        } else {
            let i = choose|i: int| 0 <= i < r.len() && r[i] == x;
            if i == 0 {
                assert(entries[0] == x);
            } else {
                assert(tail[i - 1] == x);
                lemma_retained_contains(entries.skip(1), now, timeout, x);
                let j = choose|j: int| 0 <= j < entries.skip(1).len() && entries.skip(1)[j] == x;
                assert(entries[j + 1] == x);
            }
        }
    }
}

/// An expiry sweep keeps the one-entry-per-pair shape.
proof fn lemma_retained_keys(entries: Seq<MldSubEntry>, now: u64, timeout: u64)
    requires
        forall|i: int, j: int|
            0 <= i < j < entries.len() ==> !((#[trigger] entries[i]).if_index == (
            #[trigger] entries[j]).if_index && entries[i].sub.group_addr
                == entries[j].sub.group_addr),
    ensures
        ({
            let r = retained_subs(entries, now, timeout);
            forall|i: int, j: int|
                0 <= i < j < r.len() ==> !((#[trigger] r[i]).if_index == (
                #[trigger] r[j]).if_index && r[i].sub.group_addr == r[j].sub.group_addr)
        }),
    decreases entries.len(),
{
    if entries.len() > 0 {
        assert forall|i: int, j: int|
            0 <= i < j < entries.skip(1).len() implies !((#[trigger] entries.skip(
            1,
        )[i]).if_index == (#[trigger] entries.skip(1)[j]).if_index && entries.skip(
            1,
        )[i].sub.group_addr == entries.skip(1)[j].sub.group_addr) by {
            assert(entries.skip(1)[i] == entries[i + 1]);
            assert(entries.skip(1)[j] == entries[j + 1]);
        }
        lemma_retained_keys(entries.skip(1), now, timeout);
        let r = retained_subs(entries, now, timeout);
        let tail = retained_subs(entries.skip(1), now, timeout);
        if sub_expired(entries[0], now, timeout) {
            assert(r =~= tail);
        } else {
            assert(r =~= seq![entries[0]] + tail);
            assert forall|i: int, j: int|
                0 <= i < j < r.len() implies !((#[trigger] r[i]).if_index == (
            #[trigger] r[j]).if_index && r[i].sub.group_addr == r[j].sub.group_addr) by {
                if i == 0 {
                    assert(r[j] == tail[j - 1]);
                    assert(tail.contains(tail[j - 1]));
                    lemma_retained_contains(entries.skip(1), now, timeout, tail[j - 1]);
                    let m = choose|m: int|
                        0 <= m < entries.skip(1).len() && entries.skip(1)[m] == tail[j - 1];
                    assert(entries[m + 1] == tail[j - 1]);
                    assert(!((entries[0]).if_index == (entries[m + 1]).if_index
                        && entries[0].sub.group_addr == entries[m + 1].sub.group_addr));
                } else {
                    assert(r[i] == tail[i - 1]);
                    assert(r[j] == tail[j - 1]);
                }
            }
        }
    }
}

/// After an expiry sweep at time `now`, a subscription expired under the
/// timeout is gone, and a matching source-wildcard forwarding-cache
/// deletion was asked for.
pub proof fn lemma_expiry_removes_and_deletes(
    entries: Seq<MldSubEntry>,
    now: u64,
    timeout: u64,
    parent_vif: u16,
    i: int,
)
    requires
        0 <= i < entries.len(),
        sub_expired(entries[i], now, timeout),
        forall|a: int, b: int|
            0 <= a < b < entries.len() ==> !((#[trigger] entries[a]).if_index == (
            #[trigger] entries[b]).if_index && entries[a].sub.group_addr
                == entries[b].sub.group_addr),
    ensures
        ({
            let r = retained_subs(entries, now, timeout);
            forall|k: int|
                0 <= k < r.len() ==> !((#[trigger] r[k]).if_index == entries[i].if_index
                    && r[k].sub.group_addr == entries[i].sub.group_addr)
        }),
        removal_actions(entries, now, timeout, parent_vif).contains(
            ActionV::DelMroute {
                parent: parent_vif,
                group: entries[i].sub.group_addr,
                source: unspecified_addr(),
            },
        ),
    decreases entries.len(),
{
    let r = retained_subs(entries, now, timeout);
    let tail = retained_subs(entries.skip(1), now, timeout);
    let acts = removal_actions(entries, now, timeout, parent_vif);
    let tail_acts = removal_actions(entries.skip(1), now, timeout, parent_vif);
    assert forall|a: int, b: int|
        0 <= a < b < entries.skip(1).len() implies !((#[trigger] entries.skip(1)[a]).if_index == (
    #[trigger] entries.skip(1)[b]).if_index && entries.skip(1)[a].sub.group_addr == entries.skip(
        1,
    )[b].sub.group_addr) by {
        assert(entries.skip(1)[a] == entries[a + 1]);
        assert(entries.skip(1)[b] == entries[b + 1]);
    }
    if i == 0 {
        let wild = ActionV::DelMroute {
            parent: parent_vif,
            group: entries[0].sub.group_addr,
            source: unspecified_addr(),
        };
        assert(acts[0] == wild);
        assert(acts.contains(wild));
        assert(r =~= tail);
        assert forall|k: int|
            0 <= k < r.len() implies !((#[trigger] r[k]).if_index == entries[0].if_index
                && r[k].sub.group_addr == entries[0].sub.group_addr) by {
            assert(tail.contains(tail[k]));
            lemma_retained_contains(entries.skip(1), now, timeout, tail[k]);
            let m = choose|m: int| 0 <= m < entries.skip(1).len() && entries.skip(1)[m] == tail[k];
            assert(entries[m + 1] == tail[k]);
        }
    } else {
        assert(entries.skip(1)[i - 1] == entries[i]);
        lemma_expiry_removes_and_deletes(entries.skip(1), now, timeout, parent_vif, i - 1);
        let wild = ActionV::DelMroute {
            parent: parent_vif,
            group: entries[i].sub.group_addr,
            source: unspecified_addr(),
        };
        let head = if sub_expired(entries[0], now, timeout) {
            seq![
                ActionV::DelMroute {
                    parent: parent_vif,
                    group: entries[0].sub.group_addr,
                    source: unspecified_addr(),
                },
            ] + entries[0].sub.source_addrs@.map_values(
                |s: Ip6Addr| ActionV::DelMroute {
                    parent: parent_vif,
                    group: entries[0].sub.group_addr,
                    source: s,
                },
            )
        } else {
            Seq::<ActionV>::empty()
        };
        assert(acts == head + tail_acts);
        let m = choose|m: int| 0 <= m < tail_acts.len() && tail_acts[m] == wild;
        assert(acts[head.len() + m] == wild);
        assert(acts.contains(wild));
        assert forall|k: int|
            0 <= k < r.len() implies !((#[trigger] r[k]).if_index == entries[i].if_index
                && r[k].sub.group_addr == entries[i].sub.group_addr) by {
            if sub_expired(entries[0], now, timeout) {
                assert(r =~= tail);
                assert(tail[k] == r[k]);
            } else {
                assert(r =~= seq![entries[0]] + tail);
                if k == 0 {
                    assert(r[0] == entries[0]);
                    assert(!((entries[0]).if_index == (entries[i]).if_index
                        && entries[0].sub.group_addr == entries[i].sub.group_addr));
                } else {
                    assert(r[k] == tail[k - 1]);
                }
            }
        }
    }
}

// ---------------------------------------------------------------------------
// Solicited-node joins on mirror interfaces.
// ---------------------------------------------------------------------------

/// One observed solicited-node listener: the group, the interface it was
/// reported on, and when it was last reported.
#[derive(Debug, Clone, Copy, PartialEq, Eq, Structural)]
pub struct NdpSubEntry {
    pub solicited_node_addr: Ip6Addr,
    pub if_index: InterfaceId,
    pub timestamp: u64,
}

pub open spec fn ndp_expired(e: NdpSubEntry, now: u64, timeout: u64) -> bool {
    now - e.timestamp > timeout
}

/// The observations that survive an expiry sweep, order kept.
pub open spec fn ndp_retained(entries: Seq<NdpSubEntry>, now: u64, timeout: u64) -> Seq<
    NdpSubEntry,
>
    decreases entries.len(),
{
    if entries.len() == 0 {
        Seq::empty()
    } else {
        (if ndp_expired(entries[0], now, timeout) {
            Seq::empty()
        } else {
            seq![entries[0]]
        }) + ndp_retained(entries.skip(1), now, timeout)
    }
}

/// Whether some observation names the address.
pub open spec fn ndp_has_addr(entries: Seq<NdpSubEntry>, a: Ip6Addr) -> bool {
    exists|i: int|
        0 <= i < entries.len() && (#[trigger] entries[i]).solicited_node_addr == a
}

/// A join of the group on every configured interface but the one it was
/// heard on, in configuration order.
pub open spec fn join_actions(ids: Seq<InterfaceId>, heard_on: InterfaceId, addr: Ip6Addr) -> Seq<
    ActionV,
>
    decreases ids.len(),
{
    if ids.len() == 0 {
        Seq::empty()
    } else {
        (if ids[0] == heard_on {
            Seq::empty()
        } else {
            seq![ActionV::JoinMulticast { group: addr, if_index: ids[0] }]
        }) + join_actions(ids.skip(1), heard_on, addr)
    }
}

/// A leave, on the unspecified interface, for each listed address that no
/// surviving observation names.
pub open spec fn leave_actions(addrs: Seq<Ip6Addr>, kept: Seq<NdpSubEntry>) -> Seq<ActionV>
    decreases addrs.len(),
{
    if addrs.len() == 0 {
        Seq::empty()
    } else {
        (if ndp_has_addr(kept, addrs[0]) {
            Seq::empty()
        } else {
            seq![
                ActionV::LeaveMulticast {
                    group: addrs[0],
                    if_index: crate::iface::unspecified_id(),
                },
            ]
        }) + leave_actions(addrs.skip(1), kept)
    }
}

/// Tracks which solicited-node groups were reported on which interface,
/// and keeps the kernel joined to each such group on every other
/// configured interface, so that neighbour solicitations for hosts behind
/// one port arrive from every side.
#[derive(Debug)]
pub struct NdpMulticastManager {
    subscriptions: Vec<NdpSubEntry>,
    interface_ids: Vec<InterfaceId>,
}

impl NdpMulticastManager {
    pub closed spec fn subs(self) -> Seq<NdpSubEntry> {
        self.subscriptions@
    }

    pub closed spec fn ids(self) -> Seq<InterfaceId> {
        self.interface_ids@
    }

    /// An address and interface pair is tracked at most once.
    pub open spec fn wf(self) -> bool {
        forall|i: int, j: int|
            0 <= i < j < self.subs().len() ==> !((#[trigger] self.subs()[i]).solicited_node_addr
                == (#[trigger] self.subs()[j]).solicited_node_addr && self.subs()[i].if_index
                == self.subs()[j].if_index)
    }

    pub open spec fn has_pair(self, addr: Ip6Addr, if_index: InterfaceId) -> bool {
        exists|i: int|
            0 <= i < self.subs().len() && (#[trigger] self.subs()[i]).solicited_node_addr == addr
                && self.subs()[i].if_index == if_index
    }

    /// Builds the manager over the configured interfaces, repetitions
    /// dropped.
    pub fn new(interface_ids: &Vec<InterfaceId>) -> (r: Self)
        ensures
            r.wf(),
            r.subs() == Seq::<NdpSubEntry>::empty(),
            r.ids() == dedup_seq(interface_ids@),
    {
        NdpMulticastManager {
            subscriptions: Vec::new(),
            interface_ids: dedup_ifaces(interface_ids),
        }
    }

    fn find_pair(&self, addr: Ip6Addr, if_index: InterfaceId) -> (r: Option<usize>)
        ensures
            match r {
                Some(i) => i < self.subs().len() && self.subs()[i as int].solicited_node_addr
                    == addr && self.subs()[i as int].if_index == if_index,
                None => !self.has_pair(addr, if_index),
            },
    {
        let mut i: usize = 0;
        while i < self.subscriptions.len()
            invariant
                i <= self.subs().len(),
                forall|j: int|
                    0 <= j < i ==> !((#[trigger] self.subs()[j]).solicited_node_addr == addr
                        && self.subs()[j].if_index == if_index),
            decreases self.subs().len() - i,
        {
            if self.subscriptions[i].solicited_node_addr == addr && self.subscriptions[i].if_index
                == if_index {
                return Some(i);
            }
            i += 1;
        }
        None
    }

    /// Records that the solicited-node group was heard on the interface.
    /// A first observation of the pair asks the kernel to join the group
    /// on every other configured interface; a repeat only refreshes the
    /// pair's timestamp.
    pub fn add_subscription(
        &mut self,
        solicited_node_addr: Ip6Addr,
        if_index: InterfaceId,
        now: u64,
    ) -> (r: Vec<Action>)
        requires
            old(self).wf(),
        ensures
            final(self).wf(),
            final(self).ids() == old(self).ids(),
            final(self).has_pair(solicited_node_addr, if_index),
            old(self).has_pair(solicited_node_addr, if_index) ==> ({
                &&& r@.len() == 0
                &&& final(self).subs().len() == old(self).subs().len()
                &&& forall|j: int|
                    0 <= j < old(self).subs().len() ==> #[trigger] final(self).subs()[j] == (
                    if old(self).subs()[j].solicited_node_addr == solicited_node_addr && old(
                        self,
                    ).subs()[j].if_index == if_index {
                        NdpSubEntry { solicited_node_addr, if_index, timestamp: now }
                    } else {
                        old(self).subs()[j]
                    })
            }),
            !old(self).has_pair(solicited_node_addr, if_index) ==> ({
                &&& final(self).subs() == old(self).subs().push(
                    NdpSubEntry { solicited_node_addr, if_index, timestamp: now },
                )
                &&& view_actions(r@) == join_actions(
                    old(self).ids(),
                    if_index,
                    solicited_node_addr,
                )
            }),
    {
        match self.find_pair(solicited_node_addr, if_index) {
            Some(i) => {
                self.subscriptions.set(
                    i,
                    NdpSubEntry { solicited_node_addr, if_index, timestamp: now },
                );
                proof {
                    assert(self.subs()[i as int].solicited_node_addr == solicited_node_addr);
                    assert forall|a: int, b: int|
                        0 <= a < b < self.subs().len() implies !((
                    #[trigger] self.subs()[a]).solicited_node_addr == (
                    #[trigger] self.subs()[b]).solicited_node_addr && self.subs()[a].if_index
                        == self.subs()[b].if_index) by {
                        if a != i && b != i {
                            assert(self.subs()[a] == old(self).subs()[a]);
                            assert(self.subs()[b] == old(self).subs()[b]);
                        } else if a == i {
                            assert(self.subs()[b] == old(self).subs()[b]);
                            assert(old(self).subs()[i as int].solicited_node_addr
                                == solicited_node_addr && old(self).subs()[i as int].if_index
                                == if_index);
                        } else {
                            assert(self.subs()[a] == old(self).subs()[a]);
                            assert(old(self).subs()[i as int].solicited_node_addr
                                == solicited_node_addr && old(self).subs()[i as int].if_index
                                == if_index);
                        }
                    }
                    assert forall|j: int|
                        0 <= j < old(self).subs().len() implies #[trigger] self.subs()[j] == (
                    if old(self).subs()[j].solicited_node_addr == solicited_node_addr && old(
                        self,
                    ).subs()[j].if_index == if_index {
                        NdpSubEntry { solicited_node_addr, if_index, timestamp: now }
                    } else {
                        old(self).subs()[j]
                    }) by {
                        if j != i {
                            assert(self.subs()[j] == old(self).subs()[j]);
                        }
                    }
                }
                Vec::new()
            },
            None => {
                self.subscriptions.push(
                    NdpSubEntry { solicited_node_addr, if_index, timestamp: now },
                );
                proof {
                    assert forall|a: int, b: int|
                        0 <= a < b < self.subs().len() implies !((
                    #[trigger] self.subs()[a]).solicited_node_addr == (
                    #[trigger] self.subs()[b]).solicited_node_addr && self.subs()[a].if_index
                        == self.subs()[b].if_index) by {
                        if b == self.subs().len() - 1 {
                            assert(self.subs()[a] == old(self).subs()[a]);
                            if old(self).subs()[a].solicited_node_addr == solicited_node_addr
                                && old(self).subs()[a].if_index == if_index {
                                assert(old(self).has_pair(solicited_node_addr, if_index));
                                assert(false);
                            }
                        } else {
                            assert(self.subs()[a] == old(self).subs()[a]);
                            assert(self.subs()[b] == old(self).subs()[b]);
                        }
                    }
                    assert(self.subs()[self.subs().len() - 1].solicited_node_addr
                        == solicited_node_addr);
                }
                let mut actions: Vec<Action> = Vec::new();
                let mut k: usize = 0;
                let ghost idsv = self.ids();
                proof {
                    assert(idsv.skip(0) =~= idsv);
                    assert(view_actions(actions@) + join_actions(
                        idsv,
                        if_index,
                        solicited_node_addr,
                    ) =~= join_actions(idsv, if_index, solicited_node_addr));
                }
                while k < self.interface_ids.len()
                    invariant
                        k <= idsv.len(),
                        idsv == self.ids(),
                        join_actions(idsv, if_index, solicited_node_addr) == view_actions(
                            actions@,
                        ) + join_actions(idsv.skip(k as int), if_index, solicited_node_addr),
                    decreases idsv.len() - k,
                {
                    let ghost rem = idsv.skip(k as int);
                    proof {
                        assert(rem[0] == idsv[k as int]);
                        assert(rem.skip(1) =~= idsv.skip(k + 1));
                    }
                    let id = self.interface_ids[k];
                    if !(id == if_index) {
                        let ghost vpre = actions@;
                        let join_action = Action::JoinMulticast {
                            group: solicited_node_addr,
                            if_index: id,
                        };
                        let ghost ja = join_action;
                        actions.push(join_action);
                        proof {
                            lemma_view_actions_push(vpre, ja);
                            assert(view_actions(actions@) =~= vpre.map_values(|a: Action| a@)
                                + seq![
                                ActionV::JoinMulticast { group: solicited_node_addr, if_index: id },
                            ]);
                            assert(view_actions(actions@) + join_actions(
                                idsv.skip(k + 1),
                                if_index,
                                solicited_node_addr,
                            ) =~= (view_actions(vpre) + (seq![
                                ActionV::JoinMulticast { group: solicited_node_addr, if_index: id },
                            ] + join_actions(idsv.skip(k + 1), if_index, solicited_node_addr))));
                        }
                    } else {
                        proof {
                            assert(Seq::<ActionV>::empty() + join_actions(
                                idsv.skip(k + 1),
                                if_index,
                                solicited_node_addr,
                            ) =~= join_actions(idsv.skip(k + 1), if_index, solicited_node_addr));
                        }
                    }
                    k += 1;
                }
                proof {
                    assert(join_actions(idsv.skip(k as int), if_index, solicited_node_addr)
                        == Seq::<ActionV>::empty());
                    assert(view_actions(actions@) + Seq::<ActionV>::empty() =~= view_actions(
                        actions@,
                    ));
                }
                actions
            },
        }
    }

    /// Drops every observation older than the timeout and, for each
    /// solicited-node group left with no observing interface at all, asks
    /// the kernel to leave the group.
    pub fn remove_old_subscriptions(&mut self, timeout: u64, now: u64) -> (r: Vec<Action>)
        requires
            old(self).wf(),
        ensures
            final(self).wf(),
            final(self).ids() == old(self).ids(),
            final(self).subs() == ndp_retained(old(self).subs(), now, timeout),
            view_actions(r@) == leave_actions(
                dedup_seq(old(self).subs().map_values(|e: NdpSubEntry| e.solicited_node_addr)),
                ndp_retained(old(self).subs(), now, timeout),
            ),
    {
        let ghost olds = self.subs();
        // First pass: collect the addresses seen, in first-appearance order.
        let mut addrs: Vec<Ip6Addr> = Vec::new();
        let mut i: usize = 0;
        proof {
            assert(olds.take(0).map_values(|e: NdpSubEntry| e.solicited_node_addr)
                =~= Seq::<Ip6Addr>::empty());
        }
        while i < self.subscriptions.len()
            invariant
                i <= olds.len(),
                olds == self.subs(),
                addrs@ == dedup_seq(
                    olds.take(i as int).map_values(|e: NdpSubEntry| e.solicited_node_addr),
                ),
            decreases olds.len() - i,
        {
            let a = self.subscriptions[i].solicited_node_addr;
            proof {
                let mapped = olds.take(i + 1).map_values(
                    |e: NdpSubEntry| e.solicited_node_addr,
                );
                assert(mapped.drop_last() =~= olds.take(i as int).map_values(
                    |e: NdpSubEntry| e.solicited_node_addr,
                ));
                assert(mapped.last() == a);
            }
            if !addr_in(&addrs, a) {
                addrs.push(a);
            }
            i += 1;
        }
        proof {
            assert(olds.take(i as int) =~= olds);
        }
        // Second pass: drop the expired observations, back to front.
        let mut k: usize = self.subscriptions.len();
        proof {
            assert(olds.take(k as int) =~= olds);
            assert(olds.take(k as int) + ndp_retained(olds.skip(k as int), now, timeout)
                =~= olds);
        }
        while k > 0
            invariant
                k <= olds.len(),
                self.subs() == olds.take(k as int) + ndp_retained(
                    olds.skip(k as int),
                    now,
                    timeout,
                ),
                self.ids() == old(self).ids(),
            decreases k,
        {
            k -= 1;
            let ts = self.subscriptions[k].timestamp;
            let is_expired = ts < now && now - ts > timeout;
            proof {
                assert(self.subs()[k as int] == olds.take(k + 1)[k as int]);
                assert(olds.take(k + 1)[k as int] == olds[k as int]);
                assert(is_expired == ndp_expired(olds[k as int], now, timeout));
                assert(olds.skip(k as int)[0] == olds[k as int]);
                assert(olds.skip(k as int).skip(1) =~= olds.skip(k + 1));
            }
            if is_expired {
                self.subscriptions.remove(k);
                proof {
                    assert(self.subs() =~= olds.take(k as int) + ndp_retained(
                        olds.skip(k as int),
                        now,
                        timeout,
                    ));
                }
            } else {
                proof {
                    assert(olds.take(k + 1) =~= olds.take(k as int).push(olds[k as int]));
                    assert(self.subs() =~= olds.take(k as int) + (seq![olds[k as int]]
                        + ndp_retained(olds.skip(k + 1), now, timeout)));
                    assert(olds.take(k as int) + (seq![olds[k as int]] + ndp_retained(
                        olds.skip(k + 1),
                        now,
                        timeout,
                    )) =~= olds.take(k as int) + ndp_retained(olds.skip(k as int), now, timeout));
                }
            }
        }
        proof {
            assert(olds.take(0) + ndp_retained(olds, now, timeout) =~= ndp_retained(
                olds,
                now,
                timeout,
            ));
            lemma_ndp_retained_keys(olds, now, timeout);
            assert(self.wf());
        }
        // Third pass: a leave for every address with no surviving observer.
        let mut actions: Vec<Action> = Vec::new();
        let ghost addrsv = addrs@;
        let ghost kept = self.subs();
        let mut m: usize = 0;
        proof {
            assert(addrsv.skip(0) =~= addrsv);
            assert(view_actions(actions@) + leave_actions(addrsv, kept) =~= leave_actions(
                addrsv,
                kept,
            ));
        }
        while m < addrs.len()
            invariant
                m <= addrsv.len(),
                addrsv == addrs@,
                kept == self.subs(),
                leave_actions(addrsv, kept) == view_actions(actions@) + leave_actions(
                    addrsv.skip(m as int),
                    kept,
                ),
            decreases addrsv.len() - m,
        {
            let ghost rem = addrsv.skip(m as int);
            proof {
                assert(rem[0] == addrsv[m as int]);
                assert(rem.skip(1) =~= addrsv.skip(m + 1));
            }
            let a = addrs[m];
            if !self.any_observer(a) {
                let ghost vpre = actions@;
                let leave_action = Action::LeaveMulticast {
                    group: a,
                    if_index: InterfaceId::unspecified(),
                };
                let ghost la = leave_action;
                actions.push(leave_action);
                proof {
                    lemma_view_actions_push(vpre, la);
                    assert(la@ == (ActionV::LeaveMulticast {
                        group: a,
                        if_index: crate::iface::unspecified_id(),
                    }));
                    assert(view_actions(actions@) + leave_actions(addrsv.skip(m + 1), kept)
                        =~= (view_actions(vpre) + (seq![
                        ActionV::LeaveMulticast {
                            group: a,
                            if_index: crate::iface::unspecified_id(),
                        },
                    ] + leave_actions(addrsv.skip(m + 1), kept))));
                }
            } else {
                proof {
                    assert(Seq::<ActionV>::empty() + leave_actions(addrsv.skip(m + 1), kept)
                        =~= leave_actions(addrsv.skip(m + 1), kept));
                }
            }
            m += 1;
        }
        proof {
            assert(leave_actions(addrsv.skip(m as int), kept) == Seq::<ActionV>::empty());
            assert(view_actions(actions@) + Seq::<ActionV>::empty() =~= view_actions(actions@));
        }
        actions
    }

    /// Whether any surviving observation names the address.
    fn any_observer(&self, a: Ip6Addr) -> (r: bool)
        ensures
            r == ndp_has_addr(self.subs(), a),
    {
        let mut i: usize = 0;
        while i < self.subscriptions.len()
            invariant
                i <= self.subs().len(),
                forall|j: int|
                    0 <= j < i ==> (#[trigger] self.subs()[j]).solicited_node_addr != a,
            decreases self.subs().len() - i,
        {
            if self.subscriptions[i].solicited_node_addr == a {
                return true;
            }
            i += 1;
        }
        false
    }
}

/// An observation that has not expired survives the sweep.
pub proof fn lemma_ndp_retained_keeps(entries: Seq<NdpSubEntry>, now: u64, timeout: u64, i: int)
    requires
        0 <= i < entries.len(),
        !ndp_expired(entries[i], now, timeout),
    ensures
        ndp_retained(entries, now, timeout).contains(entries[i]),
    decreases entries.len(),
{
    let r = ndp_retained(entries, now, timeout);
    let tail = ndp_retained(entries.skip(1), now, timeout);
    if i == 0 {
        assert(r[0] == entries[0]);
    } else {
        assert(entries.skip(1)[i - 1] == entries[i]);
        lemma_ndp_retained_keeps(entries.skip(1), now, timeout, i - 1);
        let m = choose|m: int| 0 <= m < tail.len() && tail[m] == entries[i];
        if ndp_expired(entries[0], now, timeout) {
            assert(r =~= tail);
            assert(r.contains(entries[i]));
        } else {
            assert(r[m + 1] == tail[m]);
        }
    }
}

/// Every survivor of an NDP expiry sweep is one of the original
/// observations.
proof fn lemma_ndp_retained_contains(
    entries: Seq<NdpSubEntry>,
    now: u64,
    timeout: u64,
    x: NdpSubEntry,
)
    requires
        ndp_retained(entries, now, timeout).contains(x),
    ensures
        entries.contains(x),
    decreases entries.len(),
{
    if entries.len() > 0 {
        let r = ndp_retained(entries, now, timeout);
        let tail = ndp_retained(entries.skip(1), now, timeout);
        if ndp_expired(entries[0], now, timeout) {
            assert(r =~= tail);
            lemma_ndp_retained_contains(entries.skip(1), now, timeout, x);
            let i = choose|i: int| 0 <= i < entries.skip(1).len() && entries.skip(1)[i] == x;
            assert(entries[i + 1] == x);
        } else {
            let i = choose|i: int| 0 <= i < r.len() && r[i] == x;
            if i == 0 {
                assert(entries[0] == x);
            } else {
                assert(tail[i - 1] == x);
                lemma_ndp_retained_contains(entries.skip(1), now, timeout, x);
                let j = choose|j: int| 0 <= j < entries.skip(1).len() && entries.skip(1)[j] == x;
                assert(entries[j + 1] == x);
            }
        }
    }
}

/// An NDP expiry sweep keeps the one-observation-per-pair shape.
proof fn lemma_ndp_retained_keys(entries: Seq<NdpSubEntry>, now: u64, timeout: u64)
    requires
        forall|i: int, j: int|
            0 <= i < j < entries.len() ==> !((#[trigger] entries[i]).solicited_node_addr == (
            #[trigger] entries[j]).solicited_node_addr && entries[i].if_index
                == entries[j].if_index),
    ensures
        ({
            let r = ndp_retained(entries, now, timeout);
            forall|i: int, j: int|
                0 <= i < j < r.len() ==> !((#[trigger] r[i]).solicited_node_addr == (
                #[trigger] r[j]).solicited_node_addr && r[i].if_index == r[j].if_index)
        }),
    decreases entries.len(),
{
    if entries.len() > 0 {
        assert forall|i: int, j: int|
            0 <= i < j < entries.skip(1).len() implies !((#[trigger] entries.skip(
            1,
        )[i]).solicited_node_addr == (#[trigger] entries.skip(1)[j]).solicited_node_addr
            && entries.skip(1)[i].if_index == entries.skip(1)[j].if_index) by {
            assert(entries.skip(1)[i] == entries[i + 1]);
            assert(entries.skip(1)[j] == entries[j + 1]);
        }
        lemma_ndp_retained_keys(entries.skip(1), now, timeout);
        let r = ndp_retained(entries, now, timeout);
        let tail = ndp_retained(entries.skip(1), now, timeout);
        if ndp_expired(entries[0], now, timeout) {
            assert(r =~= tail);
        } else {
            assert(r =~= seq![entries[0]] + tail);
            assert forall|i: int, j: int|
                0 <= i < j < r.len() implies !((#[trigger] r[i]).solicited_node_addr == (
            #[trigger] r[j]).solicited_node_addr && r[i].if_index == r[j].if_index) by {
                if i == 0 {
                    assert(r[j] == tail[j - 1]);
                    assert(tail.contains(tail[j - 1]));
                    lemma_ndp_retained_contains(entries.skip(1), now, timeout, tail[j - 1]);
                    let m = choose|m: int|
                        0 <= m < entries.skip(1).len() && entries.skip(1)[m] == tail[j - 1];
                    assert(entries[m + 1] == tail[j - 1]);
                } else {
                    assert(r[i] == tail[i - 1]);
                    assert(r[j] == tail[j - 1]);
                }
            }
        }
    }
}

/// In a well-formed manager the witness for an interface's virtual
/// interface number is unique.
proof fn lemma_vif_unique(m: MldSubscriptionManager, id: InterfaceId, i: int)
    requires
        m.wf(),
        0 <= i < m.vifs_seq().len(),
        m.vifs_seq()[i].0 == id,
    ensures
        m.has_vif(id),
        m.vif_at(id) == m.vifs_seq()[i].1,
{
    let j = choose|j: int| 0 <= j < m.vifs_seq().len() && (#[trigger] m.vifs_seq()[j]).0 == id;
    if i != j {
        if i < j {
            assert(m.vifs_seq()[i].0 != m.vifs_seq()[j].0);
        } else {
            assert(m.vifs_seq()[j].0 != m.vifs_seq()[i].0);
        }
    }
}

/// Equal virtual-interface tables answer every lookup alike.
proof fn lemma_vifs_stable(a: MldSubscriptionManager, b: MldSubscriptionManager)
    requires
        a.vifs_seq() == b.vifs_seq(),
    ensures
        forall|id: InterfaceId| #[trigger] a.has_vif(id) == b.has_vif(id),
        forall|id: InterfaceId| a.has_vif(id) ==> #[trigger] a.vif_at(id) == b.vif_at(id),
{
}

} // verus!
