use vstd::prelude::*;
use crate::addr::Ip6Addr;

verus! {

/// A kernel interface index. Zero is the distinguished "unspecified" value,
/// meaning any interface or the system default.
#[derive(Debug, Clone, Copy, PartialEq, Eq, Structural, Hash)]
pub struct InterfaceId {
    if_index: u32,
}

impl InterfaceId {
    pub closed spec fn spec_index(self) -> u32 {
        self.if_index
    }

    pub fn new(if_index: u32) -> (r: Self)
        ensures
            r.spec_index() == if_index,
    {
        InterfaceId { if_index }
    }

    pub fn unspecified() -> (r: Self)
        ensures
            r.spec_index() == 0,
            r == unspecified_id(),
    {
        InterfaceId { if_index: 0 }
    }

    pub fn inner_unchecked(&self) -> (r: u32)
        ensures
            r == self.spec_index(),
    {
        self.if_index
    }

    pub fn inner(&self) -> (r: Option<u32>)
        ensures
            r == (if self.spec_index() == 0 {
                Option::<u32>::None
            } else {
                Option::<u32>::Some(self.spec_index())
            }),
    {
        if self.if_index == 0 {
            None
        } else {
            Some(self.if_index)
        }
    }

    pub fn is_unspecified(&self) -> (r: bool)
        ensures
            r == (self.spec_index() == 0),
    {
        self.if_index == 0
    }
}

/// The unspecified interface id, as contracts name it.
pub closed spec fn unspecified_id() -> InterfaceId {
    InterfaceId { if_index: 0 }
}

/// An immutable snapshot of one kernel link.
#[derive(Debug, Clone, PartialEq)]
pub struct Interface {
    pub if_id: InterfaceId,
    pub if_name: String,
}

/// What the cache knows of one interface: its identity, the link-local
/// addresses in kernel order, and the link-layer address if the link has one.
#[derive(Debug, Clone)]
pub struct InterfaceEntry {
    pub iface: Interface,
    pub link_local_addrs: Vec<Ip6Addr>,
    pub link_layer_addr: Option<Vec<u8>>,
}

/// One refresh pass over the kernel link and address tables, as the lookups
/// see it. Entries are keyed by interface id; an id appears at most once and
/// is never the unspecified id.
#[derive(Debug, Clone)]
pub struct InterfaceTable {
    entries: Vec<InterfaceEntry>,
}

impl InterfaceTable {
    pub closed spec fn entries_seq(self) -> Seq<InterfaceEntry> {
        self.entries@
    }

    pub open spec fn wf(self) -> bool {
        &&& forall|i: int, j: int|
            0 <= i < j < self.entries_seq().len() ==> #[trigger] self.entries_seq()[i].iface.if_id
                != #[trigger] self.entries_seq()[j].iface.if_id
        &&& forall|i: int|
            0 <= i < self.entries_seq().len() ==> (
            #[trigger] self.entries_seq()[i].iface.if_id).spec_index() != 0
    }

    /// Whether some entry carries this id.
    pub open spec fn has_id(self, id: InterfaceId) -> bool {
        exists|i: int| 0 <= i < self.entries_seq().len() && (#[trigger] self.entries_seq()[i]).iface.if_id == id
    }

    /// The entry that carries this id.
    pub open spec fn entry_for(self, id: InterfaceId) -> InterfaceEntry {
        self.entries_seq()[choose|i: int|
            0 <= i < self.entries_seq().len() && (#[trigger] self.entries_seq()[i]).iface.if_id == id]
    }

    pub fn new() -> (r: Self)
        ensures
            r.wf(),
            r.entries_seq() == Seq::<InterfaceEntry>::empty(),
    {
        InterfaceTable { entries: Vec::new() }
    }

    /// Appends a snapshot entry. An entry whose id is unspecified or already
    /// present is refused and nothing changes.
    pub fn add(&mut self, entry: InterfaceEntry) -> (r: bool)
        requires
            old(self).wf(),
        ensures
            final(self).wf(),
            r == (entry.iface.if_id.spec_index() != 0 && !old(self).has_id(entry.iface.if_id)),
            r ==> final(self).entries_seq() == old(self).entries_seq().push(entry),
            !r ==> *final(self) == *old(self),
    {
        if entry.iface.if_id.is_unspecified() {
            return false;
        }
        if self.find_index(entry.iface.if_id).is_some() {
            return false;
        }
        self.entries.push(entry);
        true
    }

    fn find_index(&self, id: InterfaceId) -> (r: Option<usize>)
        ensures
            match r {
                Some(i) => i < self.entries_seq().len() && self.entries_seq()[i as int].iface.if_id
                    == id,
                None => !self.has_id(id),
            },
    {
        let mut i: usize = 0;
        while i < self.entries.len()
            invariant
                i <= self.entries_seq().len(),
                forall|j: int| 0 <= j < i ==> (#[trigger] self.entries_seq()[j]).iface.if_id != id,
            decreases self.entries_seq().len() - i,
        {
            if self.entries[i].iface.if_id == id {
                return Some(i);
            }
            i += 1;
        }
        None
    }

    /// The ids of all entries, in table order.
    pub fn get_all_indexes(&self) -> (r: Vec<InterfaceId>)
        ensures
            r@ == self.entries_seq().map_values(|e: InterfaceEntry| e.iface.if_id),
    {
        let mut out: Vec<InterfaceId> = Vec::new();
        let mut i: usize = 0;
        while i < self.entries.len()
            invariant
                i <= self.entries_seq().len(),
                out@ == self.entries_seq().take(i as int).map_values(
                    |e: InterfaceEntry| e.iface.if_id,
                ),
            decreases self.entries_seq().len() - i,
        {
            out.push(self.entries[i].iface.if_id);
            proof {
                assert(self.entries_seq().take(i + 1)
                    =~= self.entries_seq().take(i as int).push(self.entries_seq()[i as int]));
                assert(out@ =~= self.entries_seq().take(i + 1).map_values(
                    |e: InterfaceEntry| e.iface.if_id,
                ));
            }
            i += 1;
        }
        proof {
            assert(self.entries_seq().take(i as int) =~= self.entries_seq());
        }
        out
    }

    /// The interface with this id, if the snapshot has it.
    pub fn get(&self, if_index: InterfaceId) -> (r: Option<Interface>)
        requires
            self.wf(),
        ensures
            match r {
                Some(iface) => self.has_id(if_index) && iface.if_id == self.entry_for(
                    if_index,
                ).iface.if_id && iface.if_name@ == self.entry_for(if_index).iface.if_name@,
                None => !self.has_id(if_index),
            },
    {
        match self.find_index(if_index) {
            Some(i) => {
                let iface = Interface {
                    if_id: self.entries[i].iface.if_id,
                    if_name: self.entries[i].iface.if_name.clone(),
                };
                proof {
                    lemma_unique_entry(*self, if_index, i as int);
                }
                Some(iface)
            },
            None => None,
        }
    }

    pub fn get_name_by_index(&self, if_index: InterfaceId) -> (r: Option<String>)
        requires
            self.wf(),
        ensures
            match r {
                Some(name) => self.has_id(if_index) && name@ == self.entry_for(
                    if_index,
                ).iface.if_name@,
                None => !self.has_id(if_index),
            },
    {
        match self.find_index(if_index) {
            Some(i) => {
                let name = self.entries[i].iface.if_name.clone();
                proof {
                    lemma_unique_entry(*self, if_index, i as int);
                }
                Some(name)
            },
            None => None,
        }
    }

    /// All link-local addresses of the interface, kernel order kept.
    pub fn get_link_local_addrs(&self, if_index: InterfaceId) -> (r: Option<Vec<Ip6Addr>>)
        requires
            self.wf(),
        ensures
            match r {
                Some(addrs) => self.has_id(if_index) && addrs@ == self.entry_for(
                    if_index,
                ).link_local_addrs@,
                None => !self.has_id(if_index),
            },
    {
        match self.find_index(if_index) {
            Some(i) => {
                let addrs = clone_addrs(&self.entries[i].link_local_addrs);
                proof {
                    lemma_unique_entry(*self, if_index, i as int);
                }
                Some(addrs)
            },
            None => None,
        }
    }

    /// The first link-local address, the one outbound mirrored packets use
    /// as their source.
    pub fn get_link_local_addr(&self, if_index: InterfaceId) -> (r: Option<Ip6Addr>)
        requires
            self.wf(),
        ensures
            r == spec_link_local_of(*self, if_index),
    {
        match self.find_index(if_index) {
            Some(i) => {
                proof {
                    lemma_unique_entry(*self, if_index, i as int);
                }
                if self.entries[i].link_local_addrs.len() > 0 {
                    Some(self.entries[i].link_local_addrs[0])
                } else {
                    None
                }
            },
            None => None,
        }
    }

    /// The link-layer address recorded for the interface.
    pub fn get_link_layer_addr(&self, if_index: InterfaceId) -> (r: Option<Vec<u8>>)
        requires
            self.wf(),
        ensures
            match r {
                Some(mac) => self.has_id(if_index) && (self.entry_for(
                    if_index,
                ).link_layer_addr matches Some(m) && mac@ == m@),
                None => spec_link_layer_of(*self, if_index) is None,
            },
    {
        match self.find_index(if_index) {
            Some(i) => {
                proof {
                    lemma_unique_entry(*self, if_index, i as int);
                }
                match &self.entries[i].link_layer_addr {
                    Some(mac) => Some(crate::icmp6::bytes::clone_bytes(mac)),
                    None => None,
                }
            },
            None => None,
        }
    }

    /// The id of the first entry with this name.
    pub fn get_index_by_name(&self, name: &String) -> (r: Option<InterfaceId>)
        ensures
            match r {
                Some(id) => exists|i: int|
                    0 <= i < self.entries_seq().len() && (#[trigger] self.entries_seq()[i]).iface.if_id
                        == id && self.entries_seq()[i].iface.if_name@ == name@,
                None => forall|i: int|
                    0 <= i < self.entries_seq().len() ==> (#[trigger] self.entries_seq()[i]).iface.if_name@
                        != name@,
            },
    {
        let mut i: usize = 0;
        while i < self.entries.len()
            invariant
                i <= self.entries_seq().len(),
                forall|j: int| 0 <= j < i ==> (#[trigger] self.entries_seq()[j]).iface.if_name@ != name@,
            decreases self.entries_seq().len() - i,
        {
            if self.entries[i].iface.if_name == *name {
                return Some(self.entries[i].iface.if_id);
            }
            i += 1;
        }
        None
    }
}

/// The first link-local address of the interface, if the table knows the
/// interface and it has one.
pub open spec fn spec_link_local_of(t: InterfaceTable, id: InterfaceId) -> Option<Ip6Addr> {
    if t.has_id(id) && t.entry_for(id).link_local_addrs@.len() > 0 {
        Some(t.entry_for(id).link_local_addrs@[0])
    } else {
        None
    }
}

/// The link-layer address of the interface, if the table knows it.
pub open spec fn spec_link_layer_of(t: InterfaceTable, id: InterfaceId) -> Option<Seq<u8>> {
    if t.has_id(id) {
        match t.entry_for(id).link_layer_addr {
            Some(m) => Some(m@),
            None => None,
        }
    } else {
        None
    }
}

/// An element-wise copy of an address list.
pub fn clone_addrs(v: &Vec<Ip6Addr>) -> (r: Vec<Ip6Addr>)
    ensures
        r@ == v@,
{
    let mut out: Vec<Ip6Addr> = Vec::new();
    let mut i: usize = 0;
    while i < v.len()
        invariant
            i <= v@.len(),
            out@ == v@.take(i as int),
        decreases v@.len() - i,
    {
        out.push(v[i]);
        proof {
            assert(out@ =~= v@.take(i + 1));
        }
        i += 1;
    }
    proof {
        assert(v@.take(i as int) =~= v@);
    }
    out
}

/// In a well-formed table the witness index for an id is unique, so the
/// entry found by a scan is the `entry_for` the id.
proof fn lemma_unique_entry(t: InterfaceTable, id: InterfaceId, i: int)
    requires
        t.wf(),
        0 <= i < t.entries_seq().len(),
        t.entries_seq()[i].iface.if_id == id,
    ensures
        t.has_id(id),
        t.entry_for(id) == t.entries_seq()[i],
{
    let j = choose|j: int|
        0 <= j < t.entries_seq().len() && (#[trigger] t.entries_seq()[j]).iface.if_id == id;
    if i != j {
        if i < j {
            assert(t.entries_seq()[i].iface.if_id != t.entries_seq()[j].iface.if_id);
        } else {
            assert(t.entries_seq()[j].iface.if_id != t.entries_seq()[i].iface.if_id);
        }
    }
}

} // verus!
