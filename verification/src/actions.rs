use vstd::prelude::*;
use crate::addr::Ip6Addr;
use crate::iface::InterfaceId;

verus! {

/// One kernel-state change a manager or the engine asks its caller to
/// perform: joining or leaving a group on the raw socket, programming the
/// multicast-routing tables, or changing routes and proxy-NDP entries over
/// netlink. The caller performs them in order, best effort.
#[derive(Debug, Clone, PartialEq)]
pub enum Action {
    JoinMulticast { group: Ip6Addr, if_index: InterfaceId },
    LeaveMulticast { group: Ip6Addr, if_index: InterfaceId },
    AddVif { vif: u16, if_index: InterfaceId },
    DelVif { vif: u16 },
    AddMroute { parent: u16, outputs: Vec<u16>, group: Ip6Addr, source: Ip6Addr },
    DelMroute { parent: u16, group: Ip6Addr, source: Ip6Addr },
    RouteDelete { if_index: InterfaceId, dst: Ip6Addr, prefix_len: u8 },
    RouteAdd { if_index: InterfaceId, dst: Ip6Addr, prefix_len: u8 },
    ProxyNeighborDelete { if_index: InterfaceId, addr: Ip6Addr },
    ProxyNeighborAdd { if_index: InterfaceId, addr: Ip6Addr },
}

/// `Action` as contracts see it.
pub enum ActionV {
    JoinMulticast { group: Ip6Addr, if_index: InterfaceId },
    LeaveMulticast { group: Ip6Addr, if_index: InterfaceId },
    AddVif { vif: u16, if_index: InterfaceId },
    DelVif { vif: u16 },
    AddMroute { parent: u16, outputs: Seq<u16>, group: Ip6Addr, source: Ip6Addr },
    DelMroute { parent: u16, group: Ip6Addr, source: Ip6Addr },
    RouteDelete { if_index: InterfaceId, dst: Ip6Addr, prefix_len: u8 },
    RouteAdd { if_index: InterfaceId, dst: Ip6Addr, prefix_len: u8 },
    ProxyNeighborDelete { if_index: InterfaceId, addr: Ip6Addr },
    ProxyNeighborAdd { if_index: InterfaceId, addr: Ip6Addr },
}

impl View for Action {
    type V = ActionV;

    open spec fn view(&self) -> ActionV {
        match self {
            Action::JoinMulticast { group, if_index } => ActionV::JoinMulticast {
                group: *group,
                if_index: *if_index,
            },
            Action::LeaveMulticast { group, if_index } => ActionV::LeaveMulticast {
                group: *group,
                if_index: *if_index,
            },
            Action::AddVif { vif, if_index } => ActionV::AddVif {
                vif: *vif,
                if_index: *if_index,
            },
            Action::DelVif { vif } => ActionV::DelVif { vif: *vif },
            Action::AddMroute { parent, outputs, group, source } => ActionV::AddMroute {
                parent: *parent,
                outputs: outputs@,
                group: *group,
                source: *source,
            },
            Action::DelMroute { parent, group, source } => ActionV::DelMroute {
                parent: *parent,
                group: *group,
                source: *source,
            },
            Action::RouteDelete { if_index, dst, prefix_len } => ActionV::RouteDelete {
                if_index: *if_index,
                dst: *dst,
                prefix_len: *prefix_len,
            },
            Action::RouteAdd { if_index, dst, prefix_len } => ActionV::RouteAdd {
                if_index: *if_index,
                dst: *dst,
                prefix_len: *prefix_len,
            },
            Action::ProxyNeighborDelete { if_index, addr } => ActionV::ProxyNeighborDelete {
                if_index: *if_index,
                addr: *addr,
            },
            Action::ProxyNeighborAdd { if_index, addr } => ActionV::ProxyNeighborAdd {
                if_index: *if_index,
                addr: *addr,
            },
        }
    }
}

/// The action list as contracts see it.
pub open spec fn view_actions(s: Seq<Action>) -> Seq<ActionV> {
    s.map_values(|a: Action| a@)
}

/// Concatenating action lists concatenates their views.
pub proof fn lemma_view_actions_concat(a: Seq<Action>, b: Seq<Action>)
    ensures
        view_actions(a + b) == view_actions(a) + view_actions(b),
{
    assert(view_actions(a + b) =~= view_actions(a) + view_actions(b));
}

/// Appending an action appends its view.
pub proof fn lemma_view_actions_push(s: Seq<Action>, a: Action)
    ensures
        view_actions(s.push(a)) == view_actions(s).push(a@),
{
    assert(view_actions(s.push(a)) =~= view_actions(s).push(a@));
}

} // verus!
