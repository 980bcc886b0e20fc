use vstd::prelude::*;
use crate::addr::Ip6Addr;

verus! {

/// One neighbour-discovery option, kept raw: the type byte and the data
/// between the two-byte option header and the option's end.
#[derive(Debug, Clone, PartialEq)]
pub struct NdpOption {
    pub option_type: u8,
    pub option_data: Vec<u8>,
}

/// `NdpOption` as contracts see it.
pub struct NdpOptionV {
    pub option_type: u8,
    pub option_data: Seq<u8>,
}

impl View for NdpOption {
    type V = NdpOptionV;

    open spec fn view(&self) -> NdpOptionV {
        NdpOptionV { option_type: self.option_type, option_data: self.option_data@ }
    }
}

/// The option list as contracts see it.
pub open spec fn view_opts(s: Seq<NdpOption>) -> Seq<NdpOptionV> {
    s.map_values(|o: NdpOption| o@)
}

#[derive(Debug, Clone, PartialEq)]
pub struct RouterSolicitation {
    pub options: Vec<NdpOption>,
}

pub struct RouterSolicitationV {
    pub options: Seq<NdpOptionV>,
}

impl View for RouterSolicitation {
    type V = RouterSolicitationV;

    open spec fn view(&self) -> RouterSolicitationV {
        RouterSolicitationV { options: view_opts(self.options@) }
    }
}

#[derive(Debug, Clone, PartialEq)]
pub struct RouterAdvertisement {
    pub hop_limit: u8,
    pub managed_address_configuration: bool,
    pub other_configuration: bool,
    pub router_lifetime: u16,
    pub reachable_time: u32,
    pub retrans_timer: u32,
    pub options: Vec<NdpOption>,
}

pub struct RouterAdvertisementV {
    pub hop_limit: u8,
    pub managed_address_configuration: bool,
    pub other_configuration: bool,
    pub router_lifetime: u16,
    pub reachable_time: u32,
    pub retrans_timer: u32,
    pub options: Seq<NdpOptionV>,
}

impl View for RouterAdvertisement {
    type V = RouterAdvertisementV;

    open spec fn view(&self) -> RouterAdvertisementV {
        RouterAdvertisementV {
            hop_limit: self.hop_limit,
            managed_address_configuration: self.managed_address_configuration,
            other_configuration: self.other_configuration,
            router_lifetime: self.router_lifetime,
            reachable_time: self.reachable_time,
            retrans_timer: self.retrans_timer,
            options: view_opts(self.options@),
        }
    }
}

#[derive(Debug, Clone, PartialEq)]
pub struct NeighborSolicitation {
    pub target_address: Ip6Addr,
    pub options: Vec<NdpOption>,
}

pub struct NeighborSolicitationV {
    pub target_address: Ip6Addr,
    pub options: Seq<NdpOptionV>,
}

impl View for NeighborSolicitation {
    type V = NeighborSolicitationV;

    open spec fn view(&self) -> NeighborSolicitationV {
        NeighborSolicitationV {
            target_address: self.target_address,
            options: view_opts(self.options@),
        }
    }
}

#[derive(Debug, Clone, PartialEq)]
pub struct NeighborAdvertisement {
    pub router: bool,
    pub solicited: bool,
    pub override_: bool,
    pub target_address: Ip6Addr,
    pub options: Vec<NdpOption>,
}

pub struct NeighborAdvertisementV {
    pub router: bool,
    pub solicited: bool,
    pub override_: bool,
    pub target_address: Ip6Addr,
    pub options: Seq<NdpOptionV>,
}

impl View for NeighborAdvertisement {
    type V = NeighborAdvertisementV;

    open spec fn view(&self) -> NeighborAdvertisementV {
        NeighborAdvertisementV {
            router: self.router,
            solicited: self.solicited,
            override_: self.override_,
            target_address: self.target_address,
            options: view_opts(self.options@),
        }
    }
}

#[derive(Debug, Clone, PartialEq)]
pub struct Redirect {
    pub target_address: Ip6Addr,
    pub destination_address: Ip6Addr,
    pub options: Vec<NdpOption>,
}

pub struct RedirectV {
    pub target_address: Ip6Addr,
    pub destination_address: Ip6Addr,
    pub options: Seq<NdpOptionV>,
}

impl View for Redirect {
    type V = RedirectV;

    open spec fn view(&self) -> RedirectV {
        RedirectV {
            target_address: self.target_address,
            destination_address: self.destination_address,
            options: view_opts(self.options@),
        }
    }
}

} // verus!
