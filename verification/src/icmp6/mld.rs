use vstd::prelude::*;
use crate::addr::Ip6Addr;

verus! {

/// One multicast address record of an MLDv2 report. Record types 1 to 6
/// stand for IS_INCLUDE, IS_EXCLUDE, TO_IN, TO_EX, ALLOW and BLOCK.
#[derive(Debug, Clone, PartialEq)]
pub struct MulticastReportRecord {
    pub record_type: u8,
    pub multicast_address: Ip6Addr,
    pub source_addresses: Vec<Ip6Addr>,
}

pub struct MulticastReportRecordV {
    pub record_type: u8,
    pub multicast_address: Ip6Addr,
    pub source_addresses: Seq<Ip6Addr>,
}

impl View for MulticastReportRecord {
    type V = MulticastReportRecordV;

    open spec fn view(&self) -> MulticastReportRecordV {
        MulticastReportRecordV {
            record_type: self.record_type,
            multicast_address: self.multicast_address,
            source_addresses: self.source_addresses@,
        }
    }
}

pub open spec fn view_records(s: Seq<MulticastReportRecord>) -> Seq<MulticastReportRecordV> {
    s.map_values(|r: MulticastReportRecord| r@)
}

#[derive(Debug, Clone, PartialEq)]
pub struct MulticastListenerQuery {
    pub maximum_response_delay: u16,
    pub group_address: Ip6Addr,
    pub supress_router_processing: bool,
    pub qrv: u8,
    pub qqic: u8,
    pub source_addresses: Vec<Ip6Addr>,
}

pub struct MulticastListenerQueryV {
    pub maximum_response_delay: u16,
    pub group_address: Ip6Addr,
    pub supress_router_processing: bool,
    pub qrv: u8,
    pub qqic: u8,
    pub source_addresses: Seq<Ip6Addr>,
}

impl View for MulticastListenerQuery {
    type V = MulticastListenerQueryV;

    open spec fn view(&self) -> MulticastListenerQueryV {
        MulticastListenerQueryV {
            maximum_response_delay: self.maximum_response_delay,
            group_address: self.group_address,
            supress_router_processing: self.supress_router_processing,
            qrv: self.qrv,
            qqic: self.qqic,
            source_addresses: self.source_addresses@,
        }
    }
}

#[derive(Debug, Clone, Copy, PartialEq, Eq, Structural)]
pub struct V1MulticastListenerReport {
    pub group_address: Ip6Addr,
}

#[derive(Debug, Clone, Copy, PartialEq, Eq, Structural)]
pub struct V1MulticastListenerDone {
    pub group_address: Ip6Addr,
}

#[derive(Debug, Clone, PartialEq)]
pub struct V2MulticastListenerReport {
    pub records: Vec<MulticastReportRecord>,
}

pub struct V2MulticastListenerReportV {
    pub records: Seq<MulticastReportRecordV>,
}

impl View for V2MulticastListenerReport {
    type V = V2MulticastListenerReportV;

    open spec fn view(&self) -> V2MulticastListenerReportV {
        V2MulticastListenerReportV { records: view_records(self.records@) }
    }
}

} // verus!
