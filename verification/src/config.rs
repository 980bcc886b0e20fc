use vstd::prelude::*;
use crate::group::dedup_seq;

verus! {

/// Which interface names the daemon bridges: one upstream and any number
/// of downstreams.
#[derive(Debug, Clone, PartialEq)]
pub struct InterfaceConfig {
    pub upstream: String,
    pub downstreams: Vec<String>,
}

/// The names as contracts see them.
pub open spec fn view_names(v: Seq<String>) -> Seq<Seq<char>> {
    v.map_values(|s: String| s@)
}

impl InterfaceConfig {
    /// Every configured interface name, the upstream first, repetitions
    /// dropped.
    pub fn interfaces(&self) -> (r: Vec<String>)
        ensures
            view_names(r@) == dedup_seq(
                view_names((seq![self.upstream] + self.downstreams@)),
            ),
    {
        let mut out: Vec<String> = Vec::new();
        out.push(self.upstream.clone());
        let ghost all = view_names((seq![self.upstream] + self.downstreams@));
        proof {
            assert(all[0] == self.upstream@);
            assert(all.take(1).drop_last() =~= Seq::<Seq<char>>::empty());
            assert(dedup_seq(Seq::<Seq<char>>::empty()) == Seq::<Seq<char>>::empty());
            assert(all.take(1).last() == self.upstream@);
            assert(view_names(out@) =~= dedup_seq(all.take(1)));
        }
        let mut i: usize = 0;
        while i < self.downstreams.len()
            invariant
                i <= self.downstreams@.len(),
                all == view_names((seq![self.upstream] + self.downstreams@)),
                view_names(out@) == dedup_seq(all.take(1 + i as int)),
            decreases self.downstreams@.len() - i,
        {
            let name = self.downstreams[i].clone();
            proof {
                assert(all.take(1 + (i + 1)).drop_last() =~= all.take(1 + i as int));
                assert(all.take(1 + (i + 1)).last() == name@);
            }
            if !name_in(&out, &name) {
                let ghost vpre = view_names(out@);
                let ghost nv = name@;
                out.push(name);
                proof {
                    assert(view_names(out@) =~= vpre.push(nv));
                }
            }
            i += 1;
        }
        proof {
            assert(all.take(1 + i as int) =~= all);
        }
        out
    }
}

/// Whether the list holds a name with these characters.
pub fn name_in(v: &Vec<String>, name: &String) -> (r: bool)
    ensures
        r == view_names(v@).contains(name@),
{
    let mut i: usize = 0;
    while i < v.len()
        invariant
            i <= v@.len(),
            forall|j: int| 0 <= j < i ==> (#[trigger] v@[j])@ != name@,
        decreases v@.len() - i,
    {
        if v[i] == *name {
            proof {
                assert(view_names(v@)[i as int] == name@);
            }
            return true;
        }
        i += 1;
    }
    proof {
        if view_names(v@).contains(name@) {
            let j = choose|j: int| 0 <= j < view_names(v@).len() && view_names(v@)[j] == name@;
            assert(v@[j]@ == name@);
        }
    }
    false
}

/// How the daemon bridges the prefix: answering neighbour solicitations
/// by proxy, or delegating a prefix over DHCPv6. Only the proxy mode is
/// honoured.
#[derive(Debug, Clone, Copy, PartialEq, Eq, Structural)]
pub enum ProxyMode {
    NdpProxy,
    Dhcpv6Pd,
}

impl Default for ProxyMode {
    fn default() -> (r: Self)
        ensures
            r == ProxyMode::NdpProxy,
    {
        ProxyMode::NdpProxy
    }
}

#[derive(Debug, Clone, Copy, PartialEq, Eq, Structural)]
pub struct GlobalConfig {
    pub proxy_mode: ProxyMode,
}

/// The daemon's configuration, as its file states it.
#[derive(Debug, Clone, PartialEq)]
pub struct Config {
    pub global: GlobalConfig,
    pub interfaces: InterfaceConfig,
}

} // verus!
