use vstd::prelude::*;
use crate::config::view_names;
use crate::group::dedup_seq;

verus! {

/// One bridging instance: the name of the interface that faces the
/// provider and the names of the interfaces that face the household,
/// repetitions dropped.
#[derive(Debug, Clone, PartialEq)]
pub struct ProxyInstance {
    upstream_if_name: String,
    downstream_if_names: Vec<String>,
}

impl ProxyInstance {
    pub closed spec fn spec_upstream(self) -> Seq<char> {
        self.upstream_if_name@
    }

    pub closed spec fn spec_downstreams(self) -> Seq<Seq<char>> {
        view_names(self.downstream_if_names@)
    }

    pub fn new(upstream_if_name: &str, downstream_if_names: &Vec<String>) -> (r: Self)
        ensures
            r.spec_upstream() == upstream_if_name@,
            r.spec_downstreams() == dedup_seq(view_names(downstream_if_names@)),
    {
        let mut names: Vec<String> = Vec::new();
        let mut i: usize = 0;
        proof {
            assert(view_names(names@) =~= dedup_seq(view_names(downstream_if_names@).take(0)));
        }
        while i < downstream_if_names.len()
            invariant
                i <= downstream_if_names@.len(),
                view_names(names@) == dedup_seq(view_names(downstream_if_names@).take(i as int)),
            decreases downstream_if_names@.len() - i,
        {
            let name = downstream_if_names[i].clone();
            proof {
                assert(view_names(downstream_if_names@).take(i + 1).drop_last() =~= view_names(
                    downstream_if_names@,
                ).take(i as int));
                assert(view_names(downstream_if_names@).take(i + 1).last() == name@);
            }
            if !crate::config::name_in(&names, &name) {
                let ghost vpre = view_names(names@);
                let ghost nv = name@;
                names.push(name);
                proof {
                    assert(view_names(names@) =~= vpre.push(nv));
                }
            }
            i += 1;
        }
        proof {
            assert(view_names(downstream_if_names@).take(i as int) =~= view_names(
                downstream_if_names@,
            ));
        }
        ProxyInstance {
            upstream_if_name: upstream_if_name.to_owned(),
            downstream_if_names: names,
        }
    }

    pub fn upstream_if_name(&self) -> (r: &str)
        ensures
            r@ == self.spec_upstream(),
    {
        self.upstream_if_name.as_str()
    }

    pub fn downstream_if_names(&self) -> (r: &Vec<String>)
        ensures
            view_names(r@) == self.spec_downstreams(),
    {
        &self.downstream_if_names
    }
}

} // verus!
