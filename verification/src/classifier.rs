//! Dependency classification: partitioning a component's declared
//! dependencies into canonical static and dynamic name sets.

use vstd::prelude::*;
use crate::strutil::{
    canon_names, insert_sorted, lex_lt, lemma_lex_lt_asymmetric, lemma_lex_lt_connected, str_lt,
};

verus! {

/// How a dependency's client stub is resolved: embedded at link time, or
/// looked up at runtime.
#[derive(Debug, Clone, Copy, PartialEq, Eq, Structural)]
pub enum DependencyType {
    StaticWasmRpc,
    DynamicWasmRpc,
}

/// A declared dependency of a component on another component's client stub.
#[derive(Debug, Clone)]
pub struct Dependency {
    pub name: String,
    pub dep_type: DependencyType,
}

/// The names of the dependencies of the given type, in declaration order,
/// duplicates kept.
pub open spec fn names_of_type(deps: Seq<Dependency>, t: DependencyType) -> Seq<Seq<char>>
    decreases deps.len(),
{
    if deps.len() == 0 {
        Seq::empty()
    } else {
        let rest = names_of_type(deps.drop_last(), t);
        if deps.last().dep_type == t {
            rest.push(deps.last().name@)
        } else {
            rest
        }
    }
}

/// The canonical static-dependency name set of a dependency list: the
/// input signature that keys the link marker.
pub open spec fn spec_static_sig(deps: Seq<Dependency>) -> Seq<Seq<char>> {
    canon_names(names_of_type(deps, DependencyType::StaticWasmRpc))
}

/// Inserts `x` into an already canonical name list, keeping it canonical.
pub fn insert_name(v: &mut Vec<String>, x: String)
    ensures
        final(v).deep_view() == insert_sorted(old(v).deep_view(), x@),
{
    let ghost s0 = old(v).deep_view();
    let mut i: usize = 0;
    proof {
        assert(s0.skip(0) =~= s0);
        assert(s0.take(0) + insert_sorted(s0.skip(0), x@) =~= insert_sorted(s0, x@));
    }
    while i < v.len() && str_lt(v[i].as_str(), x.as_str())
        invariant
            i <= v@.len(),
            v.deep_view() == s0,
            insert_sorted(s0, x@) == s0.take(i as int) + insert_sorted(s0.skip(i as int), x@),
        decreases v@.len() - i,
    {
        proof {
            let rest = s0.skip(i as int);
            assert(rest[0] == s0[i as int]);
            assert(s0[i as int] == v@[i as int]@);
            assert(lex_lt(rest[0], x@));
            lemma_lex_lt_asymmetric(rest[0], x@);
            assert(insert_sorted(rest, x@) == seq![rest[0]] + insert_sorted(rest.drop_first(), x@));
            assert(rest.drop_first() =~= s0.skip(i + 1));
            assert(s0.take(i as int) + (seq![rest[0]] + insert_sorted(s0.skip(i + 1), x@)) =~= s0
                .take(i + 1) + insert_sorted(s0.skip(i + 1), x@));
        }
        i = i + 1;
    }
    let ghost rest = s0.skip(i as int);
    if i < v.len() {
        proof {
            assert(rest[0] == s0[i as int]);
            assert(s0[i as int] == v@[i as int]@);
            assert(!lex_lt(rest[0], x@));
        }
        if v[i] == x {
            // Already present: canonical form drops the duplicate.
            proof {
                assert(rest[0] == x@);
                assert(insert_sorted(rest, x@) == rest);
                assert(s0.take(i as int) + s0.skip(i as int) =~= s0);
            }
            return ;
        }
        proof {
            assert(rest[0] != x@);
            if !lex_lt(x@, rest[0]) {
                lemma_lex_lt_connected(x@, rest[0]);
            }
            assert(lex_lt(x@, rest[0]));
            assert(insert_sorted(rest, x@) == seq![x@] + rest);
        }
    } else {
        proof {
            assert(rest.len() == 0);
            assert(insert_sorted(rest, x@) =~= seq![x@] + rest);
        }
    }
    v.insert(i, x);
    proof {
        assert(final(v).deep_view() =~= s0.take(i as int) + (seq![x@] + s0.skip(i as int)));
    }
}

/// Classifies a component's declared dependencies into its canonical
/// static and dynamic name sets: deduplicated, lexicographically ordered.
///
/// Pure: reads only the declared list, never fails, and is deterministic,
/// which keeps marker hashing and diagnostics stable across runs.
pub fn classify(deps: &Vec<Dependency>) -> (r: (Vec<String>, Vec<String>))
    ensures
        r.0.deep_view() == spec_static_sig(deps@),
        r.1.deep_view() == canon_names(names_of_type(deps@, DependencyType::DynamicWasmRpc)),
{
    let mut stat: Vec<String> = Vec::new();
    let mut dynm: Vec<String> = Vec::new();
    let mut i: usize = 0;
    proof {
        assert(deps@.take(0) =~= Seq::<Dependency>::empty());
        assert(stat.deep_view() =~= canon_names(
            names_of_type(deps@.take(0), DependencyType::StaticWasmRpc),
        ));
        assert(dynm.deep_view() =~= canon_names(
            names_of_type(deps@.take(0), DependencyType::DynamicWasmRpc),
        ));
    }
    while i < deps.len()
        invariant
            i <= deps@.len(),
            stat.deep_view() == canon_names(
                names_of_type(deps@.take(i as int), DependencyType::StaticWasmRpc),
            ),
            dynm.deep_view() == canon_names(
                names_of_type(deps@.take(i as int), DependencyType::DynamicWasmRpc),
            ),
        decreases deps@.len() - i,
    {
        let ghost pre = deps@.take(i as int);
        let ghost post = deps@.take(i + 1);
        proof {
            assert(post.drop_last() =~= pre);
            assert(post.last() == deps@[i as int]);
        }
        let dep = &deps[i];
        proof {
            let st = DependencyType::StaticWasmRpc;
            let dy = DependencyType::DynamicWasmRpc;
            if deps@[i as int].dep_type == st {
                let ns = names_of_type(pre, st);
                assert(names_of_type(post, st) == ns.push(deps@[i as int].name@));
                assert(ns.push(deps@[i as int].name@).drop_last() =~= ns);
                assert(canon_names(names_of_type(post, st)) == insert_sorted(
                    canon_names(ns),
                    deps@[i as int].name@,
                ));
                assert(names_of_type(post, dy) == names_of_type(pre, dy));
            } else {
                let ns = names_of_type(pre, dy);
                assert(names_of_type(post, dy) == ns.push(deps@[i as int].name@));
                assert(ns.push(deps@[i as int].name@).drop_last() =~= ns);
                assert(canon_names(names_of_type(post, dy)) == insert_sorted(
                    canon_names(ns),
                    deps@[i as int].name@,
                ));
                assert(names_of_type(post, st) == names_of_type(pre, st));
            }
        }
        match dep.dep_type {
            DependencyType::StaticWasmRpc => {
                insert_name(&mut stat, dep.name.clone());
            },
            DependencyType::DynamicWasmRpc => {
                insert_name(&mut dynm, dep.name.clone());
            },
        }
        i = i + 1;
    }
    proof {
        assert(deps@.take(deps@.len() as int) =~= deps@);
    }
    (stat, dynm)
}

} // verus!
