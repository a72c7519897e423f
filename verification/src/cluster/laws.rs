//! What holds of consistent hashing as a whole.
use crate::cluster;
use crate::cluster::model;
use crate::cluster::model::{Points, Ring};
use crate::cluster::ClusterNodeConfig;
use vstd::prelude::*;

verus! {

/// A key is owned by one of the nodes, and by none only if the ring has no
/// points.
pub proof fn law_owner_is_a_node(r: Ring, x: u64)
    requires
        model::valid(r),
    ensures
        match model::owner(r.points, x) {
            Some(a) => r.nodes.contains(a),
            None => r.points.dom() == Set::<u64>::empty(),
        },
{
    if exists|h: u64| model::is_next(r.points, x, h) {
        let h = choose|h: u64| model::is_next(r.points, x, h);
        assert(r.points.contains_key(h));
    } else if r.points.dom().len() > 0 {
        model::lemma_next_exists(r.points, x);
    } else {
        assert(r.points.dom() =~= Set::<u64>::empty());
    }
}

/// A single node with at least one virtual node owns every key.
pub proof fn law_single_node(address: Seq<char>, n: u32, x: u64)
    requires
        n > 0,
    ensures
        model::owner(
            model::points_with(Map::empty(), address, model::vnode_places(address, n)),
            x,
        ) == Some(address),
{
    let places = model::vnode_places(address, n);
    let p = model::points_with(Map::empty(), address, places);
    lemma_with_finite(Map::empty(), address, places);
    assert(places.contains(places[0]));
    assert(p.dom().contains(places[0]));
    model::lemma_next_exists(p, x);
    let h = choose|h: u64| model::is_next(p, x, h);
    assert(p.contains_key(h));
}

/// Taking places adds finitely many points.
pub proof fn lemma_with_finite(p: Points, address: Seq<char>, places: Seq<u64>)
    requires
        p.dom().finite(),
    ensures
        model::points_with(p, address, places).dom().finite(),
{
    vstd::seq_lib::seq_to_set_is_finite(places);
    let bound = p.dom().union(places.to_set());
    assert forall|h: u64| #[trigger]
        model::points_with(p, address, places).dom().contains(h) implies bound.contains(h) by {}
    vstd::set_lib::lemma_set_subset_finite(bound, model::points_with(p, address, places).dom());
}

/// After a node was removed, no key is owned by it.
pub proof fn law_removed_owns_nothing(p: Points, address: Seq<char>, x: u64)
    ensures
        model::owner(model::points_without(p, address), x) != Some(address),
{
    let q = model::points_without(p, address);
    if exists|h: u64| model::is_next(q, x, h) {
        let h = choose|h: u64| model::is_next(q, x, h);
        assert(q.contains_key(h));
    }
}

/// Removing a node moves only the keys that it owned.
pub proof fn law_remove_moves_only_its_keys(p: Points, address: Seq<char>, x: u64)
    requires
        model::owner(p, x) is Some,
        model::owner(p, x) != Some(address),
    ensures
        model::owner(model::points_without(p, address), x) == model::owner(p, x),
{
    let q = model::points_without(p, address);
    let h = choose|h: u64| model::is_next(p, x, h);
    assert(model::is_next(p, x, h));
    assert forall|g: u64| #[trigger] q.contains_key(g) implies p.contains_key(g) by {}
    assert(q.contains_key(h));
    assert(model::is_next(q, x, h));
    model::lemma_owner(q, x, h);
}

/// Adding a node moves keys only to that node.
pub proof fn law_add_moves_only_to_it(p: Points, address: Seq<char>, places: Seq<u64>, x: u64)
    requires
        p.dom().finite(),
    ensures
        model::owner(model::points_with(p, address, places), x) == Some(address) || model::owner(
            model::points_with(p, address, places),
            x,
        ) == model::owner(p, x),
{
    let q = model::points_with(p, address, places);
    if exists|h: u64| model::is_next(q, x, h) {
        let h = choose|h: u64| model::is_next(q, x, h);
        assert(q.contains_key(h));
        model::lemma_owner(q, x, h);
        if !places.contains(h) {
            assert forall|g: u64| #[trigger] p.contains_key(g) implies q.contains_key(g) by {}
            assert(p.contains_key(h));
            assert(model::is_next(p, x, h));
            model::lemma_owner(p, x, h);
        }
    } else {
        assert forall|h: u64| !model::is_next(p, x, h) by {
            if model::is_next(p, x, h) {
                assert(p.contains_key(h) && q.contains_key(h));
                lemma_with_finite(p, address, places);
                assert(q.dom().contains(h));
                model::lemma_next_exists(q, x);
            }
        }
    }
}

/// Adding a node twice is adding it once.
pub proof fn law_add_is_idempotent(r: Ring, address: Seq<char>, n: u32)
    ensures
        model::after_add(model::after_add(r, address, n), address, n) == model::after_add(
            r,
            address,
            n,
        ),
{
    assert(model::after_add(model::after_add(r, address, n), address, n) =~= model::after_add(
        r,
        address,
        n,
    ));
}

/// Removing a node that was just added gives the ring from before, where none of
/// its places was taken.
pub proof fn law_remove_undoes_add(r: Ring, address: Seq<char>, n: u32)
    requires
        model::valid(r),
        !r.nodes.contains(address),
        forall|h: u64| #[trigger]
            model::vnode_places(address, n).contains(h) ==> !r.points.contains_key(h),
    ensures
        model::after_remove(model::after_add(r, address, n), address) == r,
{
    let back = model::after_remove(model::after_add(r, address, n), address);
    assert(back.points =~= r.points);
    assert(back.nodes =~= r.nodes);
}

/// Removing a node and adding it again gives the same ring, and so the same
/// owner for every key, where the node owned all of its places before and no
/// others.
pub proof fn law_reinsert_is_stable(r: Ring, address: Seq<char>, n: u32)
    requires
        r.nodes.contains(address),
        forall|h: u64| #[trigger]
            model::vnode_places(address, n).contains(h) <==> r.points.contains_key(h)
                && r.points[h] == address,
    ensures
        model::after_add(model::after_remove(r, address), address, n) == r,
{
    let back = model::after_add(model::after_remove(r, address), address, n);
    assert(back.points =~= r.points);
    assert(back.nodes =~= r.nodes);
}

/// It does not matter in which order two nodes are added that have no place in
/// common, so all nodes of a cluster agree on the owners.
pub proof fn law_add_order(r: Ring, a: Seq<char>, m: u32, b: Seq<char>, n: u32)
    requires
        forall|h: u64|
            !(#[trigger] model::vnode_places(a, m).contains(h) && model::vnode_places(
                b,
                n,
            ).contains(h)),
    ensures
        model::after_add(model::after_add(r, a, m), b, n) == model::after_add(
            model::after_add(r, b, n),
            a,
            m,
        ),
{
    let x = model::after_add(model::after_add(r, a, m), b, n);
    let y = model::after_add(model::after_add(r, b, n), a, m);
    assert(x.points =~= y.points);
    assert(x.nodes =~= y.nodes);
}

/// A request is passed on at most once: the node that gets it from another, with
/// the same ring, does not pass it on.
pub proof fn law_passed_on_once(p: Points, current: Seq<char>, x: u64)
    ensures
        model::route(true, p, current, x) matches Some(a) ==> model::route(true, p, a, x) is None
            && model::owner(p, x) == Some(a),
{
}

/// The ring of a configuration holds just the nodes that are configured, and is
/// valid.
pub proof fn law_ring_of_config(nodes: Seq<ClusterNodeConfig>, default_vnodes: u32)
    ensures
        model::valid(cluster::ring_of(nodes, default_vnodes)),
        cluster::ring_of(nodes, default_vnodes).nodes == nodes.map_values(
            |n: ClusterNodeConfig| n.address@,
        ).to_set(),
    decreases nodes.len(),
{
    let addresses = nodes.map_values(|n: ClusterNodeConfig| n.address@);
    if nodes.len() == 0 {
        assert(addresses.to_set() =~= Set::<Seq<char>>::empty());
    } else {
        let front = nodes.drop_last();
        let last = nodes.last();
        law_ring_of_config(front, default_vnodes);
        let before = cluster::ring_of(front, default_vnodes);
        let known = front.map_values(|n: ClusterNodeConfig| n.address@);
        assert(addresses =~= known.push(last.address@));
        known.lemma_push_to_set_commute(last.address@);
        lemma_with_finite(
            before.points,
            last.address@,
            model::vnode_places(last.address@, cluster::vnodes_of(last, default_vnodes)),
        );
    }
}

} // verus!
