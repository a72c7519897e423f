//! Which place on the ring a key or a node has, and who owns it.
use crate::cluster;
use crate::cluster::hashring;
use crate::cluster::model;
use crate::cluster::model::{Points, Ring};
use crate::cluster::{ClusterNodeConfig, ProxyFailure};
use crate::text;
use vstd::prelude::*;
use vstd::utf8::*;

verus! {

/// The place of a key is the number that the last eight bytes of its digest make,
/// the first of them counting most.
pub proof fn law_place(data: Seq<u8>, d: Seq<u8>)
    requires
        d == model::sha256(data),
        d.len() == 32,
    ensures
        model::place(data) == d[24] * 0x100_0000_0000_0000 + d[25] * 0x1_0000_0000_0000 + d[26]
            * 0x100_0000_0000 + d[27] * 0x1_0000_0000 + d[28] * 0x100_0000 + d[29] * 0x1_0000
            + d[30] * 0x100 + d[31],
{
    law_number_of_bytes(d);
}

/// The number that eight bytes make, the first of them counting most.
pub proof fn law_number_of_bytes(d: Seq<u8>)
    requires
        d.len() == 32,
    ensures
        model::be_value(d.subrange(24, 32)) == d[24] * 0x100_0000_0000_0000 + d[25]
            * 0x1_0000_0000_0000 + d[26] * 0x100_0000_0000 + d[27] * 0x1_0000_0000 + d[28]
            * 0x100_0000 + d[29] * 0x1_0000 + d[30] * 0x100 + d[31],
        model::be_value(d.subrange(24, 32)) <= u64::MAX,
{
    let s = d.subrange(24, 32);
    let s7 = s.drop_last();
    let s6 = s7.drop_last();
    let s5 = s6.drop_last();
    let s4 = s5.drop_last();
    let s3 = s4.drop_last();
    let s2 = s3.drop_last();
    let s1 = s2.drop_last();
    let s0 = s1.drop_last();
    assert(model::be_value(s0) == 0);
    assert(model::be_value(s1) == d[24]);
    assert(model::be_value(s2) == model::be_value(s1) * 256 + d[25]);
    assert(model::be_value(s3) == model::be_value(s2) * 256 + d[26]);
    assert(model::be_value(s4) == model::be_value(s3) * 256 + d[27]);
    assert(model::be_value(s5) == model::be_value(s4) * 256 + d[28]);
    assert(model::be_value(s6) == model::be_value(s5) * 256 + d[29]);
    assert(model::be_value(s7) == model::be_value(s6) * 256 + d[30]);
    assert(model::be_value(s) == model::be_value(s7) * 256 + d[31]);
}

/// The place of a virtual node is that of its address, a colon, and its number in
/// four bytes, the first of them counting least.
pub proof fn law_vnode_place(address: Seq<char>, index: u32, a: u8, b: u8, c: u8, d: u8)
    requires
        index == a + 0x100 * b + 0x1_0000 * c + 0x100_0000 * d,
    ensures
        model::vnode_place(address, index) == model::place(
            encode_utf8(address) + seq![58u8, a, b, c, d],
        ),
{
    assert(index % 256 == a);
    assert(index / 256 == b + 0x100 * c + 0x1_0000 * d);
    assert(index / 256 % 256 == b);
    assert(index / 65536 == c + 0x100 * d);
    assert(index / 65536 % 256 == c);
    assert(index / 16777216 == d);
    assert(index / 16777216 % 256 == d);
    assert(model::vnode_bytes(address, index) =~= encode_utf8(address) + seq![58u8, a, b, c, d]);
}

/// A place is owned by the owner of the first point at or behind it; behind the
/// last point, by the owner of the first point of all.
pub proof fn law_owner(p: Points, x: u64, h: u64)
    requires
        p.contains_key(h),
        (h >= x && forall|g: u64| x <= g < h ==> !#[trigger] p.contains_key(g)) || (forall|g: u64|
            #[trigger] p.contains_key(g) ==> h <= g < x),
    ensures
        model::owner(p, x) == Some(p[h]),
{
    assert forall|g: u64| #[trigger] p.contains_key(g) && g >= x && h >= x implies h <= g by {}
    assert(model::is_next(p, x, h));
    model::lemma_owner(p, x, h);
}

/// Some node owns a place, as long as there are points; without points, none does.
pub proof fn law_some_owner(p: Points, x: u64)
    requires
        p.dom().finite(),
    ensures
        model::owner(p, x) is Some <==> p.dom().len() > 0,
        model::owner(p, x) is Some ==> exists|h: u64| #[trigger]
            p.contains_key(h) && p[h] == model::owner(p, x)->0,
{
    if p.dom().len() > 0 {
        model::lemma_next_exists(p, x);
    }
    if exists|h: u64| model::is_next(p, x, h) {
        let h = choose|h: u64| model::is_next(p, x, h);
        assert(p.contains_key(h));
        assert(p.dom().contains(h));
        if p.dom().len() == 0 {
            assert(p.dom() =~= Set::<u64>::empty());
        }
    }
}

/// A node that is added gets the points at the places of its virtual nodes, all
/// other points stay as they are, and it is one of the nodes.
pub proof fn law_added_node(r: Ring, address: Seq<char>, n: u32, h: u64, other: Seq<char>)
    ensures
        (exists|i: u32| i < n && #[trigger] model::vnode_place(address, i) == h)
            ==> model::after_add(r, address, n).points.contains_key(h) && model::after_add(
            r,
            address,
            n,
        ).points[h] == address,
        !(exists|i: u32| i < n && #[trigger] model::vnode_place(address, i) == h) ==> {
            &&& model::after_add(r, address, n).points.contains_key(h) == r.points.contains_key(h)
            &&& r.points.contains_key(h) ==> model::after_add(r, address, n).points[h]
                == r.points[h]
        },
        model::after_add(r, address, n).nodes.contains(other) == (other == address
            || r.nodes.contains(other)),
{
    let places = model::vnode_places(address, n);
    if exists|i: u32| i < n && #[trigger] model::vnode_place(address, i) == h {
        let i = choose|i: u32| i < n && #[trigger] model::vnode_place(address, i) == h;
        assert(places[i as int] == h);
    }
    if places.contains(h) {
        let i = choose|i: int| 0 <= i < places.len() && places[i] == h;
        assert(model::vnode_place(address, i as u32) == h);
    }
}

/// A node that is added at given places gets the points there, all other points
/// stay as they are, and it is one of the nodes.
pub proof fn law_added_places(
    r: Ring,
    address: Seq<char>,
    places: Seq<u64>,
    h: u64,
    other: Seq<char>,
)
    ensures
        places.contains(h) ==> model::after_add_at(r, address, places).points.contains_key(h)
            && model::after_add_at(r, address, places).points[h] == address,
        !places.contains(h) ==> {
            &&& model::after_add_at(r, address, places).points.contains_key(h)
                == r.points.contains_key(h)
            &&& r.points.contains_key(h) ==> model::after_add_at(r, address, places).points[h]
                == r.points[h]
        },
        model::after_add_at(r, address, places).nodes.contains(other) == (other == address
            || r.nodes.contains(other)),
{
}

/// A node that is removed takes all its points with it, and no others.
pub proof fn law_removed_node(r: Ring, address: Seq<char>, h: u64, other: Seq<char>)
    ensures
        model::after_remove(r, address).points.contains_key(h) == (r.points.contains_key(h)
            && r.points[h] != address),
        model::after_remove(r, address).points.contains_key(h) ==> model::after_remove(
            r,
            address,
        ).points[h] == r.points[h],
        model::after_remove(r, address).nodes.contains(other) == (other != address
            && r.nodes.contains(other)),
{
}

/// A request is passed on to the owner of its place, by a node of a cluster that is
/// not the owner itself, and by no other.
pub proof fn law_route(enabled: bool, p: Points, current: Seq<char>, x: u64, a: Seq<char>)
    ensures
        model::route(enabled, p, current, x) == Some(a) <==> enabled && a != current
            && model::owner(p, x) == Some(a),
{
}

/// The ring of a configuration is made by adding its nodes one after another, each
/// with the virtual nodes that it asks for, or the default if it asks for none.
pub proof fn law_configured_ring(
    nodes: Seq<ClusterNodeConfig>,
    node: ClusterNodeConfig,
    default_vnodes: u32,
)
    ensures
        cluster::ring_of(Seq::empty(), default_vnodes).points == Map::<u64, Seq<char>>::empty(),
        cluster::ring_of(Seq::empty(), default_vnodes).nodes == Set::<Seq<char>>::empty(),
        node.vnodes > 0 ==> cluster::ring_of(nodes.push(node), default_vnodes)
            == model::after_add(
            cluster::ring_of(nodes, default_vnodes),
            node.address@,
            node.vnodes,
        ),
        node.vnodes == 0 ==> cluster::ring_of(nodes.push(node), default_vnodes)
            == model::after_add(
            cluster::ring_of(nodes, default_vnodes),
            node.address@,
            default_vnodes,
        ),
{
    assert(nodes.push(node).drop_last() =~= nodes);
}

/// A list of strings stands for its texts, in their order.
pub proof fn law_str_views(items: Seq<&str>, i: int)
    ensures
        hashring::str_views(items).len() == items.len(),
        0 <= i < items.len() ==> hashring::str_views(items)[i] == items[i]@,
{
}

/// The messages for requests that could not be passed on name what failed, the
/// node, and the detail if there is one, on a single line.
pub proof fn law_proxy_messages(target: Seq<char>, e: String)
    ensures
        cluster::proxy_message(ProxyFailure::ConnectTimeout, target) == "ERR connect timeout to "@
            + text::unbroken(target),
        cluster::proxy_message(ProxyFailure::ConnectError(e), target) == "ERR cannot connect to "@
            + text::unbroken(target + ": "@ + e@),
        cluster::proxy_message(ProxyFailure::WriteTimeout(e), target)
            == "ERR proxy write timeout to "@ + text::unbroken(target + ": "@ + e@),
        cluster::proxy_message(ProxyFailure::FlushTimeout(e), target)
            == "ERR proxy flush timeout to "@ + text::unbroken(target + ": "@ + e@),
        cluster::proxy_message(ProxyFailure::ReadTimeout, target)
            == "ERR proxy read timeout from "@ + text::unbroken(target),
        cluster::proxy_message(ProxyFailure::ReadError(e), target)
            == "ERR proxy read error from "@ + text::unbroken(target + ": "@ + e@),
{
}

} // verus!
