//! The mathematical model of consistent hashing: points on a ring of 64-bit
//! numbers, each owned by a node.
use vstd::prelude::*;
use vstd::utf8::*;

verus! {

/// The SHA-256 digest of a byte string.
pub uninterp spec fn sha256(data: Seq<u8>) -> Seq<u8>;

/// The number that bytes denote, most significant first.
pub open spec fn be_value(s: Seq<u8>) -> nat
    decreases s.len(),
{
    if s.len() == 0 {
        0
    } else {
        be_value(s.drop_last()) * 256 + s.last() as nat
    }
}

/// The four bytes of a number, least significant first.
pub open spec fn le_bytes(n: u32) -> Seq<u8> {
    seq![
        (n % 256) as u8,
        (n / 256 % 256) as u8,
        (n / 65536 % 256) as u8,
        (n / 16777216 % 256) as u8,
    ]
}

/// The place of a byte string on the ring: the low 64 bits of its digest.
pub open spec fn place(data: Seq<u8>) -> u64 {
    be_value(sha256(data).subrange(24, 32)) as u64
}

/// What is hashed for a virtual node: the address, a colon, and its number.
pub open spec fn vnode_bytes(address: Seq<char>, index: u32) -> Seq<u8> {
    encode_utf8(address) + seq![58u8] + le_bytes(index)
}

/// The place of a virtual node on the ring.
pub open spec fn vnode_place(address: Seq<char>, index: u32) -> u64 {
    place(vnode_bytes(address, index))
}

/// The points of a ring: places with the nodes that own them.
pub type Points = Map<u64, Seq<char>>;

/// A ring: its points, and the nodes that were added, with or without points.
#[verifier::ext_equal]
pub struct Ring {
    pub points: Points,
    pub nodes: Set<Seq<char>>,
}

/// A ring has finitely many points, and each is owned by one of its nodes.
pub open spec fn valid(r: Ring) -> bool {
    &&& r.points.dom().finite()
    &&& forall|h: u64| #[trigger] r.points.contains_key(h) ==> r.nodes.contains(r.points[h])
}

/// The places of the first `n` virtual nodes of an address.
pub open spec fn vnode_places(address: Seq<char>, n: u32) -> Seq<u64> {
    Seq::new(n as nat, |i: int| vnode_place(address, i as u32))
}

/// The points after a node took some places: it owns them, whoever owned them
/// before.
pub open spec fn points_with(p: Points, address: Seq<char>, places: Seq<u64>) -> Points {
    Map::new(
        |h: u64| p.contains_key(h) || places.contains(h),
        |h: u64|
            if places.contains(h) {
                address
            } else {
                p[h]
            },
    )
}

/// The points after a node was removed: all it owned are gone.
pub open spec fn points_without(p: Points, address: Seq<char>) -> Points {
    Map::new(|h: u64| p.contains_key(h) && p[h] != address, |h: u64| p[h])
}

/// The ring after a node was added at the given places.
pub open spec fn after_add_at(r: Ring, address: Seq<char>, places: Seq<u64>) -> Ring {
    Ring { points: points_with(r.points, address, places), nodes: r.nodes.insert(address) }
}

/// The ring after a node was added with `n` virtual nodes.
pub open spec fn after_add(r: Ring, address: Seq<char>, n: u32) -> Ring {
    after_add_at(r, address, vnode_places(address, n))
}

/// The ring after a node was removed.
pub open spec fn after_remove(r: Ring, address: Seq<char>) -> Ring {
    Ring { points: points_without(r.points, address), nodes: r.nodes.remove(address) }
}

/// Is `h` the first point at or behind `x`, going round the ring?
pub open spec fn is_next(p: Points, x: u64, h: u64) -> bool {
    &&& p.contains_key(h)
    &&& if h >= x {
        forall|g: u64| #[trigger] p.contains_key(g) && g >= x ==> h <= g
    } else {
        forall|g: u64| #[trigger] p.contains_key(g) ==> h <= g < x
    }
}

/// The node that owns the place `x`: the owner of the first point at or behind
/// it, going round the ring. Without points there is none.
pub open spec fn owner(p: Points, x: u64) -> Option<Seq<char>> {
    if exists|h: u64| is_next(p, x, h) {
        Some(p[choose|h: u64| is_next(p, x, h)])
    } else {
        None
    }
}

/// The node that a request for the place `x` is passed on to by the node at
/// `current`, if it is part of a cluster and does not own the place.
pub open spec fn route(enabled: bool, p: Points, current: Seq<char>, x: u64) -> Option<Seq<char>> {
    match owner(p, x) {
        Some(a) => if enabled && a != current {
            Some(a)
        } else {
            None
        },
        None => None,
    }
}

/// There is only one first point.
pub proof fn lemma_owner(p: Points, x: u64, h: u64)
    requires
        is_next(p, x, h),
    ensures
        owner(p, x) == Some(p[h]),
{
    let g = choose|g: u64| is_next(p, x, g);
    assert(is_next(p, x, g));
    assert(p.contains_key(g) && p.contains_key(h));
    assert(g == h);
}

/// A ring with finitely many points, but not none, has a first point at or
/// behind every place.
pub proof fn lemma_next_exists(p: Points, x: u64)
    requires
        p.dom().finite(),
        p.dom().len() > 0,
    ensures
        exists|h: u64| is_next(p, x, h),
{
    let behind = p.dom().filter(|g: u64| g >= x);
    if behind.len() > 0 {
        let h = lemma_least(behind);
        assert(behind.contains(h));
        assert forall|g: u64| #[trigger] p.contains_key(g) && g >= x implies h <= g by {
            assert(behind.contains(g));
        }
        assert(is_next(p, x, h));
    } else {
        let h = lemma_least(p.dom());
        assert forall|g: u64| #[trigger] p.contains_key(g) implies h <= g < x by {
            assert(p.dom().contains(g));
            if g >= x {
                assert(behind.contains(g));
            }
        }
        assert(p.dom().contains(h));
        assert(p.contains_key(h));
        assert(is_next(p, x, h));
    }
}

/// The least of finitely many numbers.
proof fn lemma_least(s: Set<u64>) -> (h: u64)
    requires
        s.finite(),
        s.len() > 0,
    ensures
        s.contains(h),
        forall|g: u64| #[trigger] s.contains(g) ==> h <= g,
    decreases s.len(),
{
    let a = s.choose();
    let rest = s.remove(a);
    if rest.len() == 0 {
        assert forall|g: u64| #[trigger] s.contains(g) implies a <= g by {
            if g != a {
                assert(rest.contains(g));
            }
        }
        a
    } else {
        let b = lemma_least(rest);
        let h = if a <= b {
            a
        } else {
            b
        };
        assert forall|g: u64| #[trigger] s.contains(g) implies h <= g by {
            if g != a {
                assert(rest.contains(g));
            }
        }
        h
    }
}

} // verus!
