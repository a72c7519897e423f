//! A ring for consistent hashing, built on SHA-256: every node is represented by
//! a number of virtual nodes that are spread over the ring of 64-bit numbers.
use crate::cluster::model;
use crate::cluster::model::{Points, Ring};
use crate::text;
use sha2::{Digest, Sha256};
use vstd::prelude::*;
use vstd::slice::*;
use vstd::string::*;
use vstd::utf8::*;

verus! {

/// Calls `Sha256::digest`, which gives the 32 bytes of the SHA-256 digest. The
/// digest is named, not spelled out.
#[verifier::external_body]
fn sha256_digest(data: &[u8]) -> (r: Vec<u8>)
    ensures
        r@ == model::sha256(data@),
        r@.len() == 32,
{
    Sha256::digest(data).to_vec()
}

/// How many numbers `n` bytes can denote.
spec fn capacity(n: nat) -> nat
    decreases n,
{
    if n == 0 {
        1
    } else {
        256 * capacity((n - 1) as nat)
    }
}

/// The number that the last eight of 32 bytes denote.
pub fn low_bits(digest: &[u8]) -> (r: u64)
    requires
        digest@.len() == 32,
    ensures
        r == model::be_value(digest@.subrange(24, 32)),
{
    let ghost low = digest@.subrange(24, 32);
    let mut value: u64 = 0;
    let mut i: usize = 0;
    proof {
        assert(low.take(0) =~= Seq::<u8>::empty());
        reveal_with_fuel(capacity, 9);
        assert(capacity(8) == 0x1_0000_0000_0000_0000);
    }
    while i < 8
        invariant
            i <= 8,
            digest@.len() == 32,
            low == digest@.subrange(24, 32),
            capacity(8) == 0x1_0000_0000_0000_0000,
            value == model::be_value(low.take(i as int)),
            value < capacity(i as nat),
        decreases 8 - i,
    {
        proof {
            let next = low.take(i as int + 1);
            assert(next.drop_last() =~= low.take(i as int));
            assert(next.last() == digest@[24 + i]);
            reveal_with_fuel(capacity, 9);
            assert(256 * capacity(i as nat) <= capacity(8)) by {
                lemma_capacity(i as nat + 1, 8);
            }
        }
        value = value * 256 + digest[24 + i] as u64;
        i = i + 1;
    }
    assert(low.take(8) =~= low);
    value
}

/// More bytes denote more numbers.
proof fn lemma_capacity(m: nat, n: nat)
    requires
        m <= n,
    ensures
        1 <= capacity(m) <= capacity(n),
    decreases n,
{
    if m < n {
        lemma_capacity(m, (n - 1) as nat);
    } else if n > 0 {
        lemma_capacity((n - 1) as nat, (n - 1) as nat);
    }
}

/// The place of a key on the ring: the low 64 bits of its SHA-256 digest.
pub fn hash_key(data: &[u8]) -> (r: u64)
    ensures
        r == model::place(data@),
{
    let digest: Vec<u8> = sha256_digest(data);
    low_bits(digest.as_slice())
}

/// The place of a virtual node on the ring: the low 64 bits of the SHA-256
/// digest of the address, a colon, and the number of the virtual node.
pub fn hash_vnode(address: &str, index: u32) -> (r: u64)
    ensures
        r == model::vnode_place(address@, index),
{
    let mut data: Vec<u8> = slice_to_vec(address.as_bytes());
    data.push(58);
    data.push((index % 256) as u8);
    data.push((index / 256 % 256) as u8);
    data.push((index / 65536 % 256) as u8);
    data.push((index / 16777216 % 256) as u8);
    assert(data@ =~= model::vnode_bytes(address@, index));
    hash_key(data.as_slice())
}

/// A ring for consistent hashing.
#[derive(Debug)]
pub struct HashRing {
    /// The points in ascending order, each with the address of its node.
    ring: Vec<(u64, String)>,
    /// The addresses of the nodes.
    nodes: Vec<String>,
}

/// The points are in ascending order, and none occurs twice.
spec fn ascending(ring: Seq<(u64, String)>) -> bool {
    forall|i: int, j: int| 0 <= i < j < ring.len() ==> (#[trigger] ring[i]).0 < (
    #[trigger] ring[j]).0
}

/// Where a place stands in a list of points.
spec fn at(ring: Seq<(u64, String)>, i: int, h: u64) -> bool {
    0 <= i < ring.len() && ring[i].0 == h
}

/// The places of a list with the texts of their owners.
spec fn entries_of(ring: Seq<(u64, String)>) -> Seq<(u64, Seq<char>)> {
    ring.map_values(|e: (u64, String)| (e.0, e.1@))
}

/// Where a place stands in a list of places and owners.
spec fn entry_at(entries: Seq<(u64, Seq<char>)>, i: int, h: u64) -> bool {
    0 <= i < entries.len() && entries[i].0 == h
}

/// The points that a list stands for.
spec fn points_of(ring: Seq<(u64, String)>) -> Points {
    Map::new(
        |h: u64| exists|i: int| at(ring, i, h),
        |h: u64| entries_of(ring)[choose|i: int| entry_at(entries_of(ring), i, h)].1,
    )
}

/// Lists of the same places and owners stand for the same points.
proof fn lemma_same_points(a: Seq<(u64, String)>, b: Seq<(u64, String)>)
    requires
        entries_of(a) == entries_of(b),
    ensures
        points_of(a) == points_of(b),
{
    assert forall|i: int, h: u64| at(a, i, h) == at(b, i, h) by {
        assert(entries_of(a).len() == a.len() && entries_of(b).len() == b.len());
        if 0 <= i < a.len() {
            assert(entries_of(a)[i].0 == a[i].0 && entries_of(b)[i].0 == b[i].0);
        }
    }
    assert(points_of(a) =~= points_of(b));
}

/// The nodes that a list stands for.
spec fn nodes_of(nodes: Seq<String>) -> Seq<Seq<char>> {
    nodes.map_values(|s: String| s@)
}

/// A point in the list is a point of the ring.
proof fn lemma_point(ring: Seq<(u64, String)>, i: int)
    requires
        ascending(ring),
        0 <= i < ring.len(),
    ensures
        points_of(ring).contains_key(ring[i].0),
        points_of(ring)[ring[i].0] == ring[i].1@,
{
    let h = ring[i].0;
    let entries = entries_of(ring);
    assert(at(ring, i, h));
    assert(entry_at(entries, i, h));
    let j = choose|j: int| entry_at(entries, j, h);
    assert(entry_at(entries, j, h));
    assert(ring[j].0 == h && entries[j].1 == ring[j].1@);
    if i < j {
        assert(ring[i].0 < ring[j].0);
    }
    if j < i {
        assert(ring[j].0 < ring[i].0);
    }
}

/// The points of a list are finitely many, and none only if the list is empty.
proof fn lemma_points_finite(ring: Seq<(u64, String)>)
    requires
        ascending(ring),
    ensures
        points_of(ring).dom().finite(),
        points_of(ring).dom().len() == 0 <==> ring.len() == 0,
{
    let places = ring.map_values(|e: (u64, String)| e.0);
    vstd::seq_lib::seq_to_set_is_finite(places);
    assert forall|h: u64| points_of(ring).dom().contains(h) <==> places.to_set().contains(h) by {
        if points_of(ring).dom().contains(h) {
            let i = choose|i: int| at(ring, i, h);
            assert(places[i] == h);
        }
        if places.to_set().contains(h) {
            let i = choose|i: int| 0 <= i < places.len() && places[i] == h;
            assert(at(ring, i, h));
        }
    }
    assert(points_of(ring).dom() =~= places.to_set());
    if ring.len() > 0 {
        lemma_point(ring, 0);
        assert(points_of(ring).dom().contains(ring[0].0));
    } else {
        assert(points_of(ring).dom() =~= Set::<u64>::empty());
    }
}

/// The position of the first point at or behind `x`.
fn lower_bound(ring: &Vec<(u64, String)>, x: u64) -> (r: usize)
    requires
        ascending(ring@),
    ensures
        r <= ring@.len(),
        forall|i: int| 0 <= i < r ==> (#[trigger] ring@[i]).0 < x,
        forall|i: int| r <= i < ring@.len() ==> (#[trigger] ring@[i]).0 >= x,
{
    let mut low: usize = 0;
    let mut high: usize = ring.len();
    while low < high
        invariant
            low <= high <= ring@.len(),
            ascending(ring@),
            forall|i: int| 0 <= i < low ==> (#[trigger] ring@[i]).0 < x,
            forall|i: int| high <= i < ring@.len() ==> (#[trigger] ring@[i]).0 >= x,
        decreases high - low,
    {
        let mid: usize = low + (high - low) / 2;
        if ring[mid].0 < x {
            assert forall|i: int| 0 <= i < mid + 1 implies (#[trigger] ring@[i]).0 < x by {
                if i < mid {
                    assert(ring@[i].0 < ring@[mid as int].0);
                }
            }
            low = mid + 1;
        } else {
            assert forall|i: int| mid <= i < ring@.len() implies (#[trigger] ring@[i]).0 >= x by {
                if i > mid {
                    assert(ring@[mid as int].0 < ring@[i].0);
                }
            }
            high = mid;
        }
    }
    low
}

/// Puts a point on the ring; if there is one at that place, it changes hands.
fn insert_point(ring: &mut Vec<(u64, String)>, h: u64, address: &str)
    requires
        ascending(old(ring)@),
    ensures
        ascending(final(ring)@),
        points_of(final(ring)@) == points_of(old(ring)@).insert(h, address@),
{
    let ghost before = ring@;
    let pos: usize = lower_bound(ring, h);
    let owner: String = String::from_str(address);
    let ghost here = pos < before.len() && before[pos as int].0 == h;
    if pos < ring.len() && ring[pos].0 == h {
        ring.set(pos, (h, owner));
    } else {
        ring.insert(pos, (h, owner));
    }
    proof {
        let after = ring@;
        let add: int = if here {
            0
        } else {
            1
        };
        assert(after.len() == before.len() + add);
        assert forall|i: int, j: int| 0 <= i < j < after.len() implies (#[trigger] after[i]).0 < (
        #[trigger] after[j]).0 by {
            let a = if i <= pos {
                i
            } else {
                i - add
            };
            let b = if j <= pos {
                j
            } else {
                j - add
            };
            if i < pos {
                assert(after[i] == before[i]);
            }
            if i > pos {
                assert(after[i] == before[a]);
            }
            if j < pos {
                assert(after[j] == before[j]);
            }
            if j > pos {
                assert(after[j] == before[b]);
            }
            if i != pos && j != pos {
                assert(before[a].0 < before[b].0);
            }
        }
        let expected = points_of(before).insert(h, address@);
        assert(after[pos as int].0 == h && after[pos as int].1@ == address@);
        lemma_point(after, pos as int);
        assert forall|g: u64| points_of(after).contains_key(g) <==> expected.contains_key(g) by {
            if points_of(after).contains_key(g) {
                let i = choose|i: int| at(after, i, g);
                if i < pos {
                    assert(at(before, i, g));
                } else if i > pos {
                    assert(at(before, i - add, g));
                }
            }
            if points_of(before).contains_key(g) && g != h {
                let i = choose|i: int| at(before, i, g);
                if i < pos {
                    assert(at(after, i, g));
                } else {
                    assert(at(after, i + add, g));
                }
            }
        }
        assert forall|g: u64| #[trigger] points_of(after).contains_key(g) implies points_of(
            after,
        )[g] == expected[g] by {
            let i = choose|i: int| at(after, i, g);
            lemma_point(after, i);
            if i < pos {
                assert(after[i] == before[i]);
                lemma_point(before, i);
                assert(g != h);
            } else if i > pos {
                assert(after[i] == before[i - add]);
                lemma_point(before, i - add);
                assert(g != h) by {
                    assert(after[pos as int].0 < after[i].0);
                }
            }
        }
        assert(points_of(after) =~= expected);
    }
}

impl View for HashRing {
    type V = Ring;

    closed spec fn view(&self) -> Ring {
        Ring { points: points_of(self.ring@), nodes: nodes_of(self.nodes@).to_set() }
    }
}

impl Clone for HashRing {
    fn clone(&self) -> (r: Self)
        ensures
            r@ == self@,
            self.wf() ==> r.wf(),
    {
        let mut ring: Vec<(u64, String)> = Vec::new();
        let mut i: usize = 0;
        while i < self.ring.len()
            invariant
                i <= self.ring@.len(),
                ring@.len() == i,
                forall|j: int|
                    0 <= j < i ==> (#[trigger] ring@[j]).0 == self.ring@[j].0 && ring@[j].1@
                        == self.ring@[j].1@,
            decreases self.ring@.len() - i,
        {
            ring.push((self.ring[i].0, self.ring[i].1.clone()));
            i = i + 1;
        }
        let mut nodes: Vec<String> = Vec::new();
        let mut k: usize = 0;
        while k < self.nodes.len()
            invariant
                k <= self.nodes@.len(),
                nodes@.len() == k,
                forall|j: int| 0 <= j < k ==> (#[trigger] nodes@[j])@ == self.nodes@[j]@,
            decreases self.nodes@.len() - k,
        {
            nodes.push(self.nodes[k].clone());
            k = k + 1;
        }
        proof {
            assert(entries_of(ring@) =~= entries_of(self.ring@));
            lemma_same_points(ring@, self.ring@);
            assert(nodes_of(nodes@) =~= nodes_of(self.nodes@));
            if self.wf() {
                assert forall|a: int, b: int| 0 <= a < b < ring@.len() implies (
                #[trigger] ring@[a]).0 < (#[trigger] ring@[b]).0 by {
                    assert(self.ring@[a].0 < self.ring@[b].0);
                }
                assert forall|j: int| 0 <= j < ring@.len() implies nodes_of(nodes@).contains(
                    (#[trigger] ring@[j]).1@,
                ) by {
                    assert(nodes_of(self.nodes@).contains(self.ring@[j].1@));
                }
            }
        }
        HashRing { ring, nodes }
    }
}

impl HashRing {
    /// The points are in order, no node is listed twice, and every point is owned
    /// by one of the nodes.
    pub closed spec fn wf(&self) -> bool {
        &&& ascending(self.ring@)
        &&& nodes_of(self.nodes@).no_duplicates()
        &&& forall|i: int|
            0 <= i < self.ring@.len() ==> nodes_of(self.nodes@).contains(
                (#[trigger] self.ring@[i]).1@,
            )
    }

    /// An empty ring.
    pub fn new() -> (r: Self)
        ensures
            r.wf(),
            r@.points == Map::<u64, Seq<char>>::empty(),
            r@.nodes == Set::<Seq<char>>::empty(),
    {
        let r: HashRing = HashRing { ring: Vec::new(), nodes: Vec::new() };
        proof {
            assert(points_of(r.ring@) =~= Map::<u64, Seq<char>>::empty());
            assert(nodes_of(r.nodes@).to_set() =~= Set::<Seq<char>>::empty());
        }
        r
    }

    /// Is the address that of a node?
    fn position(&self, address: &str) -> (r: Option<usize>)
        ensures
            match r {
                Some(i) => i < self.nodes@.len() && self.nodes@[i as int]@ == address@,
                None => !nodes_of(self.nodes@).contains(address@),
            },
    {
        let mut i: usize = 0;
        while i < self.nodes.len()
            invariant
                i <= self.nodes@.len(),
                forall|j: int| 0 <= j < i ==> nodes_of(self.nodes@)[j] != address@,
            decreases self.nodes@.len() - i,
        {
            if text::text_equal(self.nodes[i].as_str(), address) {
                return Some(i);
            }
            assert(nodes_of(self.nodes@)[i as int] == self.nodes@[i as int]@);
            i = i + 1;
        }
        None
    }

    /// Adds a node at the given places of the ring.
    pub fn add_node_at(&mut self, address: &str, places: &[u64])
        requires
            old(self).wf(),
        ensures
            final(self).wf(),
            final(self)@ == model::after_add_at(old(self)@, address@, places@),
    {
        let ghost nodes = nodes_of(self.nodes@);
        let ghost start = points_of(self.ring@);
        let known: Option<usize> = self.position(address);
        if known.is_none() {
            self.nodes.push(String::from_str(address));
        }
        let ghost all = nodes_of(self.nodes@);
        proof {
            if known is None {
                assert(all =~= nodes.push(address@));
                nodes.lemma_push_to_set_commute(address@);
                assert(all[nodes.len() as int] == address@);
            } else {
                assert(nodes[known->0 as int] == address@);
                assert(nodes.to_set().insert(address@) =~= nodes.to_set());
            }
            assert forall|h: u64| #[trigger] start.contains_key(h) implies all.contains(
                start[h],
            ) by {
                let i = choose|i: int| at(self.ring@, i, h);
                lemma_point(self.ring@, i);
                assert(nodes.contains(self.ring@[i].1@));
                let j = choose|j: int| 0 <= j < nodes.len() && nodes[j] == self.ring@[i].1@;
                assert(all[j] == nodes[j]);
            }
            assert(places@.take(0) =~= Seq::<u64>::empty());
            assert(model::points_with(start, address@, places@.take(0)) =~= start);
        }
        let mut i: usize = 0;
        while i < places.len()
            invariant
                i <= places@.len(),
                ascending(self.ring@),
                nodes_of(self.nodes@) == all,
                points_of(self.ring@) == model::points_with(
                    start,
                    address@,
                    places@.take(i as int),
                ),
            decreases places@.len() - i,
        {
            insert_point(&mut self.ring, places[i], address);
            proof {
                lemma_add_place(start, address@, places@, i as int);
            }
            i = i + 1;
        }
        proof {
            assert(places@.take(places@.len() as int) =~= places@);
            assert forall|k: int| 0 <= k < self.ring@.len() implies all.contains(
                (#[trigger] self.ring@[k]).1@,
            ) by {
                lemma_point(self.ring@, k);
                let h = self.ring@[k].0;
                if !places@.contains(h) {
                    assert(start.contains_key(h));
                } else if known is Some {
                    assert(all[known->0 as int] == address@);
                } else {
                    assert(all[nodes.len() as int] == address@);
                }
            }
        }
    }

    /// Adds a node with `num_vnodes` virtual nodes.
    pub fn add_node(&mut self, address: &str, num_vnodes: u32)
        requires
            old(self).wf(),
        ensures
            final(self).wf(),
            final(self)@ == model::after_add(old(self)@, address@, num_vnodes),
    {
        let mut places: Vec<u64> = Vec::new();
        let mut i: u32 = 0;
        while i < num_vnodes
            invariant
                i <= num_vnodes,
                places@.len() == i,
                forall|j: int| 0 <= j < i ==> places@[j] == model::vnode_place(address@, j as u32),
            decreases num_vnodes - i,
        {
            places.push(hash_vnode(address, i));
            i = i + 1;
        }
        assert(places@ =~= model::vnode_places(address@, num_vnodes));
        self.add_node_at(address, places.as_slice());
    }

    /// Removes a node and all its virtual nodes.
    pub fn remove_node(&mut self, address: &str)
        requires
            old(self).wf(),
        ensures
            final(self).wf(),
            final(self)@ == model::after_remove(old(self)@, address@),
    {
        let ghost nodes = nodes_of(self.nodes@);
        let ghost start = points_of(self.ring@);
        match self.position(address) {
            None => {
                proof {
                    assert(!nodes.to_set().contains(address@));
                    assert(nodes.to_set().remove(address@) =~= nodes.to_set());
                    assert forall|h: u64| #[trigger] start.contains_key(h) implies start[h]
                        != address@ by {
                        let i = choose|i: int| at(self.ring@, i, h);
                        lemma_point(self.ring@, i);
                        assert(nodes.contains(self.ring@[i].1@));
                    }
                    assert(model::points_without(start, address@) =~= start);
                }
            },
            Some(pos) => {
                let rest: Vec<(u64, String)> = without(&self.ring, address);
                self.ring = rest;
                self.nodes.remove(pos);
                proof {
                    let left = nodes_of(self.nodes@);
                    assert(left =~= nodes.remove(pos as int));
                    assert forall|a: Seq<char>| left.contains(a) <==> nodes.contains(a) && a
                        != address@ by {
                        if left.contains(a) {
                            let i = choose|i: int| 0 <= i < left.len() && left[i] == a;
                            let j = if i < pos {
                                i
                            } else {
                                i + 1
                            };
                            assert(nodes[j] == a);
                            assert(nodes[j] != nodes[pos as int]);
                        }
                        if nodes.contains(a) && a != address@ {
                            let j = choose|j: int| 0 <= j < nodes.len() && nodes[j] == a;
                            let i = if j < pos {
                                j
                            } else {
                                j - 1
                            };
                            assert(left[i] == a);
                        }
                    }
                    assert forall|i: int, j: int|
                        0 <= i < left.len() && 0 <= j < left.len() && i != j implies left[i]
                        != left[j] by {
                        let a = if i < pos {
                            i
                        } else {
                            i + 1
                        };
                        let b = if j < pos {
                            j
                        } else {
                            j + 1
                        };
                        assert(nodes[a] != nodes[b]);
                    }
                    assert(left.to_set() =~= nodes.to_set().remove(address@));
                    assert forall|k: int| 0 <= k < self.ring@.len() implies left.contains(
                        (#[trigger] self.ring@[k]).1@,
                    ) by {
                        lemma_point(self.ring@, k);
                        let h = self.ring@[k].0;
                        assert(start.contains_key(h));
                        let i = choose|i: int| at(old(self).ring@, i, h);
                        lemma_point(old(self).ring@, i);
                        assert(nodes.contains(old(self).ring@[i].1@));
                    }
                }
            },
        }
    }

    /// The address of the node that owns a place: the owner of the first virtual
    /// node at or behind it, going round the ring.
    pub fn node_at(&self, place: u64) -> (r: Option<&str>)
        requires
            self.wf(),
        ensures
            match model::owner(self@.points, place) {
                Some(address) => r matches Some(a) && a@ == address,
                None => r is None,
            },
    {
        proof {
            lemma_points_finite(self.ring@);
        }
        if self.ring.len() == 0 {
            proof {
                assert forall|h: u64| !model::is_next(self@.points, place, h) by {
                    assert(!self@.points.dom().contains(h));
                }
            }
            return None;
        }
        let found: usize = lower_bound(&self.ring, place);
        let pos: usize = if found < self.ring.len() {
            found
        } else {
            0
        };
        proof {
            let h = self.ring@[pos as int].0;
            lemma_point(self.ring@, pos as int);
            assert forall|g: u64| #[trigger] self@.points.contains_key(g) implies {
                if found < self.ring@.len() {
                    g >= place ==> h <= g
                } else {
                    h <= g < place
                }
            } by {
                let i = choose|i: int| at(self.ring@, i, g);
                assert(self.ring@[i].0 == g);
                if pos < i {
                    assert(self.ring@[pos as int].0 < self.ring@[i].0);
                }
            }
            assert(model::is_next(self@.points, place, h));
            model::lemma_owner(self@.points, place, h);
        }
        Some(self.ring[pos].1.as_str())
    }

    /// The address of the node that is responsible for a key.
    pub fn get_node(&self, key: &[u8]) -> (r: Option<&str>)
        requires
            self.wf(),
        ensures
            match model::owner(self@.points, model::place(key@)) {
                Some(address) => r matches Some(a) && a@ == address,
                None => r is None,
            },
    {
        self.node_at(hash_key(key))
    }

    /// How many nodes there are.
    pub fn len(&self) -> (r: usize)
        requires
            self.wf(),
        ensures
            r == self@.nodes.len(),
    {
        proof {
            nodes_of(self.nodes@).unique_seq_to_set();
        }
        self.nodes.len()
    }

    /// Are there no nodes?
    pub fn is_empty(&self) -> (r: bool)
        requires
            self.wf(),
        ensures
            r == (self@.nodes == Set::<Seq<char>>::empty()),
    {
        proof {
            let nodes = nodes_of(self.nodes@);
            if nodes.len() > 0 {
                assert(nodes.to_set().contains(nodes[0]));
            } else {
                assert(nodes.to_set() =~= Set::<Seq<char>>::empty());
            }
        }
        self.nodes.len() == 0
    }

    /// The addresses of all nodes, each once, in no particular order.
    pub fn addresses(&self) -> (r: Vec<&str>)
        requires
            self.wf(),
        ensures
            str_views(r@).no_duplicates(),
            str_views(r@).to_set() == self@.nodes,
    {
        let mut out: Vec<&str> = Vec::new();
        let mut i: usize = 0;
        while i < self.nodes.len()
            invariant
                i <= self.nodes@.len(),
                out@.len() == i,
                forall|j: int| 0 <= j < i ==> #[trigger] out@[j]@ == self.nodes@[j]@,
            decreases self.nodes@.len() - i,
        {
            out.push(self.nodes[i].as_str());
            i = i + 1;
        }
        assert(str_views(out@) =~= nodes_of(self.nodes@));
        out
    }
}

/// The texts that a list of strings stands for.
pub open spec fn str_views(items: Seq<&str>) -> Seq<Seq<char>> {
    items.map_values(|s: &str| s@)
}

/// The points of one more place.
proof fn lemma_add_place(p: Points, address: Seq<char>, places: Seq<u64>, i: int)
    requires
        0 <= i < places.len(),
    ensures
        model::points_with(p, address, places.take(i + 1)) == model::points_with(
            p,
            address,
            places.take(i),
        ).insert(places[i], address),
{
    let a = places.take(i);
    let b = places.take(i + 1);
    assert forall|g: u64| b.contains(g) <==> a.contains(g) || g == places[i] by {
        if b.contains(g) {
            let k = choose|k: int| 0 <= k < b.len() && b[k] == g;
            if k < i {
                assert(a[k] == g);
            }
        }
        if a.contains(g) {
            let k = choose|k: int| 0 <= k < a.len() && a[k] == g;
            assert(b[k] == g);
        }
        if g == places[i] {
            assert(b[i] == g);
        }
    }
    assert(model::points_with(p, address, b) =~= model::points_with(p, address, a).insert(
        places[i],
        address,
    ));
}

/// The points that are not owned by a node.
fn without(ring: &Vec<(u64, String)>, address: &str) -> (r: Vec<(u64, String)>)
    requires
        ascending(ring@),
    ensures
        ascending(r@),
        points_of(r@) == model::points_without(points_of(ring@), address@),
{
    let mut out: Vec<(u64, String)> = Vec::new();
    let mut i: usize = 0;
    while i < ring.len()
        invariant
            i <= ring@.len(),
            ascending(ring@),
            ascending(out@),
            forall|k: int|
                0 <= k < out@.len() ==> exists|j: int|
                    0 <= j < i && ring@[j].0 == (#[trigger] out@[k]).0 && ring@[j].1@ == out@[k].1@
                        && out@[k].1@ != address@,
            forall|j: int|
                0 <= j < i && (#[trigger] ring@[j]).1@ != address@ ==> exists|k: int|
                    at(out@, k, ring@[j].0),
        decreases ring@.len() - i,
    {
        let ghost before = out@;
        if !text::text_equal(ring[i].1.as_str(), address) {
            out.push((ring[i].0, ring[i].1.clone()));
            proof {
                assert forall|a: int, b: int| 0 <= a < b < out@.len() implies (
                #[trigger] out@[a]).0 < (#[trigger] out@[b]).0 by {
                    assert(out@[a] == before[a]);
                    if b < before.len() {
                        assert(before[a].0 < before[b].0);
                    } else {
                        let j = choose|j: int|
                            0 <= j < i && ring@[j].0 == before[a].0 && ring@[j].1@ == before[a].1@
                                && before[a].1@ != address@;
                        assert(ring@[j].0 < ring@[i as int].0);
                    }
                }
                assert(at(out@, before.len() as int, ring@[i as int].0));
            }
        }
        proof {
            assert forall|k: int| 0 <= k < out@.len() implies exists|j: int|
                0 <= j < i + 1 && ring@[j].0 == (#[trigger] out@[k]).0 && ring@[j].1@
                    == out@[k].1@ && out@[k].1@ != address@ by {
                if k < before.len() {
                    assert(out@[k] == before[k]);
                    let j = choose|j: int|
                        0 <= j < i && ring@[j].0 == before[k].0 && ring@[j].1@ == before[k].1@
                            && before[k].1@ != address@;
                    assert(ring@[j].0 == out@[k].0);
                } else {
                    assert(ring@[i as int].0 == out@[k].0);
                }
            }
            assert forall|j: int| 0 <= j < i + 1 && (#[trigger] ring@[j]).1@ != address@ implies
                exists|k: int| at(out@, k, ring@[j].0) by {
                if j < i {
                    let k = choose|k: int| at(before, k, ring@[j].0);
                    assert(at(out@, k, ring@[j].0));
                }
            }
        }
        i = i + 1;
    }
    proof {
        let p = points_of(ring@);
        let q = model::points_without(p, address@);
        assert forall|h: u64| points_of(out@).contains_key(h) <==> q.contains_key(h) by {
            if points_of(out@).contains_key(h) {
                let k = choose|k: int| at(out@, k, h);
                let j = choose|j: int|
                    0 <= j < ring@.len() && ring@[j].0 == out@[k].0 && ring@[j].1@ == out@[k].1@
                        && out@[k].1@ != address@;
                lemma_point(ring@, j);
            }
            if q.contains_key(h) {
                let j = choose|j: int| at(ring@, j, h);
                lemma_point(ring@, j);
                assert(ring@[j].1@ != address@);
            }
        }
        assert forall|h: u64| #[trigger] points_of(out@).contains_key(h) implies points_of(
            out@,
        )[h] == q[h] by {
            let k = choose|k: int| at(out@, k, h);
            lemma_point(out@, k);
            let j = choose|j: int|
                0 <= j < ring@.len() && ring@[j].0 == out@[k].0 && ring@[j].1@ == out@[k].1@
                    && out@[k].1@ != address@;
            lemma_point(ring@, j);
        }
        assert(points_of(out@) =~= q);
    }
    out
}

impl HashRing {
    /// A ring has finitely many points, and each is owned by one of its nodes.
    pub proof fn law_points_owned(&self)
        requires
            self.wf(),
        ensures
            model::valid(self@),
    {
        lemma_points_finite(self.ring@);
        let nodes = nodes_of(self.nodes@);
        assert forall|h: u64| #[trigger] self@.points.contains_key(h) implies self@.nodes.contains(
            self@.points[h],
        ) by {
            let i = choose|i: int| at(self.ring@, i, h);
            lemma_point(self.ring@, i);
            assert(nodes.contains(self.ring@[i].1@));
        }
    }
}

impl Default for HashRing {
    fn default() -> (r: Self)
        ensures
            r.wf(),
            r@.points == Map::<u64, Seq<char>>::empty(),
            r@.nodes == Set::<Seq<char>>::empty(),
    {
        Self::new()
    }
}

} // verus!
