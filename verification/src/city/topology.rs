use vstd::prelude::*;
use std::collections::HashMap;

use crate::city::ids::{new_id, ElementId};

verus! {

/// Whether a street leaves or enters an intersection.
#[derive(Clone, Copy, PartialEq, Eq, Debug, Structural)]
pub enum Direction {
    In,
    Out,
}

/// A side of a street, seen in its direction.
#[derive(Clone, Copy, PartialEq, Eq, Debug, Structural)]
pub enum Side {
    Left,
    Right,
}

impl Side {
    /// The other side.
    pub open spec fn opposite_spec(self) -> Side {
        match self {
            Side::Left => Side::Right,
            Side::Right => Side::Left,
        }
    }

    /// The other side.
    pub fn opposite(self) -> (r: Side)
        ensures
            r == self.opposite_spec(),
    {
        match self {
            Side::Left => Side::Right,
            Side::Right => Side::Left,
        }
    }
}

/// A street connected to an intersection, and whether it leaves or enters it.
pub type Connection = (Direction, ElementId);

/// `i` is the first connection of `s` to street `street`.
pub open spec fn first_connection(s: Seq<Connection>, street: ElementId, i: int) -> bool {
    &&& 0 <= i < s.len()
    &&& s[i].1 == street
    &&& forall|j: int| 0 <= j < i ==> (#[trigger] s[j]).1 != street
}

/// Whether `s` connects street `street`.
pub open spec fn connects(s: Seq<Connection>, street: ElementId) -> bool {
    exists|i: int| 0 <= i < s.len() && (#[trigger] s[i]).1 == street
}

/// The connections without the first one to `street` (unchanged where there
/// is none).
pub open spec fn spec_remove_connection(s: Seq<Connection>, street: ElementId) -> Seq<Connection> {
    if exists|i: int| first_connection(s, street, i) {
        s.remove(choose|i: int| first_connection(s, street, i))
    } else {
        s
    }
}

/// The streets that meet at an intersection, in the order in which they are
/// arranged around it.
pub struct IntersectionLinks {
    pub id: ElementId,
    pub connected_streets: Vec<Connection>,
}

impl View for IntersectionLinks {
    type V = Seq<Connection>;

    open spec fn view(&self) -> Seq<Connection> {
        self.connected_streets@
    }
}

impl IntersectionLinks {
    /// An intersection without streets.
    pub fn new(id: ElementId) -> (r: Self)
        ensures
            r.id == id,
            r@ == Seq::<Connection>::empty(),
    {
        IntersectionLinks { id, connected_streets: Vec::new() }
    }

    /// An intersection without streets, under a newly drawn identifier.
    pub fn new_random() -> (r: Self)
        ensures
            r@ == Seq::<Connection>::empty(),
            crate::city::ids::is_random_uuid(r.id),
    {
        IntersectionLinks::new(new_id())
    }

    /// Removes the first connection to `street`; nothing changes where
    /// there is none.
    pub fn remove_connected_street(&mut self, street: ElementId)
        ensures
            final(self).id == old(self).id,
            final(self)@ == spec_remove_connection(old(self)@, street),
    {
        let ghost s = self@;
        let mut i: usize = 0;
        while i < self.connected_streets.len()
            invariant
                s == self@,
                s == old(self)@,
                self.id == old(self).id,
                i <= s.len(),
                forall|j: int| 0 <= j < i ==> (#[trigger] s[j]).1 != street,
            decreases s.len() - i,
        {
            if self.connected_streets[i].1 == street {
                proof {
                    assert(first_connection(s, street, i as int));
                    let c = choose|c: int| first_connection(s, street, c);
                    if c < i {
                    } else if c > i {
                        assert(s[i as int].1 == street);
                    }
                    assert(c == i);
                }
                self.connected_streets.remove(i);
                return;
            }
            i = i + 1;
        }
    }

    /// Connects a street that enters the intersection.
    pub fn add_incoming_street(&mut self, street: ElementId)
        ensures
            final(self).id == old(self).id,
            final(self)@ == old(self)@.push((Direction::In, street)),
    {
        self.connected_streets.push((Direction::In, street));
    }

    /// Connects a street that leaves the intersection.
    pub fn add_outgoing_street(&mut self, street: ElementId)
        ensures
            final(self).id == old(self).id,
            final(self)@ == old(self)@.push((Direction::Out, street)),
    {
        self.connected_streets.push((Direction::Out, street));
    }

    /// The connected streets, in their order around the intersection.
    pub fn get_connected_streets(&self) -> (r: &Vec<Connection>)
        ensures
            r@ == self@,
    {
        &self.connected_streets
    }

    /// Rearranges the connections: the `k`-th becomes the one that was at
    /// `order[k]`. The order is refused (false, nothing changes) unless it
    /// is a permutation of the positions.
    pub fn set_order(&mut self, order: &Vec<usize>) -> (r: bool)
        ensures
            r == is_permutation(order@, old(self)@.len()),
            final(self).id == old(self).id,
            r ==> final(self)@ == permuted(old(self)@, order@),
            !r ==> final(self)@ == old(self)@,
    {
        let n = self.connected_streets.len();
        if !check_permutation(order, n) {
            return false;
        }
        let ghost s = self@;
        let mut v: Vec<Connection> = Vec::new();
        let mut k: usize = 0;
        while k < n
            invariant
                s == self@,
                n == s.len(),
                order@.len() == n,
                is_permutation(order@, n as nat),
                k <= n,
                v@ == permuted(s, order@).take(k as int),
            decreases n - k,
        {
            let c = self.connected_streets[order[k]];
            v.push(c);
            assert(v@ =~= permuted(s, order@).take(k + 1));
            k = k + 1;
        }
        assert(v@ =~= permuted(s, order@));
        self.connected_streets = v;
        true
    }
}

/// A copy of the connections.
fn copy_connections(v: &Vec<Connection>) -> (r: Vec<Connection>)
    ensures
        r@ == v@,
{
    let mut r: Vec<Connection> = Vec::new();
    let mut k: usize = 0;
    while k < v.len()
        invariant
            k <= v.len(),
            r@ == v@.take(k as int),
        decreases v.len() - k,
    {
        r.push(v[k]);
        assert(r@ =~= v@.take(k + 1));
        k = k + 1;
    }
    assert(r@ =~= v@);
    r
}

/// `order` lists each of the positions `0..n` once.
pub open spec fn is_permutation(order: Seq<usize>, n: nat) -> bool {
    &&& order.len() == n
    &&& forall|k: int| 0 <= k < order.len() ==> (#[trigger] order[k]) < n
    &&& forall|a: int, b: int| 0 <= a < b < order.len() ==> #[trigger] order[a] != #[trigger] order[b]
}

/// `s` rearranged by `order`.
pub open spec fn permuted<A>(s: Seq<A>, order: Seq<usize>) -> Seq<A> {
    Seq::new(order.len(), |k: int| s[order[k] as int])
}

fn check_permutation(order: &Vec<usize>, n: usize) -> (r: bool)
    ensures
        r == is_permutation(order@, n as nat),
{
    if order.len() != n {
        return false;
    }
    let mut seen: Vec<bool> = Vec::new();
    let mut j: usize = 0;
    while j < n
        invariant
            j <= n,
            seen@.len() == j,
            forall|x: int| 0 <= x < j ==> !(#[trigger] seen@[x]),
        decreases n - j,
    {
        seen.push(false);
        j = j + 1;
    }
    let mut k: usize = 0;
    while k < n
        invariant
            order@.len() == n,
            seen@.len() == n,
            k <= n,
            forall|a: int| 0 <= a < k ==> (#[trigger] order@[a]) < n,
            forall|a: int, b: int| 0 <= a < b < k ==> #[trigger] order@[a] != #[trigger] order@[b],
            forall|x: int| 0 <= x < n ==> (#[trigger] seen@[x] <==> exists|a: int| 0 <= a < k && order@[a] == x),
        decreases n - k,
    {
        let o = order[k];
        if o >= n {
            return false;
        }
        if seen[o] {
            proof {
                let a = choose|a: int| 0 <= a < k && order@[a] == o;
                assert(order@[a] == order@[k as int]);
            }
            return false;
        }
        let ghost old_seen = seen@;
        seen.set(o, true);
        proof {
            assert forall|x: int| 0 <= x < n implies (#[trigger] seen@[x] <==> exists|a: int| 0 <= a < k + 1 && order@[a] == x) by {
                if x == o as int {
                    assert(order@[k as int] == x);
                } else {
                    assert(seen@[x] == old_seen[x]);
                    if exists|a: int| 0 <= a < k + 1 && order@[a] == x {
                        let a = choose|a: int| 0 <= a < k + 1 && order@[a] == x;
                        assert(a != k);
                    }
                }
            }
            assert forall|a: int, b: int| 0 <= a < b < k + 1 implies #[trigger] order@[a] != #[trigger] order@[b] by {
                if b == k as int {
                    if order@[a] == order@[b] {
                        assert(old_seen[o as int]);
                    }
                }
            }
        }
        k = k + 1;
    }
    true
}

/// How a street is linked into the map: the intersections where it starts
/// and ends, and its neighbours around those intersections on either side.
#[derive(Clone, Copy, PartialEq, Eq, Debug, Structural)]
pub struct StreetLinks {
    pub id: ElementId,
    pub start: ElementId,
    pub end: ElementId,
    pub left_next: Option<ElementId>,
    pub right_next: Option<ElementId>,
    pub left_previous: Option<ElementId>,
    pub right_previous: Option<ElementId>,
}

impl StreetLinks {
    /// A street between two intersections, without neighbours yet.
    pub fn new(id: ElementId, start: ElementId, end: ElementId) -> (r: Self)
        ensures
            r == (StreetLinks {
                id,
                start,
                end,
                left_next: None,
                right_next: None,
                left_previous: None,
                right_previous: None,
            }),
    {
        StreetLinks { id, start, end, left_next: None, right_next: None, left_previous: None, right_previous: None }
    }

    /// The street's id.
    pub fn id(&self) -> (r: ElementId)
        ensures
            r == self.id,
    {
        self.id
    }

    /// Sets the neighbour on `side` around the start intersection.
    pub fn set_previous(&mut self, side: Side, street: Option<ElementId>)
        ensures
            *final(self) == (match side {
                Side::Left => StreetLinks { left_previous: street, ..*old(self) },
                Side::Right => StreetLinks { right_previous: street, ..*old(self) },
            }),
    {
        match side {
            Side::Left => self.left_previous = street,
            Side::Right => self.right_previous = street,
        }
    }

    /// The neighbour on `side` around the start intersection.
    pub fn get_previous(&self, side: Side) -> (r: Option<ElementId>)
        ensures
            r == spec_previous(*self, side),
    {
        match side {
            Side::Left => self.left_previous,
            Side::Right => self.right_previous,
        }
    }

    /// Sets the neighbour on `side` around the end intersection.
    pub fn set_next(&mut self, side: Side, street: Option<ElementId>)
        ensures
            *final(self) == (match side {
                Side::Left => StreetLinks { left_next: street, ..*old(self) },
                Side::Right => StreetLinks { right_next: street, ..*old(self) },
            }),
    {
        match side {
            Side::Left => self.left_next = street,
            Side::Right => self.right_next = street,
        }
    }

    /// The neighbour on `side` around the end intersection.
    pub fn get_next(&self, side: Side) -> (r: Option<ElementId>)
        ensures
            r == spec_next(*self, side),
    {
        match side {
            Side::Left => self.left_next,
            Side::Right => self.right_next,
        }
    }
}

/// The neighbour of a street on `side` around its start.
pub open spec fn spec_previous(s: StreetLinks, side: Side) -> Option<ElementId> {
    match side {
        Side::Left => s.left_previous,
        Side::Right => s.right_previous,
    }
}

/// The neighbour of a street on `side` around its end.
pub open spec fn spec_next(s: StreetLinks, side: Side) -> Option<ElementId> {
    match side {
        Side::Left => s.left_next,
        Side::Right => s.right_next,
    }
}

/// The mathematical value of an intersection.
pub struct IntersectionView {
    pub id: ElementId,
    pub connections: Seq<Connection>,
}

/// The mathematical value of the street graph.
pub struct GraphView {
    pub streets: Map<ElementId, StreetLinks>,
    pub intersections: Map<ElementId, IntersectionView>,
}

/// `street` occurs exactly once among the connections `s`.
pub open spec fn connected_once(s: Seq<Connection>, street: ElementId) -> bool {
    exists|i: int| 0 <= i < s.len() && s[i].1 == street && forall|j: int| 0 <= j < s.len() && j != i ==> (#[trigger] s[j]).1 != street
}

/// The consistency of streets and intersections that every map operation
/// keeps: elements are stored under their own ids; each street joins two
/// distinct existing intersections and is connected exactly once at each of
/// them; each connection names an existing street that starts (leaving) or
/// ends (entering) there.
pub open spec fn graph_wf(g: GraphView) -> bool {
    &&& forall|k: ElementId| #[trigger] g.streets.contains_key(k) ==> g.streets[k].id == k
    &&& forall|k: ElementId| #[trigger] g.intersections.contains_key(k) ==> g.intersections[k].id == k
    &&& forall|k: ElementId| #[trigger] g.streets.contains_key(k) ==> {
        let s = g.streets[k];
        &&& s.start != s.end
        &&& g.intersections.contains_key(s.start)
        &&& g.intersections.contains_key(s.end)
        &&& connected_once(g.intersections[s.start].connections, k)
        &&& connected_once(g.intersections[s.end].connections, k)
    }
    &&& forall|k: ElementId, i: int| #[trigger] g.intersections.contains_key(k) && 0 <= i < g.intersections[k].connections.len()
        ==> connection_valid(g, k, #[trigger] g.intersections[k].connections[i])
}

/// A connection at intersection `at` names an existing street that leaves or
/// enters `at` as the direction says.
pub open spec fn connection_valid(g: GraphView, at: ElementId, c: Connection) -> bool {
    &&& g.streets.contains_key(c.1)
    &&& c.0 == Direction::Out ==> g.streets[c.1].start == at
    &&& c.0 == Direction::In ==> g.streets[c.1].end == at
}

/// An intersection with its first connection to `street` removed.
pub open spec fn disconnect(i: IntersectionView, street: ElementId) -> IntersectionView {
    IntersectionView { id: i.id, connections: spec_remove_connection(i.connections, street) }
}

/// Removes the first connection to `street` from intersection `at`, and
/// removes the intersection where no street is left.
pub open spec fn detach(m: Map<ElementId, IntersectionView>, at: ElementId, street: ElementId) -> Map<ElementId, IntersectionView> {
    if m.contains_key(at) {
        let d = disconnect(m[at], street);
        if d.connections.len() == 0 {
            m.remove(at)
        } else {
            m.insert(at, d)
        }
    } else {
        m
    }
}

/// The graph after street `id` was removed: it is disconnected from its
/// start and then its end, and an intersection left without streets goes.
pub open spec fn spec_remove_street(g: GraphView, id: ElementId) -> GraphView {
    if g.streets.contains_key(id) {
        let s = g.streets[id];
        GraphView {
            streets: g.streets.remove(id),
            intersections: detach(detach(g.intersections, s.start, id), s.end, id),
        }
    } else {
        g
    }
}

/// What a street removal did: the removed street, the intersections that
/// were removed because no street was left at them, and the intersections
/// whose remaining streets must be rearranged (in this order).
pub struct StreetRemoval {
    pub street: Option<StreetLinks>,
    pub removed_intersections: Vec<ElementId>,
    pub updated_intersections: Vec<ElementId>,
}

/// The streets and intersections of a map, and how they are linked.
pub struct StreetGraph {
    streets: HashMap<ElementId, StreetLinks>,
    intersections: HashMap<ElementId, IntersectionLinks>,
}

/// The mathematical value of an intersection.
pub open spec fn intersection_view(i: IntersectionLinks) -> IntersectionView {
    IntersectionView { id: i.id, connections: i@ }
}

impl View for StreetGraph {
    type V = GraphView;

    closed spec fn view(&self) -> GraphView {
        GraphView {
            streets: self.streets@,
            intersections: self.intersections@.map_values(|i: IntersectionLinks| intersection_view(i)),
        }
    }
}

impl StreetGraph {
    /// A map without streets and intersections.
    pub fn new() -> (r: Self)
        ensures
            r@.streets == Map::<ElementId, StreetLinks>::empty(),
            r@.intersections == Map::<ElementId, IntersectionView>::empty(),
    {
        let r = StreetGraph { streets: HashMap::new(), intersections: HashMap::new() };
        assert(r@.intersections =~= Map::<ElementId, IntersectionView>::empty());
        r
    }

    /// A map holds finitely many streets and intersections.
    pub proof fn lemma_finite(&self)
        ensures
            self@.streets.dom().finite(),
            self@.intersections.dom().finite(),
    {
        broadcast use vstd::std_specs::hash::group_hash_axioms;
        assert(self@.intersections.dom() =~= self.intersections@.dom());
    }

    /// Whether the map has no streets and no intersections.
    pub fn is_empty(&self) -> (r: bool)
        ensures
            r == (self@.streets.len() == 0 && self@.intersections.len() == 0),
    {
        broadcast use vstd::std_specs::hash::group_hash_axioms;
        assert(self@.intersections.dom() =~= self.intersections@.dom());
        self.streets.len() == 0 && self.intersections.len() == 0
    }

    /// The number of streets.
    pub fn streets_len(&self) -> (r: usize)
        ensures
            r == self@.streets.len(),
    {
        broadcast use vstd::std_specs::hash::group_hash_axioms;
        self.streets.len()
    }

    /// The number of intersections.
    pub fn intersections_len(&self) -> (r: usize)
        ensures
            r == self@.intersections.len(),
    {
        broadcast use vstd::std_specs::hash::group_hash_axioms;
        assert(self@.intersections.dom() =~= self.intersections@.dom());
        self.intersections.len()
    }

    /// The street with this id.
    pub fn street(&self, id: ElementId) -> (r: Option<&StreetLinks>)
        ensures
            match r {
                Some(s) => self@.streets.contains_key(id) && *s == self@.streets[id],
                None => !self@.streets.contains_key(id),
            },
    {
        broadcast use vstd::std_specs::hash::group_hash_axioms;
        self.streets.get(&id)
    }

    /// The intersection with this id.
    pub fn intersection(&self, id: ElementId) -> (r: Option<&IntersectionLinks>)
        ensures
            match r {
                Some(i) => self@.intersections.contains_key(id) && intersection_view(*i) == self@.intersections[id],
                None => !self@.intersections.contains_key(id),
            },
    {
        broadcast use vstd::std_specs::hash::group_hash_axioms;
        self.intersections.get(&id)
    }

    /// Stores a street under its id (replacing one stored there).
    pub fn add_street(&mut self, street: StreetLinks) -> (r: ElementId)
        ensures
            r == street.id,
            final(self)@.streets == old(self)@.streets.insert(street.id, street),
            final(self)@.intersections == old(self)@.intersections,
    {
        broadcast use vstd::std_specs::hash::group_hash_axioms;
        let id = street.id;
        self.streets.insert(id, street);
        id
    }

    /// Stores an intersection under its id (replacing one stored there).
    pub fn add_intersection(&mut self, intersection: IntersectionLinks) -> (r: ElementId)
        ensures
            r == intersection.id,
            final(self)@.intersections == old(self)@.intersections.insert(intersection.id, intersection_view(intersection)),
            final(self)@.streets == old(self)@.streets,
    {
        broadcast use vstd::std_specs::hash::group_hash_axioms;
        let id = intersection.id;
        let ghost iv = intersection_view(intersection);
        self.intersections.insert(id, intersection);
        assert(self@.intersections =~= old(self)@.intersections.insert(id, iv));
        id
    }

    /// Removes the intersection with this id and returns it.
    pub fn remove_intersection(&mut self, id: ElementId) -> (r: Option<IntersectionLinks>)
        ensures
            match r {
                Some(i) => old(self)@.intersections.contains_key(id) && intersection_view(i) == old(self)@.intersections[id],
                None => !old(self)@.intersections.contains_key(id),
            },
            final(self)@.intersections == old(self)@.intersections.remove(id),
            final(self)@.streets == old(self)@.streets,
    {
        broadcast use vstd::std_specs::hash::group_hash_axioms;
        let r = self.intersections.remove(&id);
        assert(self@.intersections =~= old(self)@.intersections.remove(id));
        r
    }

    /// Removes the first connection to `street` from intersection `at`, and
    /// the intersection itself where no street is left. Returns whether the
    /// intersection was removed.
    fn detach(&mut self, at: ElementId, street: ElementId) -> (removed: bool)
        ensures
            final(self)@.intersections == detach(old(self)@.intersections, at, street),
            final(self)@.streets == old(self)@.streets,
            removed == (old(self)@.intersections.contains_key(at)
                && disconnect(old(self)@.intersections[at], street).connections.len() == 0),
    {
        broadcast use vstd::std_specs::hash::group_hash_axioms;
        match self.intersections.remove(&at) {
            Some(mut i) => {
                i.remove_connected_street(street);
                if i.connected_streets.len() == 0 {
                    assert(self@.intersections =~= detach(old(self)@.intersections, at, street));
                    true
                } else {
                    let ghost iv = intersection_view(i);
                    self.intersections.insert(at, i);
                    assert(self@.intersections =~= detach(old(self)@.intersections, at, street));
                    false
                }
            },
            None => {
                assert(self@.intersections =~= old(self)@.intersections);
                false
            },
        }
    }

    /// Removes a street: it is disconnected from its start and end
    /// intersections, and an intersection that has no street left goes too.
    /// The intersections that keep streets are reported, so that their
    /// streets can be rearranged around them. A street to remove joins two
    /// distinct intersections of the map: rearranging the streets around a
    /// start that is also the end would meet the removed street.
    pub fn remove_street(&mut self, id: ElementId) -> (r: StreetRemoval)
        requires
            old(self)@.streets.contains_key(id) ==> {
                let s = old(self)@.streets[id];
                &&& s.start != s.end
                &&& old(self)@.intersections.contains_key(s.start)
                &&& old(self)@.intersections.contains_key(s.end)
            },
        ensures
            final(self)@ == spec_remove_street(old(self)@, id),
            match r.street {
                Some(s) => {
                    let removed_start = disconnect(old(self)@.intersections[s.start], id).connections.len() == 0;
                    let removed_end = disconnect(old(self)@.intersections[s.end], id).connections.len() == 0;
                    &&& old(self)@.streets.contains_key(id)
                    &&& s == old(self)@.streets[id]
                    &&& r.removed_intersections@ == (if removed_start { seq![s.start] } else { seq![] }) + (if removed_end { seq![s.end] } else { seq![] })
                    &&& r.updated_intersections@ == (if removed_start { seq![] } else { seq![s.start] }) + (if removed_end { seq![] } else { seq![s.end] })
                },
                None => !old(self)@.streets.contains_key(id) && r.removed_intersections@.len() == 0
                    && r.updated_intersections@.len() == 0,
            },
    {
        broadcast use vstd::std_specs::hash::group_hash_axioms;
        let street = match self.streets.remove(&id) {
            Some(s) => s,
            None => {
                assert(self@.streets =~= old(self)@.streets);
                return StreetRemoval { street: None, removed_intersections: Vec::new(), updated_intersections: Vec::new() };
            },
        };
        let mut removed: Vec<ElementId> = Vec::new();
        let mut updated: Vec<ElementId> = Vec::new();
        let ghost g0 = old(self)@;
        let ghost m1 = detach(g0.intersections, street.start, id);
        let start_gone = self.detach(street.start, id);
        let end_gone = self.detach(street.end, id);
        if start_gone {
            removed.push(street.start);
        } else {
            updated.push(street.start);
        }
        if end_gone {
            removed.push(street.end);
        } else {
            updated.push(street.end);
        }
        proof {
            assert(self@.streets =~= g0.streets.remove(id));
            assert(m1[street.end] == g0.intersections[street.end]);
        }
        assert(removed@ =~= (if start_gone { seq![street.start] } else { seq![] }) + (if end_gone { seq![street.end] } else { seq![] }));
        assert(updated@ =~= (if start_gone { seq![] } else { seq![street.start] }) + (if end_gone { seq![] } else { seq![street.end] }));
        StreetRemoval { street: Some(street), removed_intersections: removed, updated_intersections: updated }
    }

    /// Adds a street from intersection `start` to intersection `end` under
    /// the id `street_id`: it leaves `start` and enters `end`.
    pub fn connect(&mut self, start: ElementId, end: ElementId, street_id: ElementId) -> (r: ElementId)
        requires
            old(self)@.intersections.contains_key(start),
            old(self)@.intersections.contains_key(end),
        ensures
            r == street_id,
            final(self)@ == spec_connect(old(self)@, start, end, street_id),
    {
        broadcast use vstd::std_specs::hash::group_hash_axioms;
        let ghost g = self@;
        let mut s = match self.intersections.remove(&start) {
            Some(i) => i,
            None => {
                assert(false);
                return street_id;
            },
        };
        s.add_outgoing_street(street_id);
        self.intersections.insert(start, s);
        let ghost m1 = self@.intersections;
        assert(m1 =~= g.intersections.insert(start, IntersectionView {
            id: g.intersections[start].id,
            connections: g.intersections[start].connections.push((Direction::Out, street_id)),
        }));
        let mut e = match self.intersections.remove(&end) {
            Some(i) => i,
            None => {
                assert(false);
                return street_id;
            },
        };
        e.add_incoming_street(street_id);
        self.intersections.insert(end, e);
        let street = StreetLinks::new(street_id, start, end);
        self.streets.insert(street_id, street);
        assert(self@.intersections =~= m1.insert(end, IntersectionView {
            id: m1[end].id,
            connections: m1[end].connections.push((Direction::In, street_id)),
        }));
        street_id
    }

    /// Adds a street from `start` to `end` under a newly drawn id, which is
    /// returned.
    pub fn create_street_between(&mut self, start: ElementId, end: ElementId) -> (r: ElementId)
        requires
            old(self)@.intersections.contains_key(start),
            old(self)@.intersections.contains_key(end),
        ensures
            final(self)@ == spec_connect(old(self)@, start, end, r),
            crate::city::ids::is_random_uuid(r),
    {
        let id = new_id();
        self.connect(start, end, id)
    }

    /// Moves the end of street `street` to intersection `new_end`: the
    /// street's connection at intersection `from` (its old end, where the
    /// map is consistent) is removed, if that intersection exists, and the
    /// street enters `new_end`.
    pub fn reconnect_end(&mut self, street: ElementId, from: ElementId, new_end: ElementId)
        requires
            old(self)@.streets.contains_key(street),
            old(self)@.intersections.contains_key(new_end),
        ensures
            final(self)@ == spec_reconnect_end(old(self)@, street, from, new_end),
    {
        broadcast use vstd::std_specs::hash::group_hash_axioms;
        let ghost g = self@;
        let mut s = match self.streets.remove(&street) {
            Some(s) => s,
            None => {
                assert(false);
                return;
            },
        };
        match self.intersections.remove(&from) {
            Some(mut e) => {
                e.remove_connected_street(street);
                self.intersections.insert(from, e);
            },
            None => {},
        }
        let ghost m1 = self@.intersections;
        assert(m1 =~= detach_only(g.intersections, from, street));
        let mut n = match self.intersections.remove(&new_end) {
            Some(i) => i,
            None => {
                assert(false);
                return;
            },
        };
        n.add_incoming_street(street);
        self.intersections.insert(new_end, n);
        s.end = new_end;
        self.streets.insert(street, s);
        assert(self@.streets =~= g.streets.insert(street, StreetLinks { end: new_end, ..g.streets[street] }));
        assert(self@.intersections =~= m1.insert(new_end, IntersectionView {
            id: m1[new_end].id,
            connections: m1[new_end].connections.push((Direction::In, street)),
        }));
    }

    /// Splits street `street` at a new intersection `at`: the street now
    /// ends at `at`, and a new street `new_street` leads from `at` to the
    /// old end, where it takes the place of the split street.
    pub fn split_street(&mut self, street: ElementId, at: ElementId, new_street: ElementId)
        requires
            old(self)@.streets.contains_key(street),
            old(self)@.intersections.contains_key(old(self)@.streets[street].end),
        ensures
            final(self)@ == spec_split_street(old(self)@, street, at, new_street),
    {
        broadcast use vstd::std_specs::hash::group_hash_axioms;
        let ghost g = self@;
        let mut s = match self.streets.remove(&street) {
            Some(s) => s,
            None => {
                assert(false);
                return;
            },
        };
        let old_end = s.end;
        s.end = at;
        let mut x = IntersectionLinks::new(at);
        x.add_incoming_street(street);
        let n = StreetLinks::new(new_street, at, old_end);
        x.add_outgoing_street(new_street);
        let mut e = match self.intersections.remove(&old_end) {
            Some(i) => i,
            None => {
                assert(false);
                return;
            },
        };
        e.remove_connected_street(street);
        e.add_incoming_street(new_street);
        self.intersections.insert(old_end, e);
        self.streets.insert(street, s);
        self.streets.insert(new_street, n);
        let ghost xv = intersection_view(x);
        self.intersections.insert(at, x);
        assert(xv.connections =~= seq![(Direction::In, street), (Direction::Out, new_street)]);
        assert(self@.streets =~= spec_split_street(g, street, at, new_street).streets);
        assert(self@.intersections =~= spec_split_street(g, street, at, new_street).intersections);
    }

    /// Rearranges the streets around intersection `at` by `order` (the
    /// `k`-th street becomes the one at `order[k]`) and links every street to
    /// its neighbours in the new arrangement. Returns false, changing
    /// nothing, where the order is not a permutation of the streets there.
    pub fn reorder(&mut self, at: ElementId, order: &Vec<usize>) -> (r: bool)
        requires
            old(self)@.intersections.contains_key(at),
            forall|i: int| 0 <= i < old(self)@.intersections[at].connections.len()
                ==> old(self)@.streets.contains_key((#[trigger] old(self)@.intersections[at].connections[i]).1),
        ensures
            r == is_permutation(order@, old(self)@.intersections[at].connections.len()),
            r ==> {
                let cs = permuted(old(self)@.intersections[at].connections, order@);
                &&& final(self)@.intersections == old(self)@.intersections.insert(
                    at,
                    IntersectionView { id: old(self)@.intersections[at].id, connections: cs },
                )
                &&& final(self)@.streets == link_prefix(old(self)@.streets, cs, cs.len() as int)
            },
            !r ==> final(self)@ == old(self)@,
    {
        broadcast use vstd::std_specs::hash::group_hash_axioms;
        let ghost g = self@;
        let mut i = match self.intersections.remove(&at) {
            Some(i) => i,
            None => {
                assert(false);
                return false;
            },
        };
        let ok = i.set_order(order);
        let ghost iv = intersection_view(i);
        self.intersections.insert(at, i);
        if !ok {
            assert(self@.intersections =~= g.intersections);
            return false;
        }
        assert(self@.intersections =~= g.intersections.insert(at, iv));
        proof {
            let cs = iv.connections;
            assert forall|k: int| 0 <= k < cs.len() implies g.streets.contains_key((#[trigger] cs[k]).1) by {
                let o = order@[k] as int;
                assert(cs[k] == g.intersections[at].connections[o]);
            }
        }
        self.link_neighbours(at);
        true
    }

    /// Links every street at intersection `at` to its neighbours in the
    /// order of the connections there.
    fn link_neighbours(&mut self, at: ElementId)
        requires
            old(self)@.intersections.contains_key(at),
            forall|i: int| 0 <= i < old(self)@.intersections[at].connections.len()
                ==> old(self)@.streets.contains_key((#[trigger] old(self)@.intersections[at].connections[i]).1),
        ensures
            final(self)@.intersections == old(self)@.intersections,
            final(self)@.streets == link_prefix(
                old(self)@.streets,
                old(self)@.intersections[at].connections,
                old(self)@.intersections[at].connections.len() as int,
            ),
    {
        broadcast use vstd::std_specs::hash::group_hash_axioms;
        let ghost g = self@;
        let cs = match self.intersections.get(&at) {
            Some(i) => copy_connections(i.get_connected_streets()),
            None => {
                assert(false);
                return;
            },
        };
        assert(cs@ == g.intersections[at].connections);
        let n = cs.len();
        let mut k: usize = 0;
        while k < n
            invariant
                n == cs@.len(),
                k <= n,
                self@.intersections == g.intersections,
                self@.streets == link_prefix(g.streets, cs@, k as int),
                forall|i: int| 0 <= i < n ==> g.streets.contains_key((#[trigger] cs@[i]).1),
            decreases n - k,
        {
            let (direction, id) = cs[k];
            let previous = if k > 0 { cs[k - 1].1 } else { cs[n - 1].1 };
            let next = if k < n - 1 { cs[k + 1].1 } else { cs[0].1 };
            proof {
                lemma_link_prefix_keeps_keys(g.streets, cs@, k as int);
            }
            let mut street = match self.streets.remove(&id) {
                Some(s) => s,
                None => {
                    assert(false);
                    return;
                },
            };
            match direction {
                Direction::In => {
                    street.set_next(Side::Right, None);
                    street.set_next(Side::Left, None);
                    if street.id != previous {
                        street.set_next(Side::Right, Some(previous));
                    }
                    if street.id != next {
                        street.set_next(Side::Left, Some(next));
                    }
                },
                Direction::Out => {
                    street.set_previous(Side::Right, None);
                    street.set_previous(Side::Left, None);
                    if street.id != next {
                        street.set_previous(Side::Right, Some(next));
                    }
                    if street.id != previous {
                        street.set_previous(Side::Left, Some(previous));
                    }
                },
            }
            self.streets.insert(id, street);
            proof {
                assert(previous == cs@[neighbour_before(k as int, n as int)].1);
                assert(next == cs@[neighbour_after(k as int, n as int)].1);
                assert(self@.streets =~= link_prefix(g.streets, cs@, k + 1));
            }
            k = k + 1;
        }
    }
}

/// The graph after a street `id` from `start` to `end` was added.
pub open spec fn spec_connect(g: GraphView, start: ElementId, end: ElementId, id: ElementId) -> GraphView {
    let m1 = g.intersections.insert(start, IntersectionView {
        id: g.intersections[start].id,
        connections: g.intersections[start].connections.push((Direction::Out, id)),
    });
    GraphView {
        streets: g.streets.insert(id, StreetLinks {
            id,
            start,
            end,
            left_next: None,
            right_next: None,
            left_previous: None,
            right_previous: None,
        }),
        intersections: m1.insert(end, IntersectionView {
            id: m1[end].id,
            connections: m1[end].connections.push((Direction::In, id)),
        }),
    }
}

/// The position before `k` around an intersection with `n` streets.
pub open spec fn neighbour_before(k: int, n: int) -> int {
    if k > 0 { k - 1 } else { n - 1 }
}

/// The position after `k` around an intersection with `n` streets.
pub open spec fn neighbour_after(k: int, n: int) -> int {
    if k < n - 1 { k + 1 } else { 0 }
}

/// A street linked for its connection `cs[k]`: an entering street gets its
/// neighbours around its end, a leaving street around its start; a street
/// is never its own neighbour.
pub open spec fn linked(st: StreetLinks, cs: Seq<Connection>, k: int) -> StreetLinks {
    let n = cs.len() as int;
    let previous = cs[neighbour_before(k, n)].1;
    let next = cs[neighbour_after(k, n)].1;
    match cs[k].0 {
        Direction::In => StreetLinks {
            right_next: if st.id != previous { Some(previous) } else { None },
            left_next: if st.id != next { Some(next) } else { None },
            ..st
        },
        Direction::Out => StreetLinks {
            right_previous: if st.id != next { Some(next) } else { None },
            left_previous: if st.id != previous { Some(previous) } else { None },
            ..st
        },
    }
}

/// The streets after the first `k` connections of `cs` were linked, in order.
pub open spec fn link_prefix(m: Map<ElementId, StreetLinks>, cs: Seq<Connection>, k: int) -> Map<ElementId, StreetLinks>
    decreases k,
{
    if k <= 0 {
        m
    } else {
        let before = link_prefix(m, cs, k - 1);
        let id = cs[k - 1].1;
        before.insert(id, linked(before[id], cs, k - 1))
    }
}

proof fn lemma_link_prefix_keeps_keys(m: Map<ElementId, StreetLinks>, cs: Seq<Connection>, k: int)
    requires
        0 <= k <= cs.len(),
        forall|i: int| 0 <= i < cs.len() ==> m.contains_key((#[trigger] cs[i]).1),
    ensures
        link_prefix(m, cs, k).dom() == m.dom(),
    decreases k,
{
    if k > 0 {
        lemma_link_prefix_keeps_keys(m, cs, k - 1);
        assert(link_prefix(m, cs, k).dom() =~= m.dom());
    }
}

/// Removing the only connection to a street: one entry goes, the street is
/// no longer connected, the other entries keep their order, and every other
/// street that was connected once still is.
pub proof fn lemma_remove_only_connection(s: Seq<Connection>, street: ElementId)
    requires
        connected_once(s, street),
    ensures
        ({
            let r = spec_remove_connection(s, street);
            let i = choose|i: int| first_connection(s, street, i);
            &&& first_connection(s, street, i)
            &&& r == s.remove(i)
            &&& r.len() == s.len() - 1
            &&& !connects(r, street)
            &&& forall|x: ElementId| x != street && #[trigger] connected_once(s, x) ==> connected_once(r, x)
        }),
{
    let i0 = choose|i: int| 0 <= i < s.len() && s[i].1 == street && forall|j: int| 0 <= j < s.len() && j != i ==> (#[trigger] s[j]).1 != street;
    assert(first_connection(s, street, i0));
    let i = choose|i: int| first_connection(s, street, i);
    if i != i0 {
        if i < i0 {
            assert(s[i].1 != street);
        } else {
            assert(s[i0].1 != street);
        }
    }
    let r = spec_remove_connection(s, street);
    assert(r == s.remove(i));
    if connects(r, street) {
        let k = choose|k: int| 0 <= k < r.len() && (#[trigger] r[k]).1 == street;
        if k < i {
            assert(s[k].1 == street);
        } else {
            assert(s[k + 1].1 == street);
        }
    }
    assert forall|x: ElementId| x != street && #[trigger] connected_once(s, x) implies connected_once(r, x) by {
        let p = choose|p: int| 0 <= p < s.len() && s[p].1 == x && forall|j: int| 0 <= j < s.len() && j != p ==> (#[trigger] s[j]).1 != x;
        assert(p != i);
        let q = if p < i { p } else { p - 1 };
        assert(r[q].1 == x);
        assert forall|j: int| 0 <= j < r.len() && j != q implies (#[trigger] r[j]).1 != x by {
            if j < i {
                assert(r[j] == s[j]);
            } else {
                assert(r[j] == s[j + 1]);
            }
        }
    }
}

/// Every entry left after a removal was an entry before, at the same
/// intersection.
proof fn lemma_removed_entries_come_from(s: Seq<Connection>, street: ElementId, j: int)
    requires
        0 <= j < spec_remove_connection(s, street).len(),
    ensures
        s.contains(spec_remove_connection(s, street)[j]),
{
    let r = spec_remove_connection(s, street);
    if exists|i: int| first_connection(s, street, i) {
        let i = choose|i: int| first_connection(s, street, i);
        if j < i {
            assert(r[j] == s[j]);
        } else {
            assert(r[j] == s[j + 1]);
        }
    } else {
        assert(r[j] == s[j]);
    }
}

/// Removing a street from a consistent map leaves a consistent map: no
/// intersection refers to the removed street, intersections that still
/// have streets stay, and every other street keeps its two connections.
pub proof fn law_remove_street_keeps_graph_wf(g: GraphView, id: ElementId)
    requires
        graph_wf(g),
    ensures
        graph_wf(spec_remove_street(g, id)),
        forall|k: ElementId, i: int| #[trigger] spec_remove_street(g, id).intersections.contains_key(k)
            && 0 <= i < spec_remove_street(g, id).intersections[k].connections.len()
            ==> (#[trigger] spec_remove_street(g, id).intersections[k].connections[i]).1 != id,
{
    if !g.streets.contains_key(id) {
        return;
    }
    let s = g.streets[id];
    let a = s.start;
    let b = s.end;
    let ia = g.intersections[a];
    let ib = g.intersections[b];
    lemma_remove_only_connection(ia.connections, id);
    lemma_remove_only_connection(ib.connections, id);
    let m1 = detach(g.intersections, a, id);
    let m2 = detach(m1, b, id);
    assert(m1.contains_key(b) && m1[b] == ib);
    let h = spec_remove_street(g, id);
    assert(h.intersections == m2);
    assert(h.streets == g.streets.remove(id));
    // What each intersection of the result is.
    assert forall|k: ElementId| #[trigger] m2.contains_key(k) implies g.intersections.contains_key(k) && (
        if k == a { m2[k] == disconnect(ia, id) } else if k == b { m2[k] == disconnect(ib, id) } else { m2[k] == g.intersections[k] }) by {
    }
    // Streets keep both ends, connected once.
    assert forall|t: ElementId| #[trigger] h.streets.contains_key(t) implies {
        let st = h.streets[t];
        &&& st.start != st.end
        &&& h.intersections.contains_key(st.start)
        &&& h.intersections.contains_key(st.end)
        &&& connected_once(h.intersections[st.start].connections, t)
        &&& connected_once(h.intersections[st.end].connections, t)
    } by {
        let st = g.streets[t];
        assert(t != id);
        assert(h.streets[t] == st);
        assert(connected_once(g.intersections[st.start].connections, t));
        assert(connected_once(g.intersections[st.end].connections, t));
        if st.start == a {
            assert(connected_once(disconnect(ia, id).connections, t));
        } else if st.start == b {
            assert(connected_once(disconnect(ib, id).connections, t));
        }
        if st.end == a {
            assert(connected_once(disconnect(ia, id).connections, t));
        } else if st.end == b {
            assert(connected_once(disconnect(ib, id).connections, t));
        }
    }
    // Every connection left names a remaining street, consistently.
    assert forall|k: ElementId, i: int| #[trigger] h.intersections.contains_key(k) && 0 <= i < h.intersections[k].connections.len()
        implies connection_valid(h, k, #[trigger] h.intersections[k].connections[i]) && h.intersections[k].connections[i].1 != id by {
        let c = h.intersections[k].connections[i];
        if k == a {
            lemma_removed_entries_come_from(ia.connections, id, i);
            let p = choose|p: int| 0 <= p < ia.connections.len() && ia.connections[p] == c;
            assert(connection_valid(g, k, ia.connections[p]));
            if c.1 == id {
                assert(connects(disconnect(ia, id).connections, id));
            }
        } else if k == b {
            lemma_removed_entries_come_from(ib.connections, id, i);
            let p = choose|p: int| 0 <= p < ib.connections.len() && ib.connections[p] == c;
            assert(connection_valid(g, k, ib.connections[p]));
            if c.1 == id {
                assert(connects(disconnect(ib, id).connections, id));
            }
        } else {
            assert(c == g.intersections[k].connections[i]);
            assert(connection_valid(g, k, c));
        }
    }
}


proof fn lemma_push_keeps_once(s: Seq<Connection>, c: Connection, k: ElementId)
    requires
        connected_once(s, k),
        c.1 != k,
    ensures
        connected_once(s.push(c), k),
{
    let i = choose|i: int| 0 <= i < s.len() && s[i].1 == k && forall|j: int| 0 <= j < s.len() && j != i ==> (#[trigger] s[j]).1 != k;
    let t = s.push(c);
    assert(t[i] == s[i]);
    assert forall|j: int| 0 <= j < t.len() && j != i implies (#[trigger] t[j]).1 != k by {
        if j < s.len() {
            assert(t[j] == s[j]);
        }
    }
}

proof fn lemma_push_new_once(s: Seq<Connection>, c: Connection)
    requires
        forall|j: int| 0 <= j < s.len() ==> (#[trigger] s[j]).1 != c.1,
    ensures
        connected_once(s.push(c), c.1),
{
    let t = s.push(c);
    let i = s.len() as int;
    assert(t[i] == c);
    assert forall|j: int| 0 <= j < t.len() && j != i implies (#[trigger] t[j]).1 != c.1 by {
        assert(t[j] == s[j]);
    }
}

/// Adding a street between two distinct intersections of a consistent map,
/// under an id that no street has, leaves a consistent map.
pub proof fn law_connect_keeps_graph_wf(g: GraphView, start: ElementId, end: ElementId, id: ElementId)
    requires
        graph_wf(g),
        g.intersections.contains_key(start),
        g.intersections.contains_key(end),
        start != end,
        !g.streets.contains_key(id),
    ensures
        graph_wf(spec_connect(g, start, end, id)),
{
    let h = spec_connect(g, start, end, id);
    let cs = g.intersections[start].connections;
    let ce = g.intersections[end].connections;
    // No connection names the new id.
    assert forall|k: ElementId, j: int| #[trigger] g.intersections.contains_key(k) && 0 <= j < g.intersections[k].connections.len()
        implies (#[trigger] g.intersections[k].connections[j]).1 != id by {
        assert(connection_valid(g, k, g.intersections[k].connections[j]));
    }
    assert(forall|j: int| 0 <= j < cs.len() ==> (#[trigger] cs[j]).1 != id) by {
        assert forall|j: int| 0 <= j < cs.len() implies (#[trigger] cs[j]).1 != id by {
            assert(g.intersections[start].connections[j] == cs[j]);
        }
    }
    assert(forall|j: int| 0 <= j < ce.len() ==> (#[trigger] ce[j]).1 != id) by {
        assert forall|j: int| 0 <= j < ce.len() implies (#[trigger] ce[j]).1 != id by {
            assert(g.intersections[end].connections[j] == ce[j]);
        }
    }
    lemma_push_new_once(cs, (Direction::Out, id));
    lemma_push_new_once(ce, (Direction::In, id));
    assert(h.intersections[start].connections == cs.push((Direction::Out, id)));
    assert(h.intersections[end].connections == ce.push((Direction::In, id)));
    assert forall|k: ElementId| #[trigger] h.intersections.contains_key(k) implies g.intersections.contains_key(k) && (
        if k == start { h.intersections[k].connections == cs.push((Direction::Out, id)) }
        else if k == end { h.intersections[k].connections == ce.push((Direction::In, id)) }
        else { h.intersections[k] == g.intersections[k] }) && h.intersections[k].id == g.intersections[k].id by {
    }
    assert forall|t: ElementId| #[trigger] h.streets.contains_key(t) implies {
        let st = h.streets[t];
        &&& st.start != st.end
        &&& h.intersections.contains_key(st.start)
        &&& h.intersections.contains_key(st.end)
        &&& connected_once(h.intersections[st.start].connections, t)
        &&& connected_once(h.intersections[st.end].connections, t)
    } by {
        if t != id {
            let st = g.streets[t];
            assert(h.streets[t] == st);
            assert(connected_once(g.intersections[st.start].connections, t));
            assert(connected_once(g.intersections[st.end].connections, t));
            if st.start == start {
                lemma_push_keeps_once(cs, (Direction::Out, id), t);
            } else if st.start == end {
                lemma_push_keeps_once(ce, (Direction::In, id), t);
            }
            if st.end == start {
                lemma_push_keeps_once(cs, (Direction::Out, id), t);
            } else if st.end == end {
                lemma_push_keeps_once(ce, (Direction::In, id), t);
            }
        }
    }
    assert forall|k: ElementId, i: int| #[trigger] h.intersections.contains_key(k) && 0 <= i < h.intersections[k].connections.len()
        implies connection_valid(h, k, #[trigger] h.intersections[k].connections[i]) by {
        let c = h.intersections[k].connections[i];
        if k == start && i == cs.len() {
        } else if k == end && i == ce.len() {
        } else {
            assert(c == g.intersections[k].connections[i]);
            assert(connection_valid(g, k, c));
            assert(c.1 != id);
        }
    }
}


/// Every position `0..n` occurs in a permutation of `0..n`.
proof fn lemma_permutation_onto(order: Seq<usize>, n: nat, p: int)
    requires
        is_permutation(order, n),
        0 <= p < n,
    ensures
        exists|q: int| 0 <= q < n && order[q] as int == p,
{
    let x = vstd::set_lib::set_int_range(0, n as int);
    let f = |k: int| order[k] as int;
    vstd::set_lib::lemma_int_range(0, n as int);
    assert(vstd::relations::injective_on(f, x)) by {
        assert forall|a: int, b: int| x.contains(a) && x.contains(b) && #[trigger] f(a) == #[trigger] f(b) implies a == b by {
            if a < b {
                assert(order[a] != order[b]);
            } else if b < a {
                assert(order[b] != order[a]);
            }
        }
    }
    let y = x.map(f);
    vstd::set_lib::lemma_map_size(x, y, f);
    assert(y.subset_of(x)) by {
        assert forall|v: int| y.contains(v) implies x.contains(v) by {
            let k = choose|k: int| x.contains(k) && v == f(k);
            assert(order[k] < n);
        }
    }
    vstd::set_lib::lemma_subset_equality(y, x);
    assert(y.contains(p));
    let q = choose|q: int| x.contains(q) && p == f(q);
    assert(0 <= q < n && order[q] as int == p);
}

/// Rearranging connections by a permutation keeps each street connected
/// exactly once.
proof fn lemma_permuted_keeps_once(s: Seq<Connection>, order: Seq<usize>, k: ElementId)
    requires
        is_permutation(order, s.len()),
        connected_once(s, k),
    ensures
        connected_once(permuted(s, order), k),
{
    let t = permuted(s, order);
    let p = choose|i: int| 0 <= i < s.len() && s[i].1 == k && forall|j: int| 0 <= j < s.len() && j != i ==> (#[trigger] s[j]).1 != k;
    lemma_permutation_onto(order, s.len(), p);
    let q = choose|q: int| 0 <= q < s.len() && order[q] as int == p;
    assert(t[q] == s[p]);
    assert forall|j: int| 0 <= j < t.len() && j != q implies (#[trigger] t[j]).1 != k by {
        assert(t[j] == s[order[j] as int]);
        if j < q {
            assert(order[j] != order[q]);
        } else {
            assert(order[q] != order[j]);
        }
    }
}

/// Linking streets changes only their neighbours: every street keeps its
/// id and its two ends, and no street comes or goes.
proof fn lemma_link_prefix_frame(m: Map<ElementId, StreetLinks>, cs: Seq<Connection>, k: int)
    requires
        0 <= k <= cs.len(),
        forall|i: int| 0 <= i < cs.len() ==> m.contains_key((#[trigger] cs[i]).1),
    ensures
        link_prefix(m, cs, k).dom() == m.dom(),
        forall|x: ElementId| #[trigger] m.contains_key(x) ==> {
            let a = link_prefix(m, cs, k)[x];
            &&& a.id == m[x].id
            &&& a.start == m[x].start
            &&& a.end == m[x].end
        },
    decreases k,
{
    lemma_link_prefix_keeps_keys(m, cs, k);
    if k > 0 {
        lemma_link_prefix_frame(m, cs, k - 1);
    }
}

/// Rearranging the streets around an intersection of a consistent map by a
/// permutation, and relinking them, leaves a consistent map.
pub proof fn law_reorder_keeps_graph_wf(g: GraphView, at: ElementId, order: Seq<usize>)
    requires
        graph_wf(g),
        g.intersections.contains_key(at),
        is_permutation(order, g.intersections[at].connections.len()),
    ensures
        ({
            let cs = permuted(g.intersections[at].connections, order);
            graph_wf(GraphView {
                streets: link_prefix(g.streets, cs, cs.len() as int),
                intersections: g.intersections.insert(at, IntersectionView { id: g.intersections[at].id, connections: cs }),
            })
        }),
{
    let s0 = g.intersections[at].connections;
    let cs = permuted(s0, order);
    let h = GraphView {
        streets: link_prefix(g.streets, cs, cs.len() as int),
        intersections: g.intersections.insert(at, IntersectionView { id: g.intersections[at].id, connections: cs }),
    };
    assert forall|i: int| 0 <= i < cs.len() implies g.streets.contains_key((#[trigger] cs[i]).1) by {
        assert(cs[i] == s0[order[i] as int]);
        assert(connection_valid(g, at, g.intersections[at].connections[order[i] as int]));
    }
    lemma_link_prefix_frame(g.streets, cs, cs.len() as int);
    assert(h.streets.dom() == g.streets.dom());
    assert forall|t: ElementId| #[trigger] h.streets.contains_key(t) implies {
        let st = h.streets[t];
        &&& st.start != st.end
        &&& h.intersections.contains_key(st.start)
        &&& h.intersections.contains_key(st.end)
        &&& connected_once(h.intersections[st.start].connections, t)
        &&& connected_once(h.intersections[st.end].connections, t)
    } by {
        assert(g.streets.contains_key(t));
        let st = g.streets[t];
        assert(connected_once(g.intersections[st.start].connections, t));
        assert(connected_once(g.intersections[st.end].connections, t));
        if st.start == at {
            lemma_permuted_keeps_once(s0, order, t);
        }
        if st.end == at {
            lemma_permuted_keeps_once(s0, order, t);
        }
    }
    assert forall|k: ElementId, i: int| #[trigger] h.intersections.contains_key(k) && 0 <= i < h.intersections[k].connections.len()
        implies connection_valid(h, k, #[trigger] h.intersections[k].connections[i]) by {
        let c = h.intersections[k].connections[i];
        if k == at {
            assert(c == s0[order[i] as int]);
            assert(connection_valid(g, at, g.intersections[at].connections[order[i] as int]));
        } else {
            assert(c == g.intersections[k].connections[i]);
            assert(connection_valid(g, k, c));
        }
        assert(g.streets.contains_key(c.1));
    }
}


/// Intersection `at` without its first connection to `street`; nothing
/// changes where there is no such intersection.
pub open spec fn detach_only(m: Map<ElementId, IntersectionView>, at: ElementId, street: ElementId) -> Map<ElementId, IntersectionView> {
    if m.contains_key(at) {
        m.insert(at, disconnect(m[at], street))
    } else {
        m
    }
}

/// The graph after the end of street `street` moved from `from` to
/// `new_end`.
pub open spec fn spec_reconnect_end(g: GraphView, street: ElementId, from: ElementId, new_end: ElementId) -> GraphView {
    let m1 = detach_only(g.intersections, from, street);
    GraphView {
        streets: g.streets.insert(street, StreetLinks { end: new_end, ..g.streets[street] }),
        intersections: m1.insert(new_end, IntersectionView {
            id: m1[new_end].id,
            connections: m1[new_end].connections.push((Direction::In, street)),
        }),
    }
}

/// The graph after street `street` was split at the new intersection `at`,
/// with `new_street` leading on from `at` to the old end.
pub open spec fn spec_split_street(g: GraphView, street: ElementId, at: ElementId, new_street: ElementId) -> GraphView {
    let s = g.streets[street];
    let e = g.intersections[s.end];
    GraphView {
        streets: g.streets.insert(street, StreetLinks { end: at, ..s }).insert(
            new_street,
            StreetLinks {
                id: new_street,
                start: at,
                end: s.end,
                left_next: None,
                right_next: None,
                left_previous: None,
                right_previous: None,
            },
        ),
        intersections: g.intersections.insert(
            s.end,
            IntersectionView { id: e.id, connections: spec_remove_connection(e.connections, street).push((Direction::In, new_street)) },
        ).insert(at, IntersectionView { id: at, connections: seq![(Direction::In, street), (Direction::Out, new_street)] }),
    }
}


/// What is left after removing the only connection to `street`: entries of
/// `s`, none of them to `street`, each street that was connected once
/// still connected once, and no street that was absent present.
proof fn lemma_remove_contents(s: Seq<Connection>, street: ElementId)
    requires
        connected_once(s, street),
    ensures
        forall|j: int| 0 <= j < spec_remove_connection(s, street).len() ==> {
            &&& s.contains(#[trigger] spec_remove_connection(s, street)[j])
            &&& spec_remove_connection(s, street)[j].1 != street
        },
        forall|x: ElementId| x != street && #[trigger] connected_once(s, x) ==> connected_once(spec_remove_connection(s, street), x),
{
    lemma_remove_only_connection(s, street);
    let r = spec_remove_connection(s, street);
    assert forall|j: int| 0 <= j < r.len() implies s.contains(#[trigger] r[j]) && r[j].1 != street by {
        lemma_removed_entries_come_from(s, street, j);
        if r[j].1 == street {
            assert(connects(r, street));
        }
    }
}

/// Splitting a street of a consistent map at a new intersection, with a new
/// street id for the second part, leaves a consistent map.
pub proof fn law_split_street_keeps_graph_wf(g: GraphView, street: ElementId, at: ElementId, new_street: ElementId)
    requires
        graph_wf(g),
        g.streets.contains_key(street),
        !g.intersections.contains_key(at),
        !g.streets.contains_key(new_street),
    ensures
        graph_wf(spec_split_street(g, street, at, new_street)),
{
    let h = spec_split_street(g, street, at, new_street);
    let s = g.streets[street];
    let a = s.start;
    let b = s.end;
    let cb = g.intersections[b].connections;
    let r = spec_remove_connection(cb, street);
    lemma_remove_contents(cb, street);
    assert forall|j: int| 0 <= j < r.len() implies (#[trigger] r[j]).1 != new_street by {
        let c = r[j];
        assert(cb.contains(c));
        let p = choose|p: int| 0 <= p < cb.len() && cb[p] == c;
        assert(connection_valid(g, b, g.intersections[b].connections[p]));
    }
    lemma_push_new_once(r, (Direction::In, new_street));
    let ca = seq![(Direction::In, street), (Direction::Out, new_street)];
    assert(h.intersections[at].connections == ca);
    assert(connected_once(ca, street)) by {
        assert(ca[0].1 == street);
        assert forall|j: int| 0 <= j < ca.len() && j != 0 implies (#[trigger] ca[j]).1 != street by {}
    }
    assert(connected_once(ca, new_street)) by {
        assert(ca[1].1 == new_street);
        assert forall|j: int| 0 <= j < ca.len() && j != 1 implies (#[trigger] ca[j]).1 != new_street by {}
    }
    assert forall|t: ElementId| #[trigger] h.streets.contains_key(t) implies {
        let st = h.streets[t];
        &&& st.start != st.end
        &&& h.intersections.contains_key(st.start)
        &&& h.intersections.contains_key(st.end)
        &&& connected_once(h.intersections[st.start].connections, t)
        &&& connected_once(h.intersections[st.end].connections, t)
    } by {
        if t == street {
            assert(h.intersections[a] == g.intersections[a]);
        } else if t == new_street {
        } else {
            let st = g.streets[t];
            assert(h.streets[t] == st);
            assert(connected_once(g.intersections[st.start].connections, t));
            assert(connected_once(g.intersections[st.end].connections, t));
            if st.start == b {
                lemma_push_keeps_once(r, (Direction::In, new_street), t);
            }
            if st.end == b {
                lemma_push_keeps_once(r, (Direction::In, new_street), t);
            }
        }
    }
    assert forall|k: ElementId, i: int| #[trigger] h.intersections.contains_key(k) && 0 <= i < h.intersections[k].connections.len()
        implies connection_valid(h, k, #[trigger] h.intersections[k].connections[i]) by {
        let c = h.intersections[k].connections[i];
        if k == at {
        } else if k == b {
            if i < r.len() {
                assert(c == r[i]);
                assert(cb.contains(c));
                let p = choose|p: int| 0 <= p < cb.len() && cb[p] == c;
                assert(connection_valid(g, b, g.intersections[b].connections[p]));
            }
        } else {
            assert(c == g.intersections[k].connections[i]);
            assert(connection_valid(g, k, c));
            if c.1 == street && c.0 == Direction::In {
                assert(false);
            }
        }
    }
}

/// Moving the end of a street of a consistent map from its old end to
/// another existing intersection than its start leaves a consistent map.
pub proof fn law_reconnect_end_keeps_graph_wf(g: GraphView, street: ElementId, new_end: ElementId)
    requires
        graph_wf(g),
        g.streets.contains_key(street),
        g.intersections.contains_key(new_end),
        new_end != g.streets[street].start,
    ensures
        graph_wf(spec_reconnect_end(g, street, g.streets[street].end, new_end)),
{
    let h = spec_reconnect_end(g, street, g.streets[street].end, new_end);
    let s = g.streets[street];
    let a = s.start;
    let b = s.end;
    let cb = g.intersections[b].connections;
    let r = spec_remove_connection(cb, street);
    lemma_remove_contents(cb, street);
    let m1 = g.intersections.insert(b, disconnect(g.intersections[b], street));
    let cn = m1[new_end].connections;
    // The street is not connected at new_end before it is added there.
    assert forall|j: int| 0 <= j < cn.len() implies (#[trigger] cn[j]).1 != street by {
        if new_end == b {
            assert(cn[j] == r[j]);
        } else {
            assert(cn[j] == g.intersections[new_end].connections[j]);
            assert(connection_valid(g, new_end, g.intersections[new_end].connections[j]));
            if cn[j].1 == street {
                assert(cn[j].0 == Direction::Out ==> g.streets[street].start == new_end);
            }
        }
    }
    lemma_push_new_once(cn, (Direction::In, street));
    assert forall|t: ElementId| #[trigger] h.streets.contains_key(t) implies {
        let st = h.streets[t];
        &&& st.start != st.end
        &&& h.intersections.contains_key(st.start)
        &&& h.intersections.contains_key(st.end)
        &&& connected_once(h.intersections[st.start].connections, t)
        &&& connected_once(h.intersections[st.end].connections, t)
    } by {
        if t == street {
            assert(h.intersections[a] == g.intersections[a]);
        } else {
            let st = g.streets[t];
            assert(h.streets[t] == st);
            assert(connected_once(g.intersections[st.start].connections, t));
            assert(connected_once(g.intersections[st.end].connections, t));
            assert forall|x: ElementId| x == st.start || x == st.end implies connected_once(h.intersections[x].connections, t) by {
                assert(connected_once(g.intersections[x].connections, t));
                assert(connected_once(m1[x].connections, t)) by {
                    if x == b {
                        assert(m1[x].connections == r);
                    }
                }
                if x == new_end {
                    lemma_push_keeps_once(m1[x].connections, (Direction::In, street), t);
                }
            }
        }
    }
    assert forall|k: ElementId, i: int| #[trigger] h.intersections.contains_key(k) && 0 <= i < h.intersections[k].connections.len()
        implies connection_valid(h, k, #[trigger] h.intersections[k].connections[i]) by {
        let c = h.intersections[k].connections[i];
        if k == new_end && i == cn.len() {
        } else {
            assert(c == m1[k].connections[i]);
            if k == b {
                assert(c == r[i]);
                assert(cb.contains(c));
                let p = choose|p: int| 0 <= p < cb.len() && cb[p] == c;
                assert(connection_valid(g, b, g.intersections[b].connections[p]));
            } else {
                assert(c == g.intersections[k].connections[i]);
                assert(connection_valid(g, k, c));
                if c.1 == street && c.0 == Direction::In {
                    assert(false);
                }
            }
        }
    }
}


/// The streets of `cs` are pairwise distinct.
pub open spec fn distinct_streets(cs: Seq<Connection>) -> bool {
    forall|a: int, b: int| 0 <= a < b < cs.len() ==> (#[trigger] cs[a]).1 != (#[trigger] cs[b]).1
}

proof fn lemma_link_prefix_value(m: Map<ElementId, StreetLinks>, cs: Seq<Connection>, k: int)
    requires
        0 <= k <= cs.len(),
        distinct_streets(cs),
    ensures
        forall|j: int| 0 <= j < k ==> #[trigger] link_prefix(m, cs, k)[cs[j].1] == linked(m[cs[j].1], cs, j),
        forall|x: ElementId| (forall|j: int| 0 <= j < k ==> (#[trigger] cs[j]).1 != x) ==> #[trigger] link_prefix(m, cs, k)[x] == m[x],
    decreases k,
{
    if k > 0 {
        lemma_link_prefix_value(m, cs, k - 1);
        let before = link_prefix(m, cs, k - 1);
        let id = cs[k - 1].1;
        assert(forall|j: int| 0 <= j < k - 1 ==> (#[trigger] cs[j]).1 != id);
        assert(before[id] == m[id]);
        assert forall|j: int| 0 <= j < k implies #[trigger] link_prefix(m, cs, k)[cs[j].1] == linked(m[cs[j].1], cs, j) by {
            if j < k - 1 {
                assert(cs[j].1 != id);
            }
        }
    }
}

/// Rearranging the streets around an intersection of a consistent map
/// links each of them for its new position: a street entering there gets
/// as next neighbours the streets before (right) and after (left) it, a
/// street leaving gets them as previous neighbours the other way round, a
/// street is never its own neighbour, and the streets elsewhere keep their
/// links.
pub proof fn law_reorder_links_neighbours(g: GraphView, at: ElementId, order: Seq<usize>)
    requires
        graph_wf(g),
        g.intersections.contains_key(at),
        is_permutation(order, g.intersections[at].connections.len()),
    ensures
        ({
            let cs = permuted(g.intersections[at].connections, order);
            let streets = link_prefix(g.streets, cs, cs.len() as int);
            &&& forall|k: int| 0 <= k < cs.len() ==> #[trigger] streets[cs[k].1] == linked(g.streets[cs[k].1], cs, k)
            &&& forall|x: ElementId| !connects(cs, x) ==> #[trigger] streets[x] == g.streets[x]
        }),
{
    let s0 = g.intersections[at].connections;
    let cs = permuted(s0, order);
    assert(distinct_streets(cs)) by {
        assert forall|a: int, b: int| 0 <= a < b < cs.len() implies (#[trigger] cs[a]).1 != (#[trigger] cs[b]).1 by {
            let pa = order[a] as int;
            let pb = order[b] as int;
            assert(cs[a] == s0[pa]);
            assert(cs[b] == s0[pb]);
            assert(order[a] != order[b]);
            if cs[a].1 == cs[b].1 {
                let t = cs[a].1;
                assert(connection_valid(g, at, g.intersections[at].connections[pa]));
                let st = g.streets[t];
                assert(connected_once(g.intersections[st.start].connections, t));
                assert(connected_once(g.intersections[st.end].connections, t));
                assert(st.start == at || st.end == at);
                assert(connected_once(s0, t));
                let i = choose|i: int| 0 <= i < s0.len() && s0[i].1 == t && forall|j: int| 0 <= j < s0.len() && j != i ==> (#[trigger] s0[j]).1 != t;
                assert(s0[pa].1 == t && s0[pb].1 == t);
                assert(pa == i);
                assert(pb == i);
            }
        }
    }
    lemma_link_prefix_value(g.streets, cs, cs.len() as int);
    assert forall|x: ElementId| !connects(cs, x) implies #[trigger] link_prefix(g.streets, cs, cs.len() as int)[x] == g.streets[x] by {
        assert forall|j: int| 0 <= j < cs.len() implies (#[trigger] cs[j]).1 != x by {
            if cs[j].1 == x {
                assert(connects(cs, x));
            }
        }
    }
}


/// After the streets around an intersection of a consistent map are
/// rearranged, a street entering there at position `k` of the new
/// arrangement of `n` streets has as left next neighbour the street at
/// position `(k + 1) mod n` and as right next neighbour the street at
/// position `(k - 1) mod n`; a street leaving there has them the other way
/// round as previous neighbours (right: `(k + 1) mod n`, left:
/// `(k - 1) mod n`). A street is never its own neighbour, and its other
/// links, its id and its ends stay as they were.
pub proof fn law_reorder_neighbours_by_position(g: GraphView, at: ElementId, order: Seq<usize>)
    requires
        graph_wf(g),
        g.intersections.contains_key(at),
        is_permutation(order, g.intersections[at].connections.len()),
    ensures
        ({
            let cs = permuted(g.intersections[at].connections, order);
            let n = cs.len() as int;
            let streets = link_prefix(g.streets, cs, n);
            forall|k: int| 0 <= k < n ==> {
                let id = (#[trigger] cs[k]).1;
                let after = cs[(k + 1) % n].1;
                let before = cs[(k + n - 1) % n].1;
                let old_st = g.streets[id];
                let st = streets[id];
                &&& st.id == id && st.start == old_st.start && st.end == old_st.end
                &&& cs[k].0 == Direction::In ==> {
                    &&& st.left_next == (if after != id { Some(after) } else { None })
                    &&& st.right_next == (if before != id { Some(before) } else { None })
                    &&& st.left_previous == old_st.left_previous
                    &&& st.right_previous == old_st.right_previous
                }
                &&& cs[k].0 == Direction::Out ==> {
                    &&& st.right_previous == (if after != id { Some(after) } else { None })
                    &&& st.left_previous == (if before != id { Some(before) } else { None })
                    &&& st.left_next == old_st.left_next
                    &&& st.right_next == old_st.right_next
                }
            }
        }),
{
    law_reorder_links_neighbours(g, at, order);
    let cs = permuted(g.intersections[at].connections, order);
    let n = cs.len() as int;
    assert forall|k: int| 0 <= k < n implies
        neighbour_after(k, n) == (k + 1) % n && neighbour_before(k, n) == (k + n - 1) % n
        && g.streets.contains_key((#[trigger] cs[k]).1) by {
        if k < n - 1 {
            vstd::arithmetic::div_mod::lemma_small_mod((k + 1) as nat, n as nat);
            assert((k + 1) % n == k + 1);
        } else {
            vstd::arithmetic::div_mod::lemma_mod_self_0(n);
            assert((k + 1) % n == 0);
        }
        if k > 0 {
            vstd::arithmetic::div_mod::lemma_mod_add_multiples_vanish(k - 1, n);
            vstd::arithmetic::div_mod::lemma_small_mod((k - 1) as nat, n as nat);
            assert((k + n - 1) % n == k - 1);
        } else {
            vstd::arithmetic::div_mod::lemma_small_mod((n - 1) as nat, n as nat);
            assert((k + n - 1) % n == n - 1);
        }
        let o = order[k] as int;
        assert(cs[k] == g.intersections[at].connections[o]);
        assert(connection_valid(g, at, g.intersections[at].connections[o]));
    }
}

/// A map without streets and intersections is consistent, and adding an
/// intersection without streets under an unused id keeps a map consistent.
pub proof fn law_new_intersection_keeps_graph_wf(g: GraphView, i: IntersectionView)
    requires
        graph_wf(g),
        !g.intersections.contains_key(i.id),
        i.connections.len() == 0,
    ensures
        graph_wf(GraphView { streets: Map::empty(), intersections: Map::empty() }),
        graph_wf(GraphView { streets: g.streets, intersections: g.intersections.insert(i.id, i) }),
{
    let h = GraphView { streets: g.streets, intersections: g.intersections.insert(i.id, i) };
    assert forall|t: ElementId| #[trigger] h.streets.contains_key(t) implies {
        let st = h.streets[t];
        &&& st.start != st.end
        &&& h.intersections.contains_key(st.start)
        &&& h.intersections.contains_key(st.end)
        &&& connected_once(h.intersections[st.start].connections, t)
        &&& connected_once(h.intersections[st.end].connections, t)
    } by {
        let st = g.streets[t];
        assert(g.intersections.contains_key(st.start));
        assert(g.intersections.contains_key(st.end));
    }
    assert forall|k: ElementId, j: int| #[trigger] h.intersections.contains_key(k) && 0 <= j < h.intersections[k].connections.len()
        implies connection_valid(h, k, #[trigger] h.intersections[k].connections[j]) by {
        assert(k != i.id);
        assert(connection_valid(g, k, g.intersections[k].connections[j]));
    }
}

} // verus!
