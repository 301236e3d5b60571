use vstd::prelude::*;

use crate::city::ids::ElementId;
use crate::city::topology::{spec_next, spec_previous, GraphView, Side, StreetGraph, StreetLinks};

verus! {

/// Where a walk along linked streets stands: the current street, the side
/// it follows, whether it goes along the street's direction, and the
/// neighbour it is about to move to.
#[derive(Clone, Copy, PartialEq, Eq, Debug, Structural)]
pub struct Walk {
    pub street: ElementId,
    pub side: Side,
    pub forward: bool,
    pub next: Option<ElementId>,
}

/// A street that a walk passed: the side it followed there, and whether it
/// went along the street's direction (then the street's start is the
/// corner reached first, else its end).
#[derive(Clone, Copy, PartialEq, Eq, Debug, Structural)]
pub struct WalkStep {
    pub side: Side,
    pub street: ElementId,
    pub forward: bool,
}

/// How a walk ended, in the mathematical model.
pub enum WalkOutcome {
    /// It stopped by its own rule, after passing `steps`; `last` is where it
    /// stood.
    Done { steps: Seq<WalkStep>, last: Walk },
    /// A link or a street end named an element that the map does not hold.
    Broken,
    /// It was still going after the allowed number of steps.
    Unfinished,
}

/// Why a walk gave no result.
#[derive(Clone, Copy, PartialEq, Eq, Debug, Structural)]
pub enum WalkError {
    /// A link or a street end names an element that the map does not hold.
    BrokenLink,
    /// The walk came back to a state it had been in without reaching its
    /// stop, so it would go on for ever.
    Endless,
}

/// The walk at its start: on street `start`, following `side`, forward,
/// about to move to the street's next neighbour on that side.
pub open spec fn initial_walk(streets: Map<ElementId, StreetLinks>, start: ElementId, side: Side) -> Option<Walk> {
    if streets.contains_key(start) {
        Some(Walk { street: start, side, forward: true, next: spec_next(streets[start], side) })
    } else {
        None
    }
}

/// One move: from the current street to the neighbour on the side followed,
/// ahead when going forward and behind otherwise. Where the two streets
/// share their start or their end, the walk turns round: it goes the other
/// way and follows the other side. `None` where a street is missing.
pub open spec fn walk_step(streets: Map<ElementId, StreetLinks>, w: Walk) -> Option<Walk> {
    if !streets.contains_key(w.street) {
        None
    } else {
        let cur = streets[w.street];
        let next = if w.forward { spec_next(cur, w.side) } else { spec_previous(cur, w.side) };
        match next {
            None => Some(Walk { next: None, ..w }),
            Some(n) => if !streets.contains_key(n) {
                None
            } else {
                let turn = cur.start == streets[n].start || cur.end == streets[n].end;
                Some(Walk {
                    street: n,
                    side: if turn { w.side.opposite_spec() } else { w.side },
                    forward: if turn { !w.forward } else { w.forward },
                    next: Some(n),
                })
            },
        }
    }
}

/// Whether the walk moves on from `w`: it has a neighbour to move to that
/// is not the street it began on, and, for a walk along a chain, the
/// current street ends at an intersection of exactly two streets. `None`
/// where that test meets a missing element.
pub open spec fn walk_continues(g: GraphView, start: ElementId, w: Walk, chain: bool) -> Option<bool> {
    match w.next {
        None => Some(false),
        Some(n) => if n == start {
            Some(false)
        } else if !chain {
            Some(true)
        } else if !g.streets.contains_key(w.street) {
            None
        } else if !g.intersections.contains_key(g.streets[w.street].end) {
            None
        } else {
            Some(g.intersections[g.streets[w.street].end].connections.len() == 2)
        },
    }
}

/// What a walk records of the street it stands on.
pub open spec fn step_of(w: Walk) -> WalkStep {
    WalkStep { side: w.side, street: w.street, forward: w.forward }
}

/// The walk from `w`, for at most `fuel` moves.
pub open spec fn walk(g: GraphView, start: ElementId, w: Walk, chain: bool, fuel: nat) -> WalkOutcome
    decreases fuel,
{
    match walk_continues(g, start, w, chain) {
        None => WalkOutcome::Broken,
        Some(false) => WalkOutcome::Done { steps: Seq::empty(), last: w },
        Some(true) => if fuel == 0 {
            WalkOutcome::Unfinished
        } else {
            match walk_step(g.streets, w) {
                None => WalkOutcome::Broken,
                Some(w2) => with_prefix(seq![step_of(w)], walk(g, start, w2, chain, (fuel - 1) as nat)),
            }
        },
    }
}

/// An outcome with `pre` passed before it.
pub open spec fn with_prefix(pre: Seq<WalkStep>, o: WalkOutcome) -> WalkOutcome {
    match o {
        WalkOutcome::Done { steps, last } => WalkOutcome::Done { steps: pre + steps, last },
        other => other,
    }
}

/// The number of moves after which a walk must have stopped: a walk that
/// has made more has been twice in one of the `4 · streets` states (a
/// street, a side, a direction) and repeats itself from there.
pub open spec fn walk_fuel(g: GraphView) -> nat {
    4 * g.streets.len() + 1
}

/// However many moves the walk from `start` is allowed beyond `walk_fuel`,
/// it does not stop.
pub open spec fn never_stops(g: GraphView, start: ElementId, side: Side, chain: bool) -> bool {
    &&& initial_walk(g.streets, start, side) is Some
    &&& forall|f: nat| f >= walk_fuel(g)
        ==> #[trigger] walk(g, start, initial_walk(g.streets, start, side)->0, chain, f) is Unfinished
}

/// The walk from `start` along `side`, as the map editor's tools make it.
pub open spec fn spec_walk(g: GraphView, start: ElementId, side: Side, chain: bool) -> WalkOutcome {
    match initial_walk(g.streets, start, side) {
        None => WalkOutcome::Broken,
        Some(w) => walk(g, start, w, chain, walk_fuel(g)),
    }
}

proof fn lemma_prefix_assoc(a: Seq<WalkStep>, b: Seq<WalkStep>, o: WalkOutcome)
    ensures
        with_prefix(a, with_prefix(b, o)) == with_prefix(a + b, o),
{
    match o {
        WalkOutcome::Done { steps, last } => {
            assert(a + (b + steps) =~= (a + b) + steps);
        },
        _ => {},
    }
}

/// Walks from street `start` along `side`: returns the streets passed and
/// where the walk stood when it stopped.
fn run_walk(g: &StreetGraph, start: ElementId, side: Side, chain: bool) -> (r: Result<(Vec<WalkStep>, Walk), WalkError>)
    ensures
        match spec_walk(g@, start, side, chain) {
            WalkOutcome::Done { steps, last } => r matches Ok((s, l)) && s@ == steps && l == last,
            WalkOutcome::Broken => r == Err::<(Vec<WalkStep>, Walk), WalkError>(WalkError::BrokenLink),
            WalkOutcome::Unfinished => r == Err::<(Vec<WalkStep>, Walk), WalkError>(WalkError::Endless),
        },
{
    let ghost gv = g@;
    let first = match g.street(start) {
        Some(s) => *s,
        None => {
            return Err(WalkError::BrokenLink);
        },
    };
    let mut w = Walk { street: start, side, forward: true, next: first.get_next(side) };
    let fuel: u128 = 4u128 * (g.streets_len() as u128) + 1;
    let mut used: u128 = 0;
    let mut steps: Vec<WalkStep> = Vec::new();
    let ghost w0 = w;
    assert(with_prefix(steps@, walk(gv, start, w, chain, (fuel - used) as nat)) == walk(gv, start, w0, chain, fuel as nat)) by {
        assert(steps@ == Seq::<WalkStep>::empty());
        match walk(gv, start, w, chain, fuel as nat) {
            WalkOutcome::Done { steps: s, last } => {
                assert(Seq::<WalkStep>::empty() + s =~= s);
            },
            _ => {},
        }
    }
    loop
        invariant
            gv == g@,
            used <= fuel,
            fuel == walk_fuel(gv),
            initial_walk(gv.streets, start, side) == Some(w0),
            with_prefix(steps@, walk(gv, start, w, chain, (fuel - used) as nat)) == walk(gv, start, w0, chain, fuel as nat),
        decreases fuel - used,
    {
        // Does the walk move on?
        let go_on = match w.next {
            None => false,
            Some(n) => if n == start {
                false
            } else if !chain {
                true
            } else {
                let cur = match g.street(w.street) {
                    Some(s) => *s,
                    None => {
                        return Err(WalkError::BrokenLink);
                    },
                };
                match g.intersection(cur.end) {
                    Some(i) => i.get_connected_streets().len() == 2,
                    None => {
                        return Err(WalkError::BrokenLink);
                    },
                }
            },
        };
        assert(walk_continues(gv, start, w, chain) == Some(go_on));
        if !go_on {
            proof {
                let s = steps@;
                assert(s + Seq::<WalkStep>::empty() =~= s);
            }
            return Ok((steps, w));
        }
        if used == fuel {
            return Err(WalkError::Endless);
        }
        // Move.
        let cur = match g.street(w.street) {
            Some(s) => *s,
            None => {
                return Err(WalkError::BrokenLink);
            },
        };
        let next = if w.forward { cur.get_next(w.side) } else { cur.get_previous(w.side) };
        let ghost rest = (fuel - used - 1) as nat;
        let ghost before = steps@;
        match next {
            None => {
                proof {
                    assert(walk_step(gv.streets, w) == Some(Walk { next: None, ..w }));
                    let w2 = Walk { next: None, ..w };
                    assert(walk_continues(gv, start, w2, chain) == Some(false));
                    assert(walk(gv, start, w2, chain, rest) == WalkOutcome::Done { steps: Seq::empty(), last: w2 });
                }
                steps.push(WalkStep { side: w.side, street: w.street, forward: w.forward });
                proof {
                    lemma_prefix_assoc(before, seq![step_of(w)], walk(gv, start, Walk { next: None, ..w }, chain, rest));
                    assert(before.push(step_of(w)) =~= before + seq![step_of(w)]);
                }
                w = Walk { next: None, ..w };
            },
            Some(n) => {
                let ns = match g.street(n) {
                    Some(s) => *s,
                    None => {
                        return Err(WalkError::BrokenLink);
                    },
                };
                let turn = cur.start == ns.start || cur.end == ns.end;
                let w2 = Walk {
                    street: n,
                    side: if turn { w.side.opposite() } else { w.side },
                    forward: if turn { !w.forward } else { w.forward },
                    next: Some(n),
                };
                assert(walk_step(gv.streets, w) == Some(w2));
                steps.push(WalkStep { side: w.side, street: w.street, forward: w.forward });
                proof {
                    lemma_prefix_assoc(before, seq![step_of(w)], walk(gv, start, w2, chain, rest));
                    assert(before.push(step_of(w)) =~= before + seq![step_of(w)]);
                }
                w = w2;
            },
        }
        used = used + 1;
    }
}

/// The streets of the chain that street `start` belongs to: the walk goes
/// along the left side through intersections of exactly two streets, and
/// stops at the first intersection with another number of streets, where
/// no neighbour follows, or when it is back at `start`. The streets passed
/// come in the order of the walk, and the street where it stopped last.
pub fn connected_streets(g: &StreetGraph, start: ElementId) -> (r: Result<Vec<ElementId>, WalkError>)
    ensures
        match spec_walk(g@, start, Side::Left, true) {
            WalkOutcome::Done { steps, last } => r matches Ok(v)
                && v@ == steps.map_values(|s: WalkStep| s.street).push(last.street),
            WalkOutcome::Broken => r == Err::<Vec<ElementId>, WalkError>(WalkError::BrokenLink),
            WalkOutcome::Unfinished => r == Err::<Vec<ElementId>, WalkError>(WalkError::Endless),
        },
        r == Err::<Vec<ElementId>, WalkError>(WalkError::Endless) ==> never_stops(g@, start, Side::Left, true),
{
    match run_walk(g, start, Side::Left, true) {
        Ok((steps, last)) => {
            let mut v: Vec<ElementId> = Vec::new();
            let mut k: usize = 0;
            while k < steps.len()
                invariant
                    k <= steps@.len(),
                    v@ == steps@.take(k as int).map_values(|s: WalkStep| s.street),
                decreases steps@.len() - k,
            {
                v.push(steps[k].street);
                assert(v@ =~= steps@.take(k + 1).map_values(|s: WalkStep| s.street));
                k = k + 1;
            }
            assert(steps@.take(k as int) =~= steps@);
            v.push(last.street);
            Ok(v)
        },
        Err(e) => {
            proof {
                if e == WalkError::Endless {
                    lemma_endless_never_stops(g, start, Side::Left, true);
                }
            }
            Err(e)
        },
    }
}

/// Whether street `street` lies on the border of an enclosed area: the walk
/// follows `side` from street to street, turning round where two streets
/// meet head to head or tail to tail, until no neighbour follows or it is
/// back at `street`. Returns whether it came back (the area is enclosed)
/// and the streets passed, each with the side followed and whether it was
/// passed along its direction (its start is then the corner of the area,
/// else its end).
pub fn enclosed(side: Side, street: ElementId, g: &StreetGraph) -> (r: Result<(bool, Vec<WalkStep>), WalkError>)
    ensures
        match spec_walk(g@, street, side, false) {
            WalkOutcome::Done { steps, last } => r matches Ok((closed, v))
                && v@ == steps && closed == (last.next == Some(street)),
            WalkOutcome::Broken => r == Err::<(bool, Vec<WalkStep>), WalkError>(WalkError::BrokenLink),
            WalkOutcome::Unfinished => r == Err::<(bool, Vec<WalkStep>), WalkError>(WalkError::Endless),
        },
        r == Err::<(bool, Vec<WalkStep>), WalkError>(WalkError::Endless) ==> never_stops(g@, street, side, false),
{
    match run_walk(g, street, side, false) {
        Ok((steps, last)) => {
            let closed = match last.next {
                Some(n) => n == street,
                None => false,
            };
            Ok((closed, steps))
        },
        Err(e) => {
            proof {
                if e == WalkError::Endless {
                    lemma_endless_never_stops(g, street, side, false);
                }
            }
            Err(e)
        },
    }
}


/// Where the walk from `w` stands after `k` moves, if it makes them: each
/// move needs the walk to go on and the move to find its streets.
pub open spec fn state_after(g: GraphView, start: ElementId, w: Walk, chain: bool, k: nat) -> Option<Walk>
    decreases k,
{
    if k == 0 {
        Some(w)
    } else if walk_continues(g, start, w, chain) == Some(true) {
        match walk_step(g.streets, w) {
            Some(w2) => state_after(g, start, w2, chain, (k - 1) as nat),
            None => None,
        }
    } else {
        None
    }
}

/// The walk from `w` makes `k` moves and then still goes on.
pub open spec fn goes_on(g: GraphView, start: ElementId, w: Walk, chain: bool, k: nat) -> bool {
    state_after(g, start, w, chain, k) matches Some(v) && walk_continues(g, start, v, chain) == Some(true)
}

proof fn lemma_unfinished_iff(g: GraphView, start: ElementId, w: Walk, chain: bool, fuel: nat)
    ensures
        (walk(g, start, w, chain, fuel) is Unfinished) <==> (forall|k: nat| k <= fuel ==> #[trigger] goes_on(g, start, w, chain, k)),
    decreases fuel,
{
    if walk_continues(g, start, w, chain) == Some(true) && fuel > 0 {
        match walk_step(g.streets, w) {
            Some(w2) => {
                lemma_unfinished_iff(g, start, w2, chain, (fuel - 1) as nat);
                let inner = walk(g, start, w2, chain, (fuel - 1) as nat);
                assert((with_prefix(seq![step_of(w)], inner) is Unfinished) == (inner is Unfinished));
                assert forall|k: nat| 0 < k <= fuel implies #[trigger] goes_on(g, start, w, chain, k) == goes_on(g, start, w2, chain, (k - 1) as nat) by {}
                if forall|k: nat| k <= fuel ==> #[trigger] goes_on(g, start, w, chain, k) {
                    assert forall|k: nat| k <= (fuel - 1) as nat implies #[trigger] goes_on(g, start, w2, chain, k) by {
                        assert(goes_on(g, start, w, chain, k + 1));
                    }
                }
                if inner is Unfinished {
                    assert forall|k: nat| k <= fuel implies #[trigger] goes_on(g, start, w, chain, k) by {
                        if k > 0 {
                            assert(goes_on(g, start, w2, chain, (k - 1) as nat));
                        }
                    }
                }
            },
            None => {
                assert(!goes_on(g, start, w, chain, 1));
            },
        }
    } else {
        assert(goes_on(g, start, w, chain, 0) == (walk_continues(g, start, w, chain) == Some(true)));
    }
}

proof fn lemma_state_after_add(g: GraphView, start: ElementId, w: Walk, chain: bool, a: nat, b: nat)
    requires
        state_after(g, start, w, chain, a) is Some,
    ensures
        state_after(g, start, w, chain, a + b) == state_after(g, start, state_after(g, start, w, chain, a)->0, chain, b),
    decreases a,
{
    if a > 0 {
        let w2 = walk_step(g.streets, w)->0;
        lemma_state_after_add(g, start, w2, chain, (a - 1) as nat, b);
        assert((a + b - 1) as nat == ((a - 1) as nat + b) as nat);
    }
}

proof fn lemma_state_after_valid(g: GraphView, start: ElementId, w: Walk, chain: bool, k: nat)
    requires
        k >= 1,
        state_after(g, start, w, chain, k) matches Some(v) && v.next is Some,
    ensures
        ({
            let v = state_after(g, start, w, chain, k)->0;
            v.next == Some(v.street) && g.streets.contains_key(v.street)
        }),
    decreases k,
{
    let w2 = walk_step(g.streets, w)->0;
    assert(state_after(g, start, w, chain, k) == state_after(g, start, w2, chain, (k - 1) as nat));
    if k > 1 {
        lemma_state_after_valid(g, start, w2, chain, (k - 1) as nat);
    } else {
        assert(state_after(g, start, w2, chain, 0) == Some(w2));
        let cur = g.streets[w.street];
        let next = if w.forward { spec_next(cur, w.side) } else { spec_previous(cur, w.side) };
        if next is None {
            assert(w2.next is None);
        }
    }
}

/// The three things that tell two states of a walk apart once it moved.
spec fn walk_key(v: Walk) -> (ElementId, Side, bool) {
    (v.street, v.side, v.forward)
}

/// Among more than `4 · streets` moves of a walk that goes on, two reach the
/// same state.
proof fn lemma_walk_repeats(g: GraphView, start: ElementId, w: Walk, chain: bool)
    requires
        g.streets.dom().finite(),
        forall|k: nat| k <= walk_fuel(g) ==> #[trigger] goes_on(g, start, w, chain, k),
    ensures
        exists|i: nat, j: nat| 1 <= i < j <= walk_fuel(g) && state_after(g, start, w, chain, i) == state_after(g, start, w, chain, j),
{
    let fuel = walk_fuel(g);
    let n = g.streets.dom().len();
    let st = |k: int| state_after(g, start, w, chain, k as nat)->0;
    let f = |k: int| walk_key(st(k));
    let ks = vstd::set_lib::set_int_range(1, (fuel + 1) as int);
    vstd::set_lib::lemma_int_range(1, (fuel + 1) as int);
    assert forall|k: int| ks.contains(k) implies st(k).next == Some(st(k).street) && g.streets.contains_key(st(k).street) by {
        assert(goes_on(g, start, w, chain, k as nat));
        lemma_state_after_valid(g, start, w, chain, k as nat);
    }
    if !(exists|i: nat, j: nat| 1 <= i < j <= fuel && state_after(g, start, w, chain, i) == state_after(g, start, w, chain, j)) {
        assert(vstd::relations::injective_on(f, ks)) by {
            assert forall|a: int, b: int| ks.contains(a) && ks.contains(b) && #[trigger] f(a) == #[trigger] f(b) implies a == b by {
                assert(goes_on(g, start, w, chain, a as nat));
                assert(goes_on(g, start, w, chain, b as nat));
                assert(st(a) == st(b));
                if a < b {
                    assert(state_after(g, start, w, chain, a as nat) == state_after(g, start, w, chain, b as nat));
                } else if b < a {
                    assert(state_after(g, start, w, chain, b as nat) == state_after(g, start, w, chain, a as nat));
                }
            }
        }
        let image = ks.map(f);
        vstd::set_lib::lemma_map_size(ks, image, f);
        let dom = g.streets.dom();
        let f1 = |s: ElementId| (s, Side::Left, true);
        let f2 = |s: ElementId| (s, Side::Left, false);
        let f3 = |s: ElementId| (s, Side::Right, true);
        let f4 = |s: ElementId| (s, Side::Right, false);
        let t1 = dom.map(f1);
        let t2 = dom.map(f2);
        let t3 = dom.map(f3);
        let t4 = dom.map(f4);
        vstd::set_lib::lemma_map_size(dom, t1, f1);
        vstd::set_lib::lemma_map_size(dom, t2, f2);
        vstd::set_lib::lemma_map_size(dom, t3, f3);
        vstd::set_lib::lemma_map_size(dom, t4, f4);
        let all = t1.union(t2).union(t3).union(t4);
        vstd::set_lib::lemma_len_union(t1, t2);
        vstd::set_lib::lemma_len_union(t1.union(t2), t3);
        vstd::set_lib::lemma_len_union(t1.union(t2).union(t3), t4);
        assert(image.subset_of(all)) by {
            assert forall|x: (ElementId, Side, bool)| image.contains(x) implies all.contains(x) by {
                let k = choose|k: int| ks.contains(k) && x == f(k);
                let s = st(k).street;
                assert(dom.contains(s));
                match (x.1, x.2) {
                    (Side::Left, true) => assert(t1.contains(f1(s))),
                    (Side::Left, false) => assert(t2.contains(f2(s))),
                    (Side::Right, true) => assert(t3.contains(f3(s))),
                    (Side::Right, false) => assert(t4.contains(f4(s))),
                }
            }
        }
        vstd::set_lib::lemma_len_subset(image, all);
        assert(false);
    }
}

proof fn lemma_goes_on_forever(g: GraphView, start: ElementId, w: Walk, chain: bool, i: nat, j: nat, k: nat)
    requires
        1 <= i < j <= walk_fuel(g),
        state_after(g, start, w, chain, i) == state_after(g, start, w, chain, j),
        forall|m: nat| m <= walk_fuel(g) ==> #[trigger] goes_on(g, start, w, chain, m),
    ensures
        goes_on(g, start, w, chain, k),
    decreases k,
{
    if k > walk_fuel(g) {
        assert(goes_on(g, start, w, chain, j));
        assert(goes_on(g, start, w, chain, i));
        let v = state_after(g, start, w, chain, j)->0;
        lemma_state_after_add(g, start, w, chain, j, (k - j) as nat);
        lemma_state_after_add(g, start, w, chain, i, (k - j) as nat);
        assert(k == j + (k - j) as nat);
        let earlier = (i + (k - j)) as nat;
        lemma_goes_on_forever(g, start, w, chain, i, j, earlier);
        assert(state_after(g, start, w, chain, k) == state_after(g, start, w, chain, earlier));
    }
}

/// A walk that has not stopped after `walk_fuel` moves never stops: it
/// is still going however many moves it is allowed, because it has come
/// back to a state it was in before.
pub proof fn law_unfinished_walk_never_stops(g: GraphView, start: ElementId, side: Side, chain: bool, fuel: nat)
    requires
        g.streets.dom().finite(),
        spec_walk(g, start, side, chain) is Unfinished,
        fuel >= walk_fuel(g),
    ensures
        initial_walk(g.streets, start, side) matches Some(w) && walk(g, start, w, chain, fuel) is Unfinished,
{
    let w = initial_walk(g.streets, start, side)->0;
    lemma_unfinished_iff(g, start, w, chain, walk_fuel(g));
    lemma_walk_repeats(g, start, w, chain);
    let (i, j) = choose|i: nat, j: nat| 1 <= i < j <= walk_fuel(g) && state_after(g, start, w, chain, i) == state_after(g, start, w, chain, j);
    assert forall|k: nat| k <= fuel implies #[trigger] goes_on(g, start, w, chain, k) by {
        lemma_goes_on_forever(g, start, w, chain, i, j, k);
    }
    lemma_unfinished_iff(g, start, w, chain, fuel);
}


proof fn lemma_endless_never_stops(g: &StreetGraph, start: ElementId, side: Side, chain: bool)
    requires
        spec_walk(g@, start, side, chain) is Unfinished,
    ensures
        never_stops(g@, start, side, chain),
{
    g.lemma_finite();
    law_unfinished_walk_never_stops(g@, start, side, chain, walk_fuel(g@));
    assert forall|f: nat| f >= walk_fuel(g@)
        implies #[trigger] walk(g@, start, initial_walk(g@.streets, start, side)->0, chain, f) is Unfinished by {
        law_unfinished_walk_never_stops(g@, start, side, chain, f);
    }
}

/// The neighbour a walk standing at `a` moves to: ahead of the street when
/// it goes forward, behind it otherwise, on the side it follows.
spec fn ahead(g: GraphView, a: WalkStep) -> Option<ElementId> {
    let sa = g.streets[a.street];
    if a.forward { spec_next(sa, a.side) } else { spec_previous(sa, a.side) }
}

/// `b` is where a walk standing at `a` stands after one move.
spec fn moved(g: GraphView, a: WalkStep, b: WalkStep) -> bool {
    &&& g.streets.contains_key(a.street)
    &&& match ahead(g, a) {
        None => b == a,
        Some(n) => {
            &&& b.street == n
            &&& g.streets.contains_key(n)
            &&& ((b.side != a.side) <==> (g.streets[a.street].start == g.streets[n].start
                || g.streets[a.street].end == g.streets[n].end))
            &&& ((b.forward != a.forward) <==> (g.streets[a.street].start == g.streets[n].start
                || g.streets[a.street].end == g.streets[n].end))
        },
    }
}

/// What holds of every walk that stops by its own rule, from any state.
proof fn lemma_walk_trace(g: GraphView, start: ElementId, w: Walk, chain: bool, fuel: nat)
    requires
        walk(g, start, w, chain, fuel) is Done,
    ensures
        ({
            let steps = walk(g, start, w, chain, fuel)->Done_steps;
            let last = walk(g, start, w, chain, fuel)->Done_last;
            let states = steps.push(step_of(last));
            &&& states[0] == step_of(w)
            &&& forall|i: int| 0 <= i < steps.len() ==> moved(g, #[trigger] states[i], states[i + 1])
            &&& forall|i: int| 0 <= i < steps.len() && ahead(g, #[trigger] states[i]) is None
                ==> i + 1 == steps.len() && last.next is None
            &&& chain ==> forall|i: int| 0 <= i < steps.len() ==> {
                let e = g.streets[(#[trigger] steps[i]).street].end;
                g.intersections.contains_key(e) && g.intersections[e].connections.len() == 2
            }
            &&& walk_continues(g, start, last, chain) == Some(false)
        }),
    decreases fuel,
{
    match walk_continues(g, start, w, chain) {
        Some(true) => {
            let w2 = walk_step(g.streets, w)->0;
            let inner = walk(g, start, w2, chain, (fuel - 1) as nat);
            lemma_walk_trace(g, start, w2, chain, (fuel - 1) as nat);
            let steps2 = inner->Done_steps;
            let last = inner->Done_last;
            let steps = seq![step_of(w)] + steps2;
            assert(walk(g, start, w, chain, fuel)->Done_steps == steps);
            let states2 = steps2.push(step_of(last));
            let states = steps.push(step_of(last));
            assert(states =~= seq![step_of(w)] + states2);
            assert(g.streets.contains_key(w.street));
            let a = step_of(w);
            assert(ahead(g, a) == (if w.forward { spec_next(g.streets[w.street], w.side) } else { spec_previous(g.streets[w.street], w.side) }));
            if ahead(g, a) is None {
                assert(w2 == Walk { next: None, ..w });
                assert(walk_continues(g, start, w2, chain) == Some(false));
                assert(steps2.len() == 0);
            }
            assert(moved(g, states[0], states[1]));
            assert forall|i: int| 0 <= i < steps.len() implies moved(g, #[trigger] states[i], states[i + 1]) by {
                if i > 0 {
                    assert(states[i] == states2[i - 1]);
                    assert(states[i + 1] == states2[i]);
                }
            }
            assert forall|i: int| 0 <= i < steps.len() && ahead(g, #[trigger] states[i]) is None
                implies i + 1 == steps.len() && last.next is None by {
                if i > 0 {
                    assert(states[i] == states2[i - 1]);
                }
            }
            if chain {
                assert forall|i: int| 0 <= i < steps.len() implies {
                    let e = g.streets[(#[trigger] steps[i]).street].end;
                    g.intersections.contains_key(e) && g.intersections[e].connections.len() == 2
                } by {
                    if i > 0 {
                        assert(steps[i] == steps2[i - 1]);
                    }
                }
            }
        },
        _ => {},
    }
}

/// A walk that stops by its own rule, as `enclosed` and `connected_streets`
/// report it. It begins on `start`, forward, on `side`. Each move goes to
/// the neighbour on the side followed, ahead of the street when going
/// forward and behind it otherwise; the walk turns round (the other side,
/// the other direction) exactly when the two streets share their start or
/// share their end. Where no neighbour follows, the walk stays and stops.
/// Along a chain, it only moves on from a street whose end intersection has
/// exactly two streets. It stops where no neighbour follows, where the next
/// street is `start`, or, along a chain, at a street whose end has another
/// number of streets.
#[verifier::rlimit(60)]
pub proof fn law_walk_moves(g: GraphView, start: ElementId, side: Side, chain: bool)
    requires
        spec_walk(g, start, side, chain) is Done,
    ensures
        ({
            let steps = spec_walk(g, start, side, chain)->Done_steps;
            let last = spec_walk(g, start, side, chain)->Done_last;
            let states = steps.push(WalkStep { side: last.side, street: last.street, forward: last.forward });
            &&& states[0] == WalkStep { side, street: start, forward: true }
            &&& forall|i: int| 0 <= i < steps.len() ==> {
                let a = #[trigger] states[i];
                let b = states[i + 1];
                let sa = g.streets[a.street];
                let ahead = if a.forward { spec_next(sa, a.side) } else { spec_previous(sa, a.side) };
                &&& g.streets.contains_key(a.street)
                &&& ahead is None ==> b == a && i + 1 == steps.len() && last.next is None
                &&& ahead matches Some(n) ==> {
                    let sb = g.streets[n];
                    let turn = sa.start == sb.start || sa.end == sb.end;
                    &&& g.streets.contains_key(n)
                    &&& b.street == n
                    &&& b.side == (if turn { a.side.opposite_spec() } else { a.side })
                    &&& b.forward == (if turn { !a.forward } else { a.forward })
                }
            }
            &&& chain ==> forall|i: int| 0 <= i < steps.len() ==> {
                let e = g.streets[(#[trigger] steps[i]).street].end;
                g.intersections.contains_key(e) && g.intersections[e].connections.len() == 2
            }
            &&& {
                ||| last.next is None
                ||| last.next == Some(start)
                ||| chain && g.streets.contains_key(last.street)
                    && g.intersections.contains_key(g.streets[last.street].end)
                    && g.intersections[g.streets[last.street].end].connections.len() != 2
            }
        }),
{
    let w = initial_walk(g.streets, start, side)->0;
    lemma_walk_trace(g, start, w, chain, walk_fuel(g));
    let steps = spec_walk(g, start, side, chain)->Done_steps;
    let last = spec_walk(g, start, side, chain)->Done_last;
    let states = steps.push(step_of(last));
    assert(states == steps.push(WalkStep { side: last.side, street: last.street, forward: last.forward }));
    assert forall|i: int| 0 <= i < steps.len() implies {
        let a = #[trigger] states[i];
        let b = states[i + 1];
        let sa = g.streets[a.street];
        let ahead = if a.forward { spec_next(sa, a.side) } else { spec_previous(sa, a.side) };
        &&& g.streets.contains_key(a.street)
        &&& ahead is None ==> b == a && i + 1 == steps.len() && last.next is None
        &&& ahead matches Some(n) ==> {
            let sb = g.streets[n];
            let turn = sa.start == sb.start || sa.end == sb.end;
            &&& g.streets.contains_key(n)
            &&& b.street == n
            &&& b.side == (if turn { a.side.opposite_spec() } else { a.side })
            &&& b.forward == (if turn { !a.forward } else { a.forward })
        }
    } by {
        assert(moved(g, states[i], states[i + 1]));
    }
}

} // verus!
