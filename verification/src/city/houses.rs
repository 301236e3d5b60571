use vstd::prelude::*;

verus! {

/// Each element of `v` paired with the one after it.
pub open spec fn spec_consecutive_pairs<T>(v: Seq<T>) -> Seq<(T, T)> {
    if v.len() == 0 {
        Seq::empty()
    } else {
        Seq::new((v.len() - 1) as nat, |k: int| (v[k], v[k + 1]))
    }
}

/// Each element of `v` paired with the one after it, in order.
pub fn consecutive_pairs<T: Copy>(v: &Vec<T>) -> (r: Vec<(T, T)>)
    ensures
        r@ == spec_consecutive_pairs(v@),
{
    let mut r: Vec<(T, T)> = Vec::new();
    let mut k: usize = 0;
    while v.len() > 0 && k < v.len() - 1
        invariant
            v@.len() > 0 ==> k < v@.len(),
            v@.len() == 0 ==> k == 0,
            r@ == spec_consecutive_pairs(v@).take(k as int),
        decreases v@.len() - k,
    {
        r.push((v[k], v[k + 1]));
        assert(r@ =~= spec_consecutive_pairs(v@).take(k + 1));
        k = k + 1;
    }
    assert(r@ =~= spec_consecutive_pairs(v@));
    r
}

/// An element of the outline of a part of a split polygon: a corner of the
/// polygon (by its position), or the point where the splitting line crosses
/// the polygon (by the position of that crossing).
#[derive(Clone, Copy, PartialEq, Eq, Debug, Structural)]
pub enum SplitItem {
    Corner(usize),
    Crossing(usize),
}

/// A part of a split polygon while it is built: its outline so far, and the
/// segment where the walk round the polygon comes back into it.
pub struct PartView {
    pub items: Seq<SplitItem>,
    pub crossback: Option<usize>,
}

/// The parts built so far, the one being extended, and the segment found
/// for the crossing at hand.
pub struct SplitState {
    pub parts: Seq<PartView>,
    pub current: int,
    pub other: Option<usize>,
}

/// The first crossing on segment `seg`.
pub open spec fn first_crossing(crossings: Seq<usize>, seg: usize) -> Option<int> {
    if exists|j: int| 0 <= j < crossings.len() && crossings[j] == seg {
        Some(choose|j: int| 0 <= j < crossings.len() && crossings[j] == seg && forall|m: int| 0 <= m < j ==> crossings[m] != seg)
    } else {
        None
    }
}

/// The first part that comes back in at segment `seg`.
pub open spec fn part_coming_back(parts: Seq<PartView>, seg: usize) -> Option<int> {
    if exists|k: int| 0 <= k < parts.len() && parts[k].crossback == Some(seg) {
        Some(choose|k: int| 0 <= k < parts.len() && parts[k].crossback == Some(seg) && forall|m: int| 0 <= m < k ==> parts[m].crossback != Some(seg))
    } else {
        None
    }
}

/// A part with `item` added to its outline.
pub open spec fn with_item(p: PartView, item: SplitItem) -> PartView {
    PartView { items: p.items.push(item), crossback: p.crossback }
}

/// One pair of consecutive crossings, looked at for the crossing `j` on
/// segment `seg`: where the pair holds `seg`, its other segment is where the
/// current part comes back; the crossing closes the current part, and the
/// walk goes on in the part that comes back at `seg` (a new one where there
/// is none), which the crossing opens.
pub open spec fn pair_step(s: SplitState, seg: usize, j: int, pair: (usize, usize)) -> SplitState {
    let other1 = if seg == pair.0 { Some(pair.1) } else { s.other };
    let other = if seg == pair.1 { Some(pair.0) } else { other1 };
    let cur = s.current;
    let parts1 = s.parts.update(cur, PartView { items: s.parts[cur].items.push(SplitItem::Crossing(j as usize)), crossback: other });
    match part_coming_back(parts1, seg) {
        Some(k) => if k == cur {
            SplitState { parts: parts1, current: cur, other }
        } else {
            SplitState { parts: parts1.update(k, with_item(parts1[k], SplitItem::Crossing(j as usize))), current: k, other }
        },
        None => SplitState {
            parts: parts1.push(PartView { items: seq![SplitItem::Crossing(j as usize)], crossback: None }),
            current: parts1.len() as int,
            other,
        },
    }
}

/// The state after the first `m` pairs were looked at for crossing `j`.
pub open spec fn pairs_steps(s: SplitState, seg: usize, j: int, pairs: Seq<(usize, usize)>, m: int) -> SplitState
    decreases m,
{
    if m <= 0 {
        s
    } else {
        pair_step(pairs_steps(s, seg, j, pairs, m - 1), seg, j, pairs[m - 1])
    }
}

/// Corner `i` joins the current part; where a crossing lies on segment `i`
/// (the side from corner `i` on), every pair of crossings is looked at.
pub open spec fn corner_step(s: SplitState, i: int, crossings: Seq<usize>) -> SplitState {
    let cur = s.current;
    let parts1 = s.parts.update(cur, with_item(s.parts[cur], SplitItem::Corner(i as usize)));
    let s1 = SplitState { parts: parts1, current: cur, other: s.other };
    match first_crossing(crossings, i as usize) {
        Some(j) => {
            let pairs = spec_consecutive_pairs(crossings);
            pairs_steps(SplitState { other: None, ..s1 }, i as usize, j, pairs, pairs.len() as int)
        },
        None => s1,
    }
}

/// The state after the first `n` corners.
pub open spec fn corners_steps(crossings: Seq<usize>, n: int) -> SplitState
    decreases n,
{
    if n <= 0 {
        SplitState { parts: seq![PartView { items: Seq::empty(), crossback: None }], current: 0, other: None }
    } else {
        corner_step(corners_steps(crossings, n - 1), n - 1, crossings)
    }
}

/// The outlines of the parts into which a polygon with `n` corners is split
/// by a line that crosses its segments `crossings` (in the order found).
pub open spec fn spec_split_plan(n: int, crossings: Seq<usize>) -> Seq<Seq<SplitItem>> {
    corners_steps(crossings, n).parts.map_values(|p: PartView| p.items)
}

/// A part while it is built.
struct Part {
    items: Vec<SplitItem>,
    crossback: Option<usize>,
}

spec fn part_view(p: Part) -> PartView {
    PartView { items: p.items@, crossback: p.crossback }
}

spec fn parts_view(v: Seq<Part>) -> Seq<PartView> {
    v.map_values(|p: Part| part_view(p))
}

fn find_first_crossing(crossings: &Vec<usize>, seg: usize) -> (r: Option<usize>)
    ensures
        match r {
            Some(j) => first_crossing(crossings@, seg) == Some(j as int),
            None => first_crossing(crossings@, seg) is None,
        },
{
    let mut j: usize = 0;
    while j < crossings.len()
        invariant
            j <= crossings@.len(),
            forall|m: int| 0 <= m < j ==> crossings@[m] != seg,
        decreases crossings@.len() - j,
    {
        if crossings[j] == seg {
            proof {
                let c = choose|c: int| 0 <= c < crossings@.len() && crossings@[c] == seg && forall|m: int| 0 <= m < c ==> crossings@[m] != seg;
                assert(0 <= (j as int) < crossings@.len() && crossings@[j as int] == seg);
                if c < j {
                } else if c > j {
                    assert(crossings@[j as int] == seg);
                }
            }
            return Some(j);
        }
        j = j + 1;
    }
    None
}

fn find_part_coming_back(parts: &Vec<Part>, seg: usize) -> (r: Option<usize>)
    ensures
        match r {
            Some(k) => part_coming_back(parts_view(parts@), seg) == Some(k as int) && k < parts@.len(),
            None => part_coming_back(parts_view(parts@), seg) is None,
        },
{
    let ghost pv = parts_view(parts@);
    let mut k: usize = 0;
    while k < parts.len()
        invariant
            pv == parts_view(parts@),
            k <= parts@.len(),
            forall|m: int| 0 <= m < k ==> pv[m].crossback != Some(seg),
        decreases parts@.len() - k,
    {
        if parts[k].crossback == Some(seg) {
            proof {
                assert(pv[k as int].crossback == Some(seg));
                let c = choose|c: int| 0 <= c < pv.len() && pv[c].crossback == Some(seg) && forall|m: int| 0 <= m < c ==> pv[m].crossback != Some(seg);
                if c < k {
                } else if c > k {
                    assert(pv[k as int].crossback == Some(seg));
                }
            }
            return Some(k);
        }
        assert(pv[k as int].crossback == parts@[k as int].crossback);
        k = k + 1;
    }
    None
}

/// Adds `item` to the part at position `k`.
fn push_item(parts: &mut Vec<Part>, k: usize, item: SplitItem)
    requires
        k < old(parts)@.len(),
    ensures
        final(parts)@.len() == old(parts)@.len(),
        parts_view(final(parts)@) == parts_view(old(parts)@).update(k as int, with_item(parts_view(old(parts)@)[k as int], item)),
{
    let mut p = parts.remove(k);
    p.items.push(item);
    parts.insert(k, p);
    assert(parts_view(parts@) =~= parts_view(old(parts)@).update(k as int, with_item(parts_view(old(parts)@)[k as int], item)));
}

/// Sets where the part at position `k` comes back in.
fn set_crossback(parts: &mut Vec<Part>, k: usize, crossback: Option<usize>)
    requires
        k < old(parts)@.len(),
    ensures
        final(parts)@.len() == old(parts)@.len(),
        parts_view(final(parts)@) == parts_view(old(parts)@).update(
            k as int,
            PartView { items: parts_view(old(parts)@)[k as int].items, crossback },
        ),
{
    let mut p = parts.remove(k);
    p.crossback = crossback;
    parts.insert(k, p);
    assert(parts_view(parts@) =~= parts_view(old(parts)@).update(
        k as int,
        PartView { items: parts_view(old(parts)@)[k as int].items, crossback },
    ));
}

/// Looks at one pair of consecutive crossings for crossing `j` on segment
/// `seg` (see `pair_step`).
fn crossing_step(parts: &mut Vec<Part>, current: &mut usize, other: &mut Option<usize>, seg: usize, j: usize, pair: (usize, usize))
    requires
        *old(current) < old(parts)@.len(),
    ensures
        ({
            let s = pair_step(
                SplitState { parts: parts_view(old(parts)@), current: *old(current) as int, other: *old(other) },
                seg,
                j as int,
                pair,
            );
            &&& parts_view(final(parts)@) == s.parts
            &&& *final(current) as int == s.current
            &&& *final(other) == s.other
            &&& *final(current) < final(parts)@.len()
        }),
{
    let ghost s = SplitState { parts: parts_view(parts@), current: *current as int, other: *other };
    if seg == pair.0 {
        *other = Some(pair.1);
    }
    if seg == pair.1 {
        *other = Some(pair.0);
    }
    push_item(parts, *current, SplitItem::Crossing(j));
    set_crossback(parts, *current, *other);
    let ghost parts1 = parts_view(parts@);
    assert(parts1 =~= s.parts.update(*current as int, PartView {
        items: s.parts[*current as int].items.push(SplitItem::Crossing(j)),
        crossback: *other,
    }));
    match find_part_coming_back(parts, seg) {
        Some(k) => {
            if k != *current {
                *current = k;
                push_item(parts, k, SplitItem::Crossing(j));
            }
        },
        None => {
            parts.push(Part { items: Vec::new(), crossback: None });
            *current = parts.len() - 1;
            push_item(parts, *current, SplitItem::Crossing(j));
            assert(parts_view(parts@) =~= parts1.push(PartView { items: seq![SplitItem::Crossing(j)], crossback: None }));
        },
    }
}

/// The outlines of the parts into which a polygon with `n` corners is split
/// by a line that crosses the polygon's segments `crossings` (segment `i`
/// runs from corner `i` to the next), in the order in which the crossings
/// were found. The walk goes round the corners; at a corner whose segment
/// is crossed, it moves to the part that the pairing of consecutive
/// crossings says the outline comes back to.
pub fn split_plan(n: usize, crossings: &Vec<usize>) -> (r: Vec<Vec<SplitItem>>)
    ensures
        r@.map_values(|v: Vec<SplitItem>| v@) == spec_split_plan(n as int, crossings@),
{
    let pairs = consecutive_pairs(crossings);
    let mut parts: Vec<Part> = Vec::new();
    parts.push(Part { items: Vec::new(), crossback: None });
    let mut current: usize = 0;
    let mut other: Option<usize> = None;
    assert(parts_view(parts@) =~= corners_steps(crossings@, 0).parts);
    let mut i: usize = 0;
    while i < n
        invariant
            i <= n,
            pairs@ == spec_consecutive_pairs(crossings@),
            parts_view(parts@) == corners_steps(crossings@, i as int).parts,
            current as int == corners_steps(crossings@, i as int).current,
            other == corners_steps(crossings@, i as int).other,
            current < parts@.len(),
        decreases n - i,
    {
        push_item(&mut parts, current, SplitItem::Corner(i));
        match find_first_crossing(crossings, i) {
            Some(j) => {
                let ghost start = SplitState { parts: parts_view(parts@), current: current as int, other: None };
                other = None;
                let mut m: usize = 0;
                while m < pairs.len()
                    invariant
                        m <= pairs@.len(),
                        first_crossing(crossings@, i) == Some(j as int),
                        parts_view(parts@) == pairs_steps(start, i, j as int, pairs@, m as int).parts,
                        current as int == pairs_steps(start, i, j as int, pairs@, m as int).current,
                        other == pairs_steps(start, i, j as int, pairs@, m as int).other,
                        current < parts@.len(),
                    decreases pairs@.len() - m,
                {
                    let ghost sm = pairs_steps(start, i, j as int, pairs@, m as int);
                    crossing_step(&mut parts, &mut current, &mut other, i, j, pairs[m]);
                    assert(pairs_steps(start, i, j as int, pairs@, m + 1) == pair_step(sm, i, j as int, pairs@[m as int]));
                    m = m + 1;
                }
                assert(corners_steps(crossings@, i + 1) == pairs_steps(start, i, j as int, pairs@, pairs@.len() as int));
            },
            None => {
                assert(parts_view(parts@) == corners_steps(crossings@, i + 1).parts);
            },
        }
        i = i + 1;
    }
    let mut r: Vec<Vec<SplitItem>> = Vec::new();
    let ghost pv = parts_view(parts@);
    let mut k: usize = 0;
    while k < parts.len()
        invariant
            pv == parts_view(parts@),
            k <= parts@.len(),
            r@.len() == k,
            forall|x: int| 0 <= x < k ==> (#[trigger] r@[x])@ == pv[x].items,
        decreases parts@.len() - k,
    {
        let items = copy_items(&parts[k].items);
        r.push(items);
        assert(r@[k as int]@ == pv[k as int].items);
        k = k + 1;
    }
    assert(r@.map_values(|v: Vec<SplitItem>| v@) =~= pv.map_values(|p: PartView| p.items));
    r
}

fn copy_items(v: &Vec<SplitItem>) -> (r: Vec<SplitItem>)
    ensures
        r@ == v@,
{
    let mut r: Vec<SplitItem> = Vec::new();
    let mut k: usize = 0;
    while k < v.len()
        invariant
            k <= v@.len(),
            r@ == v@.take(k as int),
        decreases v@.len() - k,
    {
        r.push(v[k]);
        assert(r@ =~= v@.take(k + 1));
        k = k + 1;
    }
    assert(r@ =~= v@);
    r
}

} // verus!
