use vstd::prelude::*;

use crate::style::Style;

verus! {

/// `i` is the first point after the first one that lies on no street.
pub open spec fn first_free_point(on_street: Seq<bool>, i: int) -> bool {
    &&& 1 <= i < on_street.len()
    &&& !on_street[i]
    &&& forall|j: int| 1 <= j < i ==> on_street[j]
}

/// Where the streets of a freeform stroke begin: at the point before the
/// first point (after the first one) that lies on no street, or at the first
/// point where there is none. Points before it lie on existing streets and
/// are not connected again.
pub open spec fn spec_first_connected(on_street: Seq<bool>) -> int {
    if exists|i: int| first_free_point(on_street, i) {
        (choose|i: int| first_free_point(on_street, i)) - 1
    } else {
        0
    }
}

/// The streets to create for a stroke: one between each two consecutive
/// points from the first connected one on, as pairs of point positions.
pub open spec fn spec_freeform_segments(on_street: Seq<bool>) -> Seq<(usize, usize)> {
    let first = spec_first_connected(on_street);
    Seq::new((on_street.len() - 1 - first) as nat, |k: int| ((first + k) as usize, (first + k + 1) as usize))
}

/// The streets to create for a stroke whose `i`-th point lies on an
/// existing street where `on_street[i]` holds. A stroke has a first point
/// to start from, so it is not empty.
pub fn freeform_segments(on_street: &Vec<bool>) -> (r: Vec<(usize, usize)>)
    requires
        on_street@.len() > 0,
    ensures
        r@ == spec_freeform_segments(on_street@),
{
    let n = on_street.len();
    let mut i: usize = 1;
    while i < n && on_street[i]
        invariant
            n == on_street@.len(),
            1 <= i <= n,
            forall|j: int| 1 <= j < i ==> on_street@[j],
        decreases n - i,
    {
        i = i + 1;
    }
    let first: usize = if i < n { i - 1 } else { 0 };
    assert(first as int == spec_first_connected(on_street@)) by {
        if i < n {
            assert(first_free_point(on_street@, i as int));
        }
        if exists|c: int| first_free_point(on_street@, c) {
            let c = choose|c: int| first_free_point(on_street@, c);
            if c < i {
                assert(on_street@[c]);
            } else if c > i {
                assert(!on_street@[i as int]);
            }
        }
    }
    let mut r: Vec<(usize, usize)> = Vec::new();
    let mut k: usize = first;
    while k + 1 < n
        invariant
            n == on_street@.len(),
            first as int == spec_first_connected(on_street@),
            first < n,
            first <= k < n,
            r@ == spec_freeform_segments(on_street@).take(k - first),
        decreases n - k,
    {
        r.push((k, k + 1));
        assert(r@ =~= spec_freeform_segments(on_street@).take(k + 1 - first));
        k = k + 1;
    }
    assert(r@ =~= spec_freeform_segments(on_street@));
    r
}

/// The brush that draws freeform streets: while the left button is held,
/// the points the mouse passes are recorded.
pub struct FreeformBrush {
    pub active: bool,
}

/// The left mouse button.
pub const BRUSH_BUTTON: u32 = 0;

impl FreeformBrush {
    /// A brush that records nothing yet.
    pub fn new() -> (r: Self)
        ensures
            !r.active,
    {
        FreeformBrush { active: false }
    }

    /// Pressing the left button starts a stroke; other buttons change
    /// nothing.
    pub fn mouse_down(&mut self, button: u32)
        ensures
            final(self).active == (old(self).active || button == BRUSH_BUTTON),
    {
        if button == BRUSH_BUTTON {
            self.active = true;
        }
    }

    /// Whether a mouse movement adds a point to the stroke.
    pub fn records(&self) -> (r: bool)
        ensures
            r == self.active,
    {
        self.active
    }

    /// Releasing the left button ends the stroke, and the result is true:
    /// the recorded points become streets. Other buttons change nothing.
    pub fn mouse_up(&mut self, button: u32) -> (r: bool)
        ensures
            r == (button == BRUSH_BUTTON),
            final(self).active == (old(self).active && button != BRUSH_BUTTON),
    {
        if button != BRUSH_BUTTON {
            return false;
        }
        self.active = false;
        true
    }
}

/// The style of a stroke while it is drawn: a dark line 15 pixels wide.
pub fn brush_style() -> (r: Style)
    ensures
        r.border_width == 15,
        r.border_color@ == "#2A2A2B"@,
        r.background_color@ == "#2A2A2B"@,
{
    Style { border_width: 15, border_color: "#2A2A2B".to_owned(), background_color: "#2A2A2B".to_owned() }
}

/// The plan of a stroke connects consecutive points up to the last one,
/// and starts where the first point after the first one that lies on no
/// street is reached: the first street ends at that point and every point
/// from the second up to its start lies on a street, whatever the first
/// point is. Where every point after the first lies on a street, the plan
/// starts at the first point.
pub proof fn law_freeform_starts_before_first_free(on_street: Seq<bool>)
    requires
        0 < on_street.len() <= usize::MAX,
    ensures
        ({
            let r = spec_freeform_segments(on_street);
            let n = on_street.len() as int;
            &&& forall|k: int| 0 <= k < r.len() ==> (#[trigger] r[k]).1 == r[k].0 + 1
            &&& forall|k: int| 0 <= k < r.len() - 1 ==> (#[trigger] r[k]).1 == r[k + 1].0
            &&& r.len() > 0 ==> r[r.len() - 1].1 == n - 1
            &&& (exists|i: int| 1 <= i < n && !on_street[i]) ==> {
                &&& r.len() > 0
                &&& !on_street[r[0].1 as int]
                &&& forall|j: int| 1 <= j <= r[0].0 ==> on_street[j]
            }
            &&& (forall|i: int| 1 <= i < n ==> on_street[i]) ==> r.len() == n - 1 && (r.len() > 0 ==> r[0].0 == 0)
        }),
{
    let n = on_street.len() as int;
    let r = spec_freeform_segments(on_street);
    let f = spec_first_connected(on_street);
    if exists|i: int| 1 <= i < n && !on_street[i] {
        let i0 = choose|i: int| 1 <= i < n && !on_street[i];
        assert(exists|c: int| first_free_point(on_street, c)) by {
            lemma_least_free(on_street, i0);
        }
        let c = choose|c: int| first_free_point(on_street, c);
        assert(f == c - 1);
        assert(r[0] == (f as usize, (f + 1) as usize));
    } else {
        assert(!exists|c: int| first_free_point(on_street, c));
        assert(f == 0);
    }
}

proof fn lemma_least_free(on_street: Seq<bool>, i: int)
    requires
        1 <= i < on_street.len(),
        !on_street[i],
    ensures
        exists|c: int| first_free_point(on_street, c),
    decreases i,
{
    if forall|j: int| 1 <= j < i ==> on_street[j] {
        assert(first_free_point(on_street, i));
    } else {
        let j = choose|j: int| 1 <= j < i && !on_street[j];
        lemma_least_free(on_street, j);
    }
}

} // verus!
