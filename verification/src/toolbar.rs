use vstd::prelude::*;

use crate::error::EditorError;
use crate::text::str_eq;

verus! {

/// The four edges of the editor at which toolbars are placed.
#[derive(Clone, Copy, PartialEq, Eq, Debug, Hash, Structural)]
pub enum ToolbarPosition {
    Left,
    Right,
    Top,
    Bottom,
}

/// The id of the DOM container that holds the toolbars at a position.
pub open spec fn spec_container_id(position: ToolbarPosition) -> Seq<char> {
    match position {
        ToolbarPosition::Left => "left_primary_toolbar"@,
        ToolbarPosition::Right => "right_primary_toolbar"@,
        ToolbarPosition::Top => "top_primary_toolbar"@,
        ToolbarPosition::Bottom => "bottom_primary_toolbar"@,
    }
}

impl ToolbarPosition {
    /// The id of the DOM container that holds the toolbars at this position.
    pub fn to_string(&self) -> (r: String)
        ensures
            r@ == spec_container_id(*self),
    {
        match self {
            ToolbarPosition::Left => "left_primary_toolbar".to_owned(),
            ToolbarPosition::Right => "right_primary_toolbar".to_owned(),
            ToolbarPosition::Top => "top_primary_toolbar".to_owned(),
            ToolbarPosition::Bottom => "bottom_primary_toolbar".to_owned(),
        }
    }
}

/// A button of a toolbar. What a click does is kept by the application under
/// the button's identifier; `toggle` tells whether the button shows a
/// selected state.
pub struct ToolbarButton {
    pub icon: &'static str,
    pub identifier: &'static str,
    pub tooltip: String,
    pub toggle: bool,
}

/// A named group of buttons.
pub struct Toolbar {
    pub id: &'static str,
    pub buttons: Vec<ToolbarButton>,
}

impl Toolbar {
    /// A toolbar without buttons.
    pub fn new(id: &'static str) -> (r: Self)
        ensures
            r.id == id,
            r.buttons@.len() == 0,
    {
        Toolbar { id, buttons: Vec::new() }
    }

    /// Appends a plain button; this never fails.
    pub fn add_button(&mut self, icon: &'static str, identifier: &'static str, tooltip: String) -> (r:
        Result<(), EditorError>)
        ensures
            r is Ok,
            final(self).id == old(self).id,
            final(self).buttons@ == old(self).buttons@.push(
                ToolbarButton { icon, identifier, tooltip, toggle: false },
            ),
    {
        self.buttons.push(ToolbarButton { icon, identifier, tooltip, toggle: false });
        Ok(())
    }

    /// Appends a button that shows whether it is selected; this never fails.
    pub fn add_toggle_button(
        &mut self,
        icon: &'static str,
        identifier: &'static str,
        tooltip: String,
    ) -> (r: Result<(), EditorError>)
        ensures
            r is Ok,
            final(self).id == old(self).id,
            final(self).buttons@ == old(self).buttons@.push(
                ToolbarButton { icon, identifier, tooltip, toggle: true },
            ),
    {
        self.buttons.push(ToolbarButton { icon, identifier, tooltip, toggle: true });
        Ok(())
    }
}

/// The positions in the order in which toolbars are looked up.
pub open spec fn position_rank(p: ToolbarPosition) -> int {
    match p {
        ToolbarPosition::Left => 0,
        ToolbarPosition::Right => 1,
        ToolbarPosition::Top => 2,
        ToolbarPosition::Bottom => 3,
    }
}

/// Whether some toolbar of `s` has the id `id`.
pub open spec fn seq_has_id(s: Seq<Toolbar>, id: Seq<char>) -> bool {
    exists|i: int| 0 <= i < s.len() && (#[trigger] s[i]).id@ == id
}

/// `i` is the first index in `s` of a toolbar with id `id`.
pub open spec fn first_with_id(s: Seq<Toolbar>, id: Seq<char>, i: int) -> bool {
    &&& 0 <= i < s.len()
    &&& s[i].id@ == id
    &&& forall|j: int| 0 <= j < i ==> (#[trigger] s[j]).id@ != id
}

/// The toolbars of the editor, grouped by position. A position that never
/// received a toolbar has no group at all.
pub struct Toolbars {
    left: Option<Vec<Toolbar>>,
    right: Option<Vec<Toolbar>>,
    top: Option<Vec<Toolbar>>,
    bottom: Option<Vec<Toolbar>>,
}

/// The toolbars of a group, if the group exists.
pub open spec fn opt_view(o: Option<Vec<Toolbar>>) -> Option<Seq<Toolbar>> {
    match o {
        Some(v) => Some(v@),
        None => None,
    }
}

impl Toolbars {
    /// The toolbars at a position, in the order they were added.
    pub closed spec fn at(&self, p: ToolbarPosition) -> Option<Seq<Toolbar>> {
        match p {
            ToolbarPosition::Left => opt_view(self.left),
            ToolbarPosition::Right => opt_view(self.right),
            ToolbarPosition::Top => opt_view(self.top),
            ToolbarPosition::Bottom => opt_view(self.bottom),
        }
    }

    /// The toolbars at a position; none where there is no group.
    pub open spec fn toolbars_at(&self, p: ToolbarPosition) -> Seq<Toolbar> {
        match self.at(p) {
            Some(s) => s,
            None => Seq::empty(),
        }
    }

    /// Whether some toolbar at `p` has the id `id`.
    pub open spec fn has_at(&self, p: ToolbarPosition, id: Seq<char>) -> bool {
        seq_has_id(self.toolbars_at(p), id)
    }

    /// Whether some toolbar has the id `id`.
    pub open spec fn has(&self, id: Seq<char>) -> bool {
        exists|p: ToolbarPosition| self.has_at(p, id)
    }

    /// Where the toolbar with id `id` is found: the first position (in the
    /// order left, right, top, bottom) that holds one, and its first index
    /// there.
    pub open spec fn located_at(&self, id: Seq<char>, p: ToolbarPosition, i: int) -> bool {
        &&& first_with_id(self.toolbars_at(p), id, i)
        &&& forall|q: ToolbarPosition| position_rank(q) < position_rank(p) ==> !self.has_at(q, id)
    }

    /// No two toolbars share an id.
    pub open spec fn ids_unique(&self) -> bool {
        forall|p: ToolbarPosition, q: ToolbarPosition, i: int, j: int|
            0 <= i < self.toolbars_at(p).len() && 0 <= j < self.toolbars_at(q).len()
                && (#[trigger] self.toolbars_at(p)[i]).id@ == (#[trigger] self.toolbars_at(q)[j]).id@
                ==> p == q && i == j
    }

    /// `after` is `before` with a new, empty toolbar `id` appended at `p`.
    pub open spec fn toolbar_appended(before: Self, after: Self, id: &'static str, p: ToolbarPosition) -> bool {
        &&& after.at(p) is Some
        &&& after.toolbars_at(p).len() == before.toolbars_at(p).len() + 1
        &&& after.toolbars_at(p).drop_last() == before.toolbars_at(p)
        &&& after.toolbars_at(p).last().id == id
        &&& after.toolbars_at(p).last().buttons@.len() == 0
        &&& forall|q: ToolbarPosition| q != p ==> after.at(q) == before.at(q)
    }

    /// An editor without toolbars.
    pub fn new() -> (r: Self)
        ensures
            forall|p: ToolbarPosition| r.at(p) is None,
    {
        Toolbars { left: None, right: None, top: None, bottom: None }
    }

    /// The toolbars at a position, in the order they were added; `None`
    /// where no toolbar was ever added there.
    pub fn toolbars(&self, position: ToolbarPosition) -> (r: Option<&Vec<Toolbar>>)
        ensures
            match r {
                Some(v) => self.at(position) == Some(v@),
                None => self.at(position) is None,
            },
    {
        match self.group(position) {
            Some(v) => Some(v),
            None => None,
        }
    }

    /// Toolbars with an empty group at each of the four positions, so that
    /// toolbars can be merged into any of them.
    pub fn with_empty_groups() -> (r: Self)
        ensures
            forall|p: ToolbarPosition| r.at(p) == Some(Seq::<Toolbar>::empty()),
    {
        let r = Toolbars { left: Some(Vec::new()), right: Some(Vec::new()), top: Some(Vec::new()), bottom: Some(Vec::new()) };
        assert forall|p: ToolbarPosition| r.at(p) == Some(Seq::<Toolbar>::empty()) by {
            match p {
                ToolbarPosition::Left => assert(opt_view(r.left) =~= Some(Seq::<Toolbar>::empty())),
                ToolbarPosition::Right => assert(opt_view(r.right) =~= Some(Seq::<Toolbar>::empty())),
                ToolbarPosition::Top => assert(opt_view(r.top) =~= Some(Seq::<Toolbar>::empty())),
                ToolbarPosition::Bottom => assert(opt_view(r.bottom) =~= Some(Seq::<Toolbar>::empty())),
            }
        }
        r
    }

    fn group(&self, p: ToolbarPosition) -> (r: &Option<Vec<Toolbar>>)
        ensures
            opt_view(*r) == self.at(p),
    {
        match p {
            ToolbarPosition::Left => &self.left,
            ToolbarPosition::Right => &self.right,
            ToolbarPosition::Top => &self.top,
            ToolbarPosition::Bottom => &self.bottom,
        }
    }

    fn take_group(&mut self, p: ToolbarPosition) -> (r: Option<Vec<Toolbar>>)
        ensures
            opt_view(r) == old(self).at(p),
            final(self).at(p) is None,
            forall|q: ToolbarPosition| q != p ==> final(self).at(q) == old(self).at(q),
    {
        match p {
            ToolbarPosition::Left => self.left.take(),
            ToolbarPosition::Right => self.right.take(),
            ToolbarPosition::Top => self.top.take(),
            ToolbarPosition::Bottom => self.bottom.take(),
        }
    }

    fn put_group(&mut self, p: ToolbarPosition, g: Vec<Toolbar>)
        ensures
            final(self).at(p) == Some(g@),
            forall|q: ToolbarPosition| q != p ==> final(self).at(q) == old(self).at(q),
    {
        match p {
            ToolbarPosition::Left => self.left = Some(g),
            ToolbarPosition::Right => self.right = Some(g),
            ToolbarPosition::Top => self.top = Some(g),
            ToolbarPosition::Bottom => self.bottom = Some(g),
        }
    }

    fn first_index(v: &Vec<Toolbar>, id: &'static str) -> (r: Option<usize>)
        ensures
            match r {
                Some(i) => first_with_id(v@, id@, i as int),
                None => !seq_has_id(v@, id@),
            },
    {
        let mut i: usize = 0;
        while i < v.len()
            invariant
                i <= v@.len(),
                forall|j: int| 0 <= j < i ==> (#[trigger] v@[j]).id@ != id@,
            decreases v@.len() - i,
        {
            if str_eq(v[i].id, id) {
                return Some(i);
            }
            i = i + 1;
        }
        None
    }

    fn find_in(&self, p: ToolbarPosition, id: &'static str) -> (r: Option<usize>)
        ensures
            match r {
                Some(i) => first_with_id(self.toolbars_at(p), id@, i as int),
                None => !self.has_at(p, id@),
            },
    {
        match self.group(p) {
            Some(v) => Self::first_index(v, id),
            None => None,
        }
    }

    /// The position and index of the toolbar with the given id; an error
    /// names the id when no toolbar has it.
    pub fn index_and_position_of_toolbar(&self, id: &'static str) -> (r: Result<(ToolbarPosition, usize), EditorError>)
        ensures
            match r {
                Ok((p, i)) => self.located_at(id@, p, i as int),
                Err(e) => !self.has(id@) && e == EditorError::ToolbarDoesNotExists { id },
            },
    {
        if let Some(i) = self.find_in(ToolbarPosition::Left, id) {
            return Ok((ToolbarPosition::Left, i));
        }
        if let Some(i) = self.find_in(ToolbarPosition::Right, id) {
            return Ok((ToolbarPosition::Right, i));
        }
        if let Some(i) = self.find_in(ToolbarPosition::Top, id) {
            return Ok((ToolbarPosition::Top, i));
        }
        if let Some(i) = self.find_in(ToolbarPosition::Bottom, id) {
            return Ok((ToolbarPosition::Bottom, i));
        }
        assert forall|p: ToolbarPosition| !self.has_at(p, id@) by {
            match p {
                ToolbarPosition::Left => {},
                ToolbarPosition::Right => {},
                ToolbarPosition::Top => {},
                ToolbarPosition::Bottom => {},
            }
        }
        Err(EditorError::ToolbarDoesNotExists { id })
    }

    /// Adds an empty toolbar at the end of the toolbars at `position` and
    /// returns its index there. An id can be registered once only.
    pub fn add_toolbar(&mut self, toolbar_id: &'static str, position: ToolbarPosition) -> (r: Result<usize, EditorError>)
        ensures
            match r {
                Ok(i) => {
                    &&& !old(self).has(toolbar_id@)
                    &&& i == old(self).toolbars_at(position).len()
                    &&& Self::toolbar_appended(*old(self), *final(self), toolbar_id, position)
                },
                Err(e) => {
                    &&& old(self).has(toolbar_id@)
                    &&& e == EditorError::ToolbarExists { id: toolbar_id }
                    &&& *final(self) == *old(self)
                },
            },
    {
        if let Ok((p, i)) = self.index_and_position_of_toolbar(toolbar_id) {
            assert(self.toolbars_at(p)[i as int].id@ == toolbar_id@);
            assert(self.has_at(p, toolbar_id@));
            return Err(EditorError::ToolbarExists { id: toolbar_id });
        }
        let toolbar = Toolbar::new(toolbar_id);
        let ghost before = *self;
        match self.take_group(position) {
            None => {
                let mut g: Vec<Toolbar> = Vec::new();
                g.push(toolbar);
                self.put_group(position, g);
                assert(self.toolbars_at(position).drop_last() =~= before.toolbars_at(position));
                Ok(0)
            },
            Some(mut g) => {
                g.push(toolbar);
                let n = g.len() - 1;
                self.put_group(position, g);
                assert(self.toolbars_at(position).drop_last() =~= before.toolbars_at(position));
                Ok(n)
            },
        }
    }

    /// Appends a button to the toolbar with the given id; an error names the
    /// id when no toolbar has it.
    pub fn add_button(
        &mut self,
        toolbar_id: &'static str,
        icon: &'static str,
        identifier: &'static str,
        tooltip: String,
        toggle: bool,
    ) -> (r: Result<(), EditorError>)
        ensures
            match r {
                Ok(()) => exists|p: ToolbarPosition, i: int| {
                    &&& old(self).located_at(toolbar_id@, p, i)
                    &&& final(self).at(p) == Some(old(self).toolbars_at(p).update(
                        i,
                        Toolbar {
                            id: old(self).toolbars_at(p)[i].id,
                            buttons: final(self).toolbars_at(p)[i].buttons,
                        },
                    ))
                    &&& final(self).toolbars_at(p)[i].buttons@ == old(self).toolbars_at(p)[i].buttons@.push(
                        ToolbarButton { icon, identifier, tooltip, toggle },
                    )
                    &&& forall|q: ToolbarPosition| q != p ==> final(self).at(q) == old(self).at(q)
                },
                Err(e) => {
                    &&& !old(self).has(toolbar_id@)
                    &&& e == EditorError::ToolbarDoesNotExists { id: toolbar_id }
                    &&& *final(self) == *old(self)
                },
            },
    {
        let (p, i) = match self.index_and_position_of_toolbar(toolbar_id) {
            Ok(found) => found,
            Err(e) => return Err(e),
        };
        let ghost before = *self;
        let mut g = match self.take_group(p) {
            Some(g) => g,
            None => {
                assert(false);
                return Err(EditorError::ToolbarDoesNotExists { id: toolbar_id });
            },
        };
        let mut t = g.remove(i);
        let ghost old_t = t;
        if toggle {
            let _ = t.add_toggle_button(icon, identifier, tooltip);
        } else {
            let _ = t.add_button(icon, identifier, tooltip);
        }
        g.insert(i, t);
        self.put_group(p, g);
        assert(self.toolbars_at(p) =~= before.toolbars_at(p).update(
            i as int,
            Toolbar { id: before.toolbars_at(p)[i as int].id, buttons: self.toolbars_at(p)[i as int].buttons },
        ));
        Ok(())
    }

    /// Merges a toolbar that a plugin brings into the toolbars at the top:
    /// where a toolbar there has its id, the buttons are appended to the
    /// first such toolbar; otherwise the toolbar is added at the end.
    pub fn merge_toolbar(&mut self, toolbar: Toolbar) -> (r: bool)
        requires
            old(self).at(ToolbarPosition::Top) is Some,
        ensures
            r == old(self).has_at(ToolbarPosition::Top, toolbar.id@),
            forall|q: ToolbarPosition| q != ToolbarPosition::Top ==> final(self).at(q) == old(self).at(q),
            final(self).at(ToolbarPosition::Top) is Some,
            !r ==> final(self).toolbars_at(ToolbarPosition::Top) == old(self).toolbars_at(ToolbarPosition::Top).push(toolbar),
            r ==> exists|i: int| {
                &&& first_with_id(old(self).toolbars_at(ToolbarPosition::Top), toolbar.id@, i)
                &&& final(self).toolbars_at(ToolbarPosition::Top) == old(self).toolbars_at(ToolbarPosition::Top).update(
                    i,
                    Toolbar {
                        id: old(self).toolbars_at(ToolbarPosition::Top)[i].id,
                        buttons: final(self).toolbars_at(ToolbarPosition::Top)[i].buttons,
                    },
                )
                &&& final(self).toolbars_at(ToolbarPosition::Top)[i].buttons@
                    == old(self).toolbars_at(ToolbarPosition::Top)[i].buttons@ + toolbar.buttons@
            },
    {
        let ghost before = *self;
        let found = self.find_in(ToolbarPosition::Top, toolbar.id);
        let mut g = match self.take_group(ToolbarPosition::Top) {
            Some(g) => g,
            None => {
                assert(false);
                return false;
            },
        };
        match found {
            Some(i) => {
                let mut t = g.remove(i);
                let ghost old_buttons = t.buttons@;
                let Toolbar { id: _, buttons: mut extra } = toolbar;
                t.buttons.append(&mut extra);
                g.insert(i, t);
                self.put_group(ToolbarPosition::Top, g);
                assert(self.toolbars_at(ToolbarPosition::Top) =~= before.toolbars_at(ToolbarPosition::Top).update(
                    i as int,
                    Toolbar {
                        id: before.toolbars_at(ToolbarPosition::Top)[i as int].id,
                        buttons: self.toolbars_at(ToolbarPosition::Top)[i as int].buttons,
                    },
                ));
                true
            },
            None => {
                g.push(toolbar);
                self.put_group(ToolbarPosition::Top, g);
                false
            },
        }
    }
}

/// A toolbar that was just added under an unused id is found where it was
/// added: at its position, after the toolbars that were there before.
pub proof fn law_added_toolbar_is_located(before: Toolbars, after: Toolbars, id: &'static str, p: ToolbarPosition)
    requires
        !before.has(id@),
        Toolbars::toolbar_appended(before, after, id, p),
    ensures
        after.located_at(id@, p, before.toolbars_at(p).len() as int),
{
    let n = before.toolbars_at(p).len() as int;
    assert forall|j: int| 0 <= j < n implies (#[trigger] after.toolbars_at(p)[j]).id@ != id@ by {
        assert(after.toolbars_at(p)[j] == after.toolbars_at(p).drop_last()[j]);
        assert(before.toolbars_at(p)[j] == after.toolbars_at(p)[j]);
        if before.toolbars_at(p)[j].id@ == id@ {
            assert(before.has_at(p, id@));
        }
    }
    assert forall|q: ToolbarPosition| position_rank(q) < position_rank(p) implies !after.has_at(q, id@) by {
        assert(after.at(q) == before.at(q));
        assert(!before.has_at(q, id@));
    }
}

/// Adding a toolbar under an unused id keeps the ids of all toolbars
/// distinct.
pub proof fn law_add_toolbar_keeps_ids_unique(before: Toolbars, after: Toolbars, id: &'static str, p: ToolbarPosition)
    requires
        before.ids_unique(),
        !before.has(id@),
        Toolbars::toolbar_appended(before, after, id, p),
    ensures
        after.ids_unique(),
{
    let n = before.toolbars_at(p).len() as int;
    assert forall|q: ToolbarPosition, i: int| 0 <= i < after.toolbars_at(q).len() && !(q == p && i == n)
        implies #[trigger] after.toolbars_at(q)[i] == before.toolbars_at(q)[i] && i < before.toolbars_at(q).len() by {
        if q == p {
            assert(after.toolbars_at(p)[i] == after.toolbars_at(p).drop_last()[i]);
        } else {
            assert(after.at(q) == before.at(q));
        }
    }
    assert forall|q1: ToolbarPosition, q2: ToolbarPosition, i: int, j: int|
        0 <= i < after.toolbars_at(q1).len() && 0 <= j < after.toolbars_at(q2).len()
            && (#[trigger] after.toolbars_at(q1)[i]).id@ == (#[trigger] after.toolbars_at(q2)[j]).id@
        implies q1 == q2 && i == j by {
        let new1 = q1 == p && i == n;
        let new2 = q2 == p && j == n;
        if new1 && new2 {
        } else if new1 {
            assert(after.toolbars_at(q2)[j] == before.toolbars_at(q2)[j]);
            assert(before.toolbars_at(q2)[j].id@ == id@);
            assert(before.has_at(q2, id@));
        } else if new2 {
            assert(after.toolbars_at(q1)[i] == before.toolbars_at(q1)[i]);
            assert(before.toolbars_at(q1)[i].id@ == id@);
            assert(before.has_at(q1, id@));
        } else {
            assert(after.toolbars_at(q1)[i] == before.toolbars_at(q1)[i]);
            assert(after.toolbars_at(q2)[j] == before.toolbars_at(q2)[j]);
        }
    }
}

} // verus!
