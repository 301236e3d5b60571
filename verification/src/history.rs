use vstd::prelude::*;

use crate::error::Shortkey;
use crate::text::str_eq;

verus! {

/// The mathematical value of a history: the actions that can be undone and
/// those that can be redone, the most recent last.
pub struct HistoryView<T> {
    pub undo: Seq<T>,
    pub redo: Seq<T>,
}

/// The undo and redo stacks of an editor. The actions themselves (what they
/// do to the data) are kept by the application; the history holds handles
/// to them.
pub struct History<T> {
    undo: Vec<T>,
    redo: Vec<T>,
}

impl<T> View for History<T> {
    type V = HistoryView<T>;

    closed spec fn view(&self) -> HistoryView<T> {
        HistoryView { undo: self.undo@, redo: self.redo@ }
    }
}

/// The history after a redo: the most recent undone action moves onto the
/// undo stack; nothing changes where there is none.
pub open spec fn spec_redo<T>(h: HistoryView<T>) -> HistoryView<T> {
    if h.redo.len() == 0 {
        h
    } else {
        HistoryView { undo: h.undo.push(h.redo.last()), redo: h.redo.drop_last() }
    }
}

/// The shortkey that redoes: Control and y.
pub open spec fn is_redo_shortkey(keys: Seq<Seq<char>>) -> bool {
    keys == seq!["Control"@, "y"@]
}

impl<T: Copy> History<T> {
    /// Empty stacks.
    pub fn new() -> (r: Self)
        ensures
            r@.undo == Seq::<T>::empty(),
            r@.redo == Seq::<T>::empty(),
    {
        History { undo: Vec::new(), redo: Vec::new() }
    }

    /// Records an action that can be undone.
    pub fn push_undo(&mut self, action: T)
        ensures
            final(self)@.undo == old(self)@.undo.push(action),
            final(self)@.redo == old(self)@.redo,
    {
        self.undo.push(action);
    }

    /// Records an action that can be redone.
    pub fn push_redo(&mut self, action: T)
        ensures
            final(self)@.redo == old(self)@.redo.push(action),
            final(self)@.undo == old(self)@.undo,
    {
        self.redo.push(action);
    }

    /// Forgets the actions that could be redone.
    pub fn clear_redo(&mut self)
        ensures
            final(self)@.redo == Seq::<T>::empty(),
            final(self)@.undo == old(self)@.undo,
    {
        self.redo.clear();
    }

    /// The number of actions that can be undone.
    pub fn undo_len(&self) -> (r: usize)
        ensures
            r == self@.undo.len(),
    {
        self.undo.len()
    }

    /// The number of actions that can be redone.
    pub fn redo_len(&self) -> (r: usize)
        ensures
            r == self@.redo.len(),
    {
        self.redo.len()
    }

    /// Redoes: takes the most recently undone action, which the caller
    /// performs again, and records it as undoable. `None` where nothing can
    /// be redone.
    pub fn redo(&mut self) -> (r: Option<T>)
        ensures
            final(self)@ == spec_redo(old(self)@),
            match r {
                Some(a) => old(self)@.redo.len() > 0 && a == old(self)@.redo.last(),
                None => old(self)@.redo.len() == 0,
            },
    {
        match self.redo.pop() {
            Some(a) => {
                self.undo.push(a);
                Some(a)
            },
            None => None,
        }
    }

    /// A pressed shortkey: Control and y redo; any other changes nothing.
    pub fn shortkey_pressed(&mut self, key: &Shortkey) -> (r: Option<T>)
        ensures
            is_redo_shortkey(key@.map_values(|k: String| k@)) ==> {
                &&& final(self)@ == spec_redo(old(self)@)
                &&& match r {
                    Some(a) => old(self)@.redo.len() > 0 && a == old(self)@.redo.last(),
                    None => old(self)@.redo.len() == 0,
                }
            },
            !is_redo_shortkey(key@.map_values(|k: String| k@)) ==> r is None && final(self)@ == old(self)@,
    {
        let ghost names = key@.map_values(|k: String| k@);
        let is_redo = key.len() == 2 && str_eq(key[0].as_str(), "Control") && str_eq(key[1].as_str(), "y");
        proof {
            reveal_strlit("Control");
            reveal_strlit("y");
            let target = seq!["Control"@, "y"@];
            if key@.len() == 2 {
                assert(names.len() == 2);
                assert(names[0] == key@[0]@);
                assert(names[1] == key@[1]@);
                if is_redo {
                    assert(names =~= target);
                } else if names == target {
                    assert(names[0] == target[0]);
                    assert(names[1] == target[1]);
                    assert(false);
                }
            } else {
                assert(names.len() != target.len());
            }
        }
        if is_redo {
            self.redo()
        } else {
            None
        }
    }
}

/// An action recorded as redoable is the one that the next redo returns,
/// and it then is the most recent undoable action.
pub proof fn law_redo_takes_last_pushed<T>(h: HistoryView<T>, action: T)
    ensures
        ({
            let pushed = HistoryView { undo: h.undo, redo: h.redo.push(action) };
            let after = spec_redo(pushed);
            &&& after.undo == h.undo.push(action)
            &&& after.redo == h.redo
        }),
{
    let pushed = HistoryView { undo: h.undo, redo: h.redo.push(action) };
    assert(pushed.redo.drop_last() =~= h.redo);
}

} // verus!
