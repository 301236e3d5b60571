use vstd::prelude::*;

use crate::behaviour::PluginExecutionBehaviour;
use crate::order::{compare_names, lemma_name_less_irreflexive, lemma_name_less_transitive, name_less, NameOrder};
use crate::text::str_eq;

verus! {

/// The identifier under which a plugin is registered.
pub type PluginId = &'static str;

/// What the editor knows of a registered plugin: its identifier, how its
/// activation treats the other plugins, and whether it is enabled.
#[derive(Clone, Copy, Debug)]
pub struct PluginEntry {
    id: PluginId,
    behaviour: PluginExecutionBehaviour,
    enabled: bool,
}

/// The mathematical value of a plugin entry.
pub struct PluginInfo {
    pub id: Seq<char>,
    pub behaviour: PluginExecutionBehaviour,
    pub enabled: bool,
}

impl View for PluginEntry {
    type V = PluginInfo;

    closed spec fn view(&self) -> PluginInfo {
        PluginInfo { id: self.id@, behaviour: self.behaviour, enabled: self.enabled }
    }
}

impl PluginEntry {
    /// A plugin entry.
    pub fn new(id: PluginId, behaviour: PluginExecutionBehaviour, enabled: bool) -> (r: Self)
        ensures
            r@ == (PluginInfo { id: id@, behaviour, enabled }),
            r.spec_id() == id,
    {
        PluginEntry { id, behaviour, enabled }
    }

    /// The plugin's identifier.
    pub closed spec fn spec_id(&self) -> PluginId {
        self.id
    }

    /// The plugin's identifier.
    #[verifier::when_used_as_spec(spec_id)]
    pub fn id(&self) -> (r: PluginId)
        ensures
            r == self.spec_id(),
            r@ == self@.id,
    {
        self.id
    }

    /// How the plugin's activation treats the other plugins.
    pub fn execution_behaviour(&self) -> (r: PluginExecutionBehaviour)
        ensures
            r == self@.behaviour,
    {
        self.behaviour
    }

    /// Whether the plugin is enabled.
    pub fn enabled(&self) -> (r: bool)
        ensures
            r == self@.enabled,
    {
        self.enabled
    }

    /// Enables the plugin.
    pub fn enable(&mut self)
        ensures
            final(self)@ == (PluginInfo { enabled: true, ..old(self)@ }),
            final(self).spec_id() == old(self).spec_id(),
    {
        self.enabled = true;
    }

    /// Disables the plugin.
    pub fn disable(&mut self)
        ensures
            final(self)@ == (PluginInfo { enabled: false, ..old(self)@ }),
            final(self).spec_id() == old(self).spec_id(),
    {
        self.enabled = false;
    }
}

/// The ids of `s` strictly increase in `str` order, so no id occurs twice.
pub open spec fn sorted_by_id(s: Seq<PluginInfo>) -> bool {
    forall|i: int, j: int| 0 <= i < j < s.len() ==> name_less(#[trigger] s[i].id, #[trigger] s[j].id)
}

/// Whether a plugin with id `id` is registered.
pub open spec fn registered(s: Seq<PluginInfo>, id: Seq<char>) -> bool {
    exists|i: int| 0 <= i < s.len() && (#[trigger] s[i]).id == id
}

/// The position of the plugin `id` (meaningful where it is registered).
pub open spec fn index_of(s: Seq<PluginInfo>, id: Seq<char>) -> int {
    choose|i: int| 0 <= i < s.len() && (#[trigger] s[i]).id == id
}

/// An enabled plugin that runs exclusively.
pub open spec fn enabled_exclusive(p: PluginInfo) -> bool {
    p.enabled && p.behaviour == PluginExecutionBehaviour::Exclusive
}

/// `i` is the first enabled exclusive plugin of `s`.
pub open spec fn first_enabled_exclusive(s: Seq<PluginInfo>, i: int) -> bool {
    &&& 0 <= i < s.len()
    &&& enabled_exclusive(s[i])
    &&& forall|j: int| 0 <= j < i ==> !enabled_exclusive(#[trigger] s[j])
}

/// At most one plugin that runs exclusively is enabled.
pub open spec fn at_most_one_exclusive(s: Seq<PluginInfo>) -> bool {
    forall|i: int, j: int|
        0 <= i < s.len() && 0 <= j < s.len() && enabled_exclusive(#[trigger] s[i]) && enabled_exclusive(
            #[trigger] s[j],
        ) ==> i == j
}

/// A plugin with its enabled flag set to `enabled`.
pub open spec fn with_enabled(p: PluginInfo, enabled: bool) -> PluginInfo {
    PluginInfo { enabled, ..p }
}

/// The plugins after `id` is activated: the first enabled exclusive plugin,
/// if any, is disabled, then `id` is enabled.
pub open spec fn spec_activate(s: Seq<PluginInfo>, id: Seq<char>) -> Seq<PluginInfo> {
    let s1 = if exists|i: int| first_enabled_exclusive(s, i) {
        let i = choose|i: int| first_enabled_exclusive(s, i);
        s.update(i, with_enabled(s[i], false))
    } else {
        s
    };
    let j = index_of(s, id);
    s1.update(j, with_enabled(s1[j], true))
}

/// What can change of a registered plugin: how its activation treats the
/// other plugins, and whether it is enabled.
#[derive(Clone, Copy, Debug)]
pub struct PluginState {
    pub behaviour: PluginExecutionBehaviour,
    pub enabled: bool,
}

/// The mathematical value of a plugin registered under `id` in state `st`.
pub open spec fn plugin_info(id: PluginId, st: PluginState) -> PluginInfo {
    PluginInfo { id: id@, behaviour: st.behaviour, enabled: st.enabled }
}

/// The registered plugins, ordered by their identifiers.
pub struct PluginRegistry {
    ids: Vec<PluginId>,
    states: Vec<PluginState>,
}

impl View for PluginRegistry {
    type V = Seq<PluginInfo>;

    closed spec fn view(&self) -> Seq<PluginInfo> {
        Seq::new(self.ids@.len(), |i: int| plugin_info(self.ids@[i], self.states@[i]))
    }
}

impl PluginRegistry {
    #[verifier::type_invariant]
    closed spec fn inv(self) -> bool {
        &&& self.ids@.len() == self.states@.len()
        &&& forall|i: int, j: int| 0 <= i < j < self.ids@.len() ==> name_less(#[trigger] self.ids@[i]@, #[trigger] self.ids@[j]@)
    }

    proof fn lemma_sorted(&self)
        requires
            self.inv(),
        ensures
            sorted_by_id(self@),
            self@.len() == self.ids@.len(),
            forall|i: int| 0 <= i < self@.len() ==> #[trigger] self@[i] == plugin_info(self.ids@[i], self.states@[i]),
    {
        assert forall|i: int, j: int| 0 <= i < j < self@.len() implies name_less(#[trigger] self@[i].id, #[trigger] self@[j].id) by {
            assert(self@[i].id == self.ids@[i]@);
            assert(self@[j].id == self.ids@[j]@);
        }
    }

    /// No plugins.
    pub fn new() -> (r: Self)
        ensures
            r@ == Seq::<PluginInfo>::empty(),
            sorted_by_id(r@),
    {
        let r = PluginRegistry { ids: Vec::new(), states: Vec::new() };
        assert(r@ =~= Seq::<PluginInfo>::empty());
        r
    }

    /// The number of registered plugins.
    pub fn len(&self) -> (r: usize)
        ensures
            r == self@.len(),
    {
        self.ids.len()
    }

    /// The plugin at a position of the id order.
    pub fn entry(&self, i: usize) -> (r: PluginEntry)
        requires
            i < self@.len(),
        ensures
            r@ == self@[i as int],
            r.spec_id() == self.spec_id_at(i as int),
    {
        proof {
            use_type_invariant(self);
        }
        let st = self.states[i];
        PluginEntry { id: self.ids[i], behaviour: st.behaviour, enabled: st.enabled }
    }

    /// The identifier at a position of the id order.
    pub closed spec fn spec_id_at(&self, i: int) -> PluginId {
        self.ids@[i]
    }

    fn find(&self, id: PluginId) -> (r: Option<usize>)
        ensures
            match r {
                Some(i) => i < self@.len() && self@[i as int].id == id@ && i == index_of(self@, id@),
                None => !registered(self@, id@),
            },
    {
        proof {
            use_type_invariant(self);
            self.lemma_sorted();
        }
        let mut i: usize = 0;
        while i < self.ids.len()
            invariant
                i <= self@.len(),
                self@.len() == self.ids@.len(),
                forall|k: int| 0 <= k < self@.len() ==> #[trigger] self@[k] == plugin_info(self.ids@[k], self.states@[k]),
                sorted_by_id(self@),
                forall|j: int| 0 <= j < i ==> (#[trigger] self@[j]).id != id@,
            decreases self.ids@.len() - i,
        {
            if str_eq(self.ids[i], id) {
                proof {
                    let k = index_of(self@, id@);
                    assert(self@[i as int].id == id@);
                    if k != i as int {
                        if k < i {
                            assert(name_less(self@[k].id, self@[i as int].id));
                        } else {
                            assert(name_less(self@[i as int].id, self@[k].id));
                        }
                        lemma_name_less_irreflexive(id@);
                    }
                }
                return Some(i);
            }
            assert(self@[i as int].id != id@);
            i = i + 1;
        }
        None
    }

    /// Whether a plugin with this id is registered.
    pub fn contains(&self, id: PluginId) -> (r: bool)
        ensures
            r == registered(self@, id@),
    {
        self.find(id).is_some()
    }

    /// Registers a plugin; a plugin that was registered under the same id
    /// is replaced.
    #[verifier::rlimit(40)]
    pub fn insert(&mut self, entry: PluginEntry)
        ensures
            registered(final(self)@, entry@.id),
            final(self)@[index_of(final(self)@, entry@.id)] == entry@,
            forall|id: Seq<char>| id != entry@.id ==> registered(final(self)@, id) == registered(old(self)@, id),
            forall|id: Seq<char>| id != entry@.id && registered(old(self)@, id)
                ==> final(self)@[index_of(final(self)@, id)] == old(self)@[index_of(old(self)@, id)],
            sorted_by_id(final(self)@),
    {
        proof {
            use_type_invariant(&*self);
            self.lemma_sorted();
        }
        let ghost old_s = self@;
        let st = PluginState { behaviour: entry.behaviour, enabled: entry.enabled };
        assert(plugin_info(entry.id, st) == entry@);
        let mut i: usize = 0;
        while i < self.ids.len() && compare_names(self.ids[i], entry.id) == NameOrder::Less
            invariant
                i <= self@.len(),
                self@ == old_s,
                self@.len() == self.ids@.len(),
                forall|k: int| 0 <= k < self@.len() ==> #[trigger] self@[k] == plugin_info(self.ids@[k], self.states@[k]),
                sorted_by_id(self@),
                forall|j: int| 0 <= j < i ==> name_less((#[trigger] self@[j]).id, entry@.id),
            decreases self.ids@.len() - i,
        {
            assert(self@[i as int].id == self.ids@[i as int]@);
            i = i + 1;
        }
        let replace = i < self.ids.len() && str_eq(self.ids[i], entry.id);
        let mut tmp = PluginRegistry::new();
        std::mem::swap(&mut tmp, self);
        let PluginRegistry { mut ids, mut states } = tmp;
        let ghost new_s = if replace { old_s.update(i as int, entry@) } else { old_s.insert(i as int, entry@) };
        if replace {
            states.set(i, st);
        } else {
            ids.insert(i, entry.id);
            states.insert(i, st);
        }
        proof {
            if !replace && i < old_s.len() {
                assert(old_s[i as int].id == old(self).ids@[i as int]@);
                assert(name_less(entry@.id, old_s[i as int].id));
            }
            assert forall|k: int| 0 <= k < new_s.len() implies #[trigger] new_s[k] == plugin_info(ids@[k], states@[k]) by {
                if replace {
                    if k != i {
                        assert(old_s[k] == plugin_info(old(self).ids@[k], old(self).states@[k]));
                    }
                } else if k < i {
                    assert(old_s[k] == plugin_info(old(self).ids@[k], old(self).states@[k]));
                } else if k > i {
                    assert(old_s[k - 1] == plugin_info(old(self).ids@[k - 1], old(self).states@[k - 1]));
                }
            }
            assert forall|a: int, b: int| 0 <= a < b < new_s.len() implies name_less(
                #[trigger] new_s[a].id,
                #[trigger] new_s[b].id,
            ) by {
                if replace {
                    assert(new_s[a].id == old_s[a].id);
                    assert(new_s[b].id == old_s[b].id);
                } else if b < i {
                } else if a < i && b == i {
                } else if a < i && b > i {
                    assert(new_s[b] == old_s[b - 1]);
                    if b - 1 > i {
                        lemma_name_less_transitive(entry@.id, old_s[i as int].id, old_s[b - 1].id);
                    }
                    lemma_name_less_transitive(old_s[a].id, entry@.id, old_s[b - 1].id);
                } else if a == i {
                    assert(new_s[b] == old_s[b - 1]);
                    if b - 1 > i {
                        lemma_name_less_transitive(entry@.id, old_s[i as int].id, old_s[b - 1].id);
                    }
                } else {
                    assert(new_s[a] == old_s[a - 1]);
                    assert(new_s[b] == old_s[b - 1]);
                }
            }
            assert forall|a: int, b: int| 0 <= a < b < ids@.len() implies name_less(#[trigger] ids@[a]@, #[trigger] ids@[b]@) by {
                assert(new_s[a].id == ids@[a]@);
                assert(new_s[b].id == ids@[b]@);
            }
        }
        let mut r = PluginRegistry { ids, states };
        std::mem::swap(&mut r, self);
        proof {
            assert(self@ =~= new_s);
            use_type_invariant(&*self);
            self.lemma_sorted();
            lemma_index_of_sorted(self@, entry@.id, i as int);
            assert forall|id: Seq<char>| id != entry@.id implies registered(self@, id) == registered(old_s, id) by {
                if registered(old_s, id) {
                    let k = index_of(old_s, id);
                    if replace {
                        assert(self@[k].id == id);
                    } else if k < i {
                        assert(self@[k].id == id);
                    } else {
                        assert(self@[k + 1].id == id);
                    }
                }
                if registered(self@, id) {
                    let k = index_of(self@, id);
                    if replace {
                        assert(old_s[k].id == id);
                    } else if k < i {
                        assert(old_s[k].id == id);
                    } else {
                        assert(k != i);
                        assert(old_s[k - 1].id == id);
                    }
                }
            }
            assert forall|id: Seq<char>| id != entry@.id && registered(old_s, id)
                implies self@[index_of(self@, id)] == old_s[index_of(old_s, id)] by {
                let k = index_of(old_s, id);
                let k2 = if replace || k < i { k } else { k + 1 };
                assert(self@[k2] == old_s[k]);
                lemma_index_of_sorted(self@, id, k2);
            }
        }
    }

    /// The registered plugin with this id.
    pub fn get(&self, id: PluginId) -> (r: Option<PluginEntry>)
        ensures
            match r {
                Some(e) => registered(self@, id@) && e@ == self@[index_of(self@, id@)],
                None => !registered(self@, id@),
            },
    {
        match self.find(id) {
            Some(i) => Some(self.entry(i)),
            None => None,
        }
    }

    /// The state of the registered plugin with this id, to change it; its
    /// identifier stays.
    pub fn get_mut(&mut self, id: PluginId) -> (r: Option<&mut PluginState>)
        ensures
            match r {
                Some(st) => {
                    let k = index_of(old(self)@, id@);
                    &&& registered(old(self)@, id@)
                    &&& plugin_info(id, *st) == old(self)@[k]
                    &&& final(self)@ == old(self)@.update(k, plugin_info(id, *final(st)))
                },
                None => !registered(old(self)@, id@) && final(self)@ == old(self)@,
            },
    {
        match self.find(id) {
            Some(i) => {
                proof {
                    use_type_invariant(&*self);
                }
                Some(&mut self.states[i])
            },
            None => None,
        }
    }

    /// Sets whether the plugin at position `i` is enabled.
    fn set_enabled_at(&mut self, i: usize, enabled: bool)
        requires
            i < old(self)@.len(),
        ensures
            final(self)@ == old(self)@.update(i as int, with_enabled(old(self)@[i as int], enabled)),
            sorted_by_id(final(self)@),
    {
        proof {
            use_type_invariant(&*self);
        }
        let mut st = self.states[i];
        st.enabled = enabled;
        let mut tmp = PluginRegistry::new();
        std::mem::swap(&mut tmp, self);
        let PluginRegistry { ids, mut states } = tmp;
        states.set(i, st);
        let mut r = PluginRegistry { ids, states };
        std::mem::swap(&mut r, self);
        assert(self@ =~= old(self)@.update(i as int, with_enabled(old(self)@[i as int], enabled)));
        proof {
            use_type_invariant(&*self);
            self.lemma_sorted();
        }
    }

    /// Enables or disables the plugin with this id; false where none is
    /// registered, and then nothing changes.
    pub fn set_enabled(&mut self, id: PluginId, enabled: bool) -> (r: bool)
        ensures
            r == registered(old(self)@, id@),
            r ==> final(self)@ == old(self)@.update(
                index_of(old(self)@, id@),
                with_enabled(old(self)@[index_of(old(self)@, id@)], enabled),
            ),
            !r ==> final(self)@ == old(self)@,
            sorted_by_id(final(self)@),
    {
        proof {
            use_type_invariant(&*self);
            self.lemma_sorted();
        }
        match self.find(id) {
            Some(i) => {
                self.set_enabled_at(i, enabled);
                true
            },
            None => false,
        }
    }

    /// Activates the plugin with this id: the enabled plugin that runs
    /// exclusively (the first, in id order) is disabled, then the plugin is
    /// enabled. Returns false, and changes nothing, where no plugin has the
    /// id.
    pub fn activate(&mut self, id: PluginId) -> (r: bool)
        ensures
            r == registered(old(self)@, id@),
            r ==> final(self)@ == spec_activate(old(self)@, id@),
            !r ==> final(self)@ == old(self)@,
            sorted_by_id(final(self)@),
    {
        proof {
            use_type_invariant(&*self);
            self.lemma_sorted();
        }
        let j = match self.find(id) {
            Some(j) => j,
            None => return false,
        };
        proof {
            use_type_invariant(&*self);
        }
        let ghost s = self@;
        let mut i: usize = 0;
        while i < self.states.len() && !(self.states[i].enabled
            && self.states[i].behaviour == PluginExecutionBehaviour::Exclusive)
            invariant
                self@ == s,
                i <= self@.len(),
                self@.len() == self.states@.len(),
                forall|k: int| 0 <= k < self@.len() ==> #[trigger] self@[k] == plugin_info(self.ids@[k], self.states@[k]),
                forall|k: int| 0 <= k < i ==> !enabled_exclusive(#[trigger] self@[k]),
            decreases self.states@.len() - i,
        {
            assert(self@[i as int] == plugin_info(self.ids@[i as int], self.states@[i as int]));
            i = i + 1;
        }
        if i < self.states.len() {
            proof {
                assert(self@[i as int] == plugin_info(self.ids@[i as int], self.states@[i as int]));
                assert(first_enabled_exclusive(s, i as int));
                let c = choose|c: int| first_enabled_exclusive(s, c);
                if c < i {
                } else if c > i {
                    assert(!enabled_exclusive(s[i as int]));
                }
            }
            self.set_enabled_at(i, false);
        } else {
            assert(!exists|c: int| first_enabled_exclusive(s, c));
        }
        self.set_enabled_at(j, true);
        true
    }
}

proof fn lemma_index_of_sorted(s: Seq<PluginInfo>, id: Seq<char>, k: int)
    requires
        sorted_by_id(s),
        0 <= k < s.len(),
        s[k].id == id,
    ensures
        registered(s, id),
        index_of(s, id) == k,
{
    assert(s[k].id == id);
    let c = index_of(s, id);
    if c != k {
        if c < k {
            assert(name_less(s[c].id, s[k].id));
        } else {
            assert(name_less(s[k].id, s[c].id));
        }
        lemma_name_less_irreflexive(id);
    }
}

/// The ids of the enabled plugins, in id order.
pub open spec fn spec_enabled_ids(s: Seq<PluginInfo>) -> Seq<Seq<char>> {
    s.filter(|p: PluginInfo| p.enabled).map_values(|p: PluginInfo| p.id)
}

/// The identifiers of the enabled plugins, in id order.
pub fn enabled_plugins(plugins: &PluginRegistry) -> (r: Vec<PluginId>)
    ensures
        r@.map_values(|id: PluginId| id@) == spec_enabled_ids(plugins@),
{
    let mut r: Vec<PluginId> = Vec::new();
    let mut i: usize = 0;
    while i < plugins.len()
        invariant
            i <= plugins@.len(),
            r@.map_values(|id: PluginId| id@) == spec_enabled_ids(plugins@.take(i as int)),
        decreases plugins@.len() - i,
    {
        let e = plugins.entry(i);
        let ghost pre = plugins@.take(i as int);
        proof {
            assert(plugins@.take(i + 1) =~= pre.push(plugins@[i as int]));
            pre.lemma_filter_push(plugins@[i as int], |p: PluginInfo| p.enabled);
        }
        if e.enabled() {
            r.push(e.id());
            assert(r@.map_values(|id: PluginId| id@) =~= spec_enabled_ids(pre).push(e@.id));
        }
        i = i + 1;
    }
    assert(plugins@.take(plugins@.len() as int) =~= plugins@);
    r
}

/// The registered plugin with this identifier.
pub fn get_plugin(plugins: &PluginRegistry, id: PluginId) -> (r: Option<PluginEntry>)
    ensures
        match r {
            Some(e) => registered(plugins@, id@) && e@ == plugins@[index_of(plugins@, id@)],
            None => !registered(plugins@, id@),
        },
{
    plugins.get(id)
}

/// The state of the registered plugin with this identifier, to change it.
pub fn get_plugin_mut(plugins: &mut PluginRegistry, id: PluginId) -> (r: Option<&mut PluginState>)
    ensures
        match r {
            Some(st) => {
                let k = index_of(old(plugins)@, id@);
                &&& registered(old(plugins)@, id@)
                &&& plugin_info(id, *st) == old(plugins)@[k]
                &&& final(plugins)@ == old(plugins)@.update(k, plugin_info(id, *final(st)))
            },
            None => !registered(old(plugins)@, id@) && final(plugins)@ == old(plugins)@,
        },
{
    plugins.get_mut(id)
}

/// Activating a registered plugin enables it and disables the exclusive
/// plugin that was enabled, whatever the activated plugin's own behaviour:
/// afterwards no plugin but the activated one is an enabled exclusive
/// plugin, every other plugin keeps its flag unless it was the enabled
/// exclusive one, and identifiers and behaviours are not changed.
pub proof fn law_activation_keeps_one_exclusive(s: Seq<PluginInfo>, id: Seq<char>)
    requires
        at_most_one_exclusive(s),
        registered(s, id),
    ensures
        ({
            let t = spec_activate(s, id);
            let j = index_of(s, id);
            &&& t.len() == s.len()
            &&& forall|k: int| 0 <= k < s.len() ==> (#[trigger] t[k]).id == s[k].id && t[k].behaviour == s[k].behaviour
            &&& t[j].enabled
            &&& at_most_one_exclusive(t)
            &&& forall|k: int| 0 <= k < t.len() && enabled_exclusive(#[trigger] t[k]) ==> k == j
            &&& forall|k: int| 0 <= k < s.len() && k != j
                ==> (#[trigger] t[k]).enabled == (s[k].enabled && s[k].behaviour != PluginExecutionBehaviour::Exclusive)
        }),
{
    let j = index_of(s, id);
    let t = spec_activate(s, id);
    let s1 = if exists|i: int| first_enabled_exclusive(s, i) {
        let i = choose|i: int| first_enabled_exclusive(s, i);
        s.update(i, with_enabled(s[i], false))
    } else {
        s
    };
    assert forall|k: int| 0 <= k < s1.len() implies !enabled_exclusive(#[trigger] s1[k]) by {
        if exists|i: int| first_enabled_exclusive(s, i) {
            let i = choose|i: int| first_enabled_exclusive(s, i);
            if k != i && enabled_exclusive(s[k]) {
                assert(enabled_exclusive(s[i]));
            }
        } else {
            if enabled_exclusive(s[k]) {
                assert forall|m: int| 0 <= m < k implies !enabled_exclusive(#[trigger] s[m]) by {
                    if enabled_exclusive(s[m]) {
                        assert(enabled_exclusive(s[k]));
                    }
                }
                assert(first_enabled_exclusive(s, k));
            }
        }
    }
    assert(t == s1.update(j, with_enabled(s1[j], true)));
    assert forall|k: int| 0 <= k < t.len() && enabled_exclusive(#[trigger] t[k]) implies k == j by {
        if k != j {
            assert(t[k] == s1[k]);
        }
    }
    assert forall|k: int| 0 <= k < s.len() && k != j
        implies (#[trigger] t[k]).enabled == (s[k].enabled && s[k].behaviour != PluginExecutionBehaviour::Exclusive) by {
        assert(t[k] == s1[k]);
        if exists|i: int| first_enabled_exclusive(s, i) {
            let i = choose|i: int| first_enabled_exclusive(s, i);
            if k != i && enabled_exclusive(s[k]) {
                assert(enabled_exclusive(s[i]));
            }
        } else {
            if enabled_exclusive(s[k]) {
                assert forall|m: int| 0 <= m < k implies !enabled_exclusive(#[trigger] s[m]) by {
                    if enabled_exclusive(s[m]) {
                        assert(enabled_exclusive(s[k]));
                    }
                }
                assert(first_enabled_exclusive(s, k));
            }
        }
    }
}

} // verus!
