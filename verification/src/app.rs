use vstd::prelude::*;

use crate::error::{EditorError, KeyName, Shortkey};
use crate::plugins::{
    enabled_plugins, spec_activate, spec_enabled_ids, registered, PluginEntry, PluginId, PluginInfo,
    PluginRegistry,
};
use crate::text::str_eq;

verus! {

/// The key names of a shortkey.
pub open spec fn names(keys: Seq<String>) -> Seq<Seq<char>> {
    keys.map_values(|k: String| k@)
}

/// The mathematical value of a shortkey.
pub open spec fn sk_view(sk: Shortkey) -> Seq<Seq<char>> {
    names(sk@)
}

/// The shortkeys registered by one plugin.
pub struct ShortkeyEntry {
    plugin: PluginId,
    keys: Vec<Shortkey>,
}

/// A plugin id with the shortkeys it registered, in registration order.
pub type ShortkeysOf = (Seq<char>, Seq<Seq<Seq<char>>>);

/// The mathematical value of a plugin's shortkey list.
pub closed spec fn entry_view(e: ShortkeyEntry) -> ShortkeysOf {
    (e.plugin@, e.keys@.map_values(|sk: Shortkey| sk_view(sk)))
}

/// Whether some plugin registered the shortkey `sk`.
pub open spec fn shortkey_registered(v: Seq<ShortkeysOf>, sk: Seq<Seq<char>>) -> bool {
    exists|e: int, i: int| 0 <= e < v.len() && 0 <= i < v[e].1.len() && (#[trigger] v[e].1[i]) == sk
}

/// `e` is the first entry of plugin `plugin`.
pub open spec fn first_entry_of(v: Seq<ShortkeysOf>, plugin: Seq<char>, e: int) -> bool {
    &&& 0 <= e < v.len()
    &&& v[e].0 == plugin
    &&& forall|j: int| 0 <= j < e ==> (#[trigger] v[j]).0 != plugin
}

/// The registry after plugin `plugin` registered `sk`: the shortkey is
/// appended to the plugin's list, which is created where it is missing.
pub open spec fn spec_add_shortkey(v: Seq<ShortkeysOf>, plugin: Seq<char>, sk: Seq<Seq<char>>) -> Seq<ShortkeysOf> {
    if exists|e: int| first_entry_of(v, plugin, e) {
        let e = choose|e: int| first_entry_of(v, plugin, e);
        v.update(e, (plugin, v[e].1.push(sk)))
    } else {
        v.push((plugin, seq![sk]))
    }
}

/// No shortkey is registered twice.
pub open spec fn shortkeys_unique(v: Seq<ShortkeysOf>) -> bool {
    forall|e1: int, i1: int, e2: int, i2: int|
        0 <= e1 < v.len() && 0 <= i1 < v[e1].1.len() && 0 <= e2 < v.len() && 0 <= i2 < v[e2].1.len()
            && #[trigger] v[e1].1[i1] == #[trigger] v[e2].1[i2] ==> e1 == e2 && i1 == i2
}

/// The pressed keys after `key` went down: it is appended unless it is
/// already the last one (a key that is held repeats its key-down event).
pub open spec fn spec_press(pressed: Seq<Seq<char>>, key: Seq<char>) -> Seq<Seq<char>> {
    if pressed.len() > 0 && pressed.last() == key {
        pressed
    } else {
        pressed.push(key)
    }
}

/// The pressed keys after `key` was released: every occurrence goes.
pub open spec fn spec_release(pressed: Seq<Seq<char>>, key: Seq<char>) -> Seq<Seq<char>> {
    pressed.filter(other_than(key))
}

/// Holds of every key but `key`.
pub open spec fn other_than(key: Seq<char>) -> spec_fn(Seq<char>) -> bool {
    |k: Seq<char>| k != key
}

/// Holds of the shortkeys whose keys are the last keys of `pressed`.
pub open spec fn ends_pressed(pressed: Seq<Seq<char>>) -> spec_fn(Seq<Seq<char>>) -> bool {
    |sk: Seq<Seq<char>>| sk.is_suffix_of(pressed)
}

/// The shortkeys of the first `e` entries that the pressed keys end with,
/// in registration order.
pub open spec fn spec_triggered(v: Seq<ShortkeysOf>, pressed: Seq<Seq<char>>, e: int) -> Seq<Seq<Seq<char>>>
    decreases e,
{
    if e <= 0 {
        Seq::empty()
    } else {
        spec_triggered(v, pressed, e - 1) + v[e - 1].1.filter(ends_pressed(pressed))
    }
}

/// The plugins that registered `sk`, in registration order.
pub open spec fn spec_plugins_with(v: Seq<ShortkeysOf>, sk: Seq<Seq<char>>) -> Seq<Seq<char>> {
    v.filter(|e: ShortkeysOf| e.1.contains(sk)).map_values(|e: ShortkeysOf| e.0)
}

/// The abstract state of the editor core.
pub struct AppView {
    pub plugins: Seq<PluginInfo>,
    pub shortkeys: Seq<ShortkeysOf>,
    pub pressed: Seq<Seq<char>>,
}

/// The editor's bookkeeping: the registered plugins, the shortkeys they
/// registered and the keys that are held down. The data that is edited and
/// the plugins' own behaviour are kept by the application.
pub struct App {
    plugins: PluginRegistry,
    shortkeys: Vec<ShortkeyEntry>,
    pressed_keys: Vec<KeyName>,
}

impl View for App {
    type V = AppView;

    closed spec fn view(&self) -> AppView {
        AppView {
            plugins: self.plugins@,
            shortkeys: self.shortkeys@.map_values(|e: ShortkeyEntry| entry_view(e)),
            pressed: names(self.pressed_keys@),
        }
    }
}

fn clone_shortkey(sk: &Shortkey) -> (r: Shortkey)
    ensures
        sk_view(r) == sk_view(*sk),
{
    let mut r: Shortkey = Vec::new();
    let mut i: usize = 0;
    while i < sk.len()
        invariant
            i <= sk@.len(),
            r@.len() == i,
            names(r@) == names(sk@).take(i as int),
        decreases sk@.len() - i,
    {
        let k = sk[i].clone();
        let ghost old_r = r@;
        r.push(k);
        proof {
            assert(k@ == sk@[i as int]@);
            assert forall|j: int| 0 <= j < i + 1 implies #[trigger] names(r@)[j] == names(sk@).take(i + 1)[j] by {
                if j < i {
                    assert(r@[j] == old_r[j]);
                    assert(names(old_r)[j] == names(sk@).take(i as int)[j]);
                }
            }
            assert(names(r@) =~= names(sk@).take(i + 1));
        }
        i = i + 1;
    }
    assert(names(sk@).take(sk@.len() as int) =~= names(sk@));
    r
}

fn same_shortkey(a: &Shortkey, b: &Shortkey) -> (r: bool)
    ensures
        r == (sk_view(*a) == sk_view(*b)),
{
    if a.len() != b.len() {
        assert(sk_view(*a).len() != sk_view(*b).len());
        return false;
    }
    let mut i: usize = 0;
    while i < a.len()
        invariant
            a@.len() == b@.len(),
            i <= a@.len(),
            forall|j: int| 0 <= j < i ==> (#[trigger] a@[j])@ == b@[j]@,
        decreases a@.len() - i,
    {
        if a[i] != b[i] {
            assert(sk_view(*a)[i as int] != sk_view(*b)[i as int]);
            return false;
        }
        i = i + 1;
    }
    assert(sk_view(*a) =~= sk_view(*b));
    true
}

/// Whether the pressed keys end with the keys of `sk`.
fn ends_with(pressed: &Vec<KeyName>, sk: &Shortkey) -> (r: bool)
    ensures
        r == sk_view(*sk).is_suffix_of(names(pressed@)),
{
    let n = pressed.len();
    let m = sk.len();
    if m > n {
        return false;
    }
    let off = n - m;
    let mut i: usize = 0;
    while i < m
        invariant
            n == pressed@.len(),
            m == sk@.len(),
            off == n - m,
            i <= m,
            forall|j: int| 0 <= j < i ==> (#[trigger] sk@[j])@ == pressed@[off + j]@,
        decreases m - i,
    {
        if sk[i] != pressed[off + i] {
            assert(sk_view(*sk)[i as int] != names(pressed@).subrange(off as int, n as int)[i as int]);
            return false;
        }
        i = i + 1;
    }
    assert(sk_view(*sk) =~= names(pressed@).subrange(off as int, n as int));
    true
}

impl App {
    /// An editor without plugins, shortkeys or pressed keys.
    pub fn new() -> (r: Self)
        ensures
            r@.plugins.len() == 0,
            r@.shortkeys.len() == 0,
            r@.pressed.len() == 0,
    {
        let r = App { plugins: PluginRegistry::new(), shortkeys: Vec::new(), pressed_keys: Vec::new() };
        assert(r@.shortkeys =~= Seq::<ShortkeysOf>::empty());
        assert(r@.pressed =~= Seq::<Seq<char>>::empty());
        r
    }

    /// The registered plugins.
    pub fn plugins(&self) -> (r: &PluginRegistry)
        ensures
            r@ == self@.plugins,
    {
        &self.plugins
    }

    /// Whether some plugin registered `key`.
    pub fn has_shortkey(&self, key: Shortkey) -> (r: bool)
        ensures
            r == shortkey_registered(self@.shortkeys, sk_view(key)),
    {
        self.find_shortkey(&key).is_some()
    }

    fn find_shortkey(&self, key: &Shortkey) -> (r: Option<(usize, usize)>)
        ensures
            match r {
                Some((e, i)) => e < self@.shortkeys.len() && i < self@.shortkeys[e as int].1.len()
                    && self@.shortkeys[e as int].1[i as int] == sk_view(*key),
                None => !shortkey_registered(self@.shortkeys, sk_view(*key)),
            },
    {
        let ghost v = self@.shortkeys;
        let mut e: usize = 0;
        while e < self.shortkeys.len()
            invariant
                v == self@.shortkeys,
                v.len() == self.shortkeys@.len(),
                e <= v.len(),
                forall|a: int, b: int| 0 <= a < e && 0 <= b < v[a].1.len() ==> (#[trigger] v[a].1[b]) != sk_view(*key),
            decreases v.len() - e,
        {
            let list = &self.shortkeys[e].keys;
            let mut i: usize = 0;
            while i < list.len()
                invariant
                    v == self@.shortkeys,
                    e < v.len(),
                    v[e as int].1 == list@.map_values(|sk: Shortkey| sk_view(sk)),
                    i <= list@.len(),
                    forall|b: int| 0 <= b < i ==> (#[trigger] v[e as int].1[b]) != sk_view(*key),
                decreases list@.len() - i,
            {
                if same_shortkey(&list[i], key) {
                    return Some((e, i));
                }
                i = i + 1;
            }
            e = e + 1;
        }
        None
    }

    fn find_entry(&self, plugin: PluginId) -> (r: Option<usize>)
        ensures
            match r {
                Some(e) => first_entry_of(self@.shortkeys, plugin@, e as int),
                None => !exists|e: int| first_entry_of(self@.shortkeys, plugin@, e),
            },
    {
        let ghost v = self@.shortkeys;
        let mut e: usize = 0;
        while e < self.shortkeys.len()
            invariant
                v == self@.shortkeys,
                v.len() == self.shortkeys@.len(),
                e <= v.len(),
                forall|a: int| 0 <= a < e ==> (#[trigger] v[a]).0 != plugin@,
            decreases v.len() - e,
        {
            if str_eq(self.shortkeys[e].plugin, plugin) {
                return Some(e);
            }
            e = e + 1;
        }
        None
    }

    /// Registers a shortkey for a plugin. A shortkey can be registered once
    /// only, by any plugin; registering it again is refused.
    pub fn add_shortkey(&mut self, plugin: PluginId, keys: Shortkey) -> (r: Result<(), EditorError>)
        ensures
            match r {
                Ok(()) => {
                    &&& !shortkey_registered(old(self)@.shortkeys, sk_view(keys))
                    &&& final(self)@.shortkeys == spec_add_shortkey(old(self)@.shortkeys, plugin@, sk_view(keys))
                },
                Err(e) => {
                    &&& shortkey_registered(old(self)@.shortkeys, sk_view(keys))
                    &&& e == EditorError::ShortkeyExists { shortkey: keys }
                    &&& final(self)@.shortkeys == old(self)@.shortkeys
                },
            },
            final(self)@.plugins == old(self)@.plugins,
            final(self)@.pressed == old(self)@.pressed,
    {
        if let Some((e, i)) = self.find_shortkey(&keys) {
            return Err(EditorError::ShortkeyExists { shortkey: keys });
        }
        let ghost v = self@.shortkeys;
        let ghost k = sk_view(keys);
        match self.find_entry(plugin) {
            Some(e) => {
                let mut entry = self.shortkeys.remove(e);
                entry.keys.push(keys);
                self.shortkeys.insert(e, entry);
                proof {
                    let c = choose|c: int| first_entry_of(v, plugin@, c);
                    if c != e as int {
                        if c < e {
                            assert(v[c].0 != plugin@);
                        } else {
                            assert(v[e as int].0 != plugin@);
                        }
                    }
                    assert(entry_view(entry) == (plugin@, v[e as int].1.push(k))) by {
                        assert(entry.keys@.map_values(|sk: Shortkey| sk_view(sk)) =~= v[e as int].1.push(k));
                    }
                    assert(self@.shortkeys =~= spec_add_shortkey(v, plugin@, k));
                }
            },
            None => {
                let mut list: Vec<Shortkey> = Vec::new();
                list.push(keys);
                let entry = ShortkeyEntry { plugin, keys: list };
                self.shortkeys.push(entry);
                proof {
                    assert(entry.keys@.map_values(|sk: Shortkey| sk_view(sk)) =~= seq![k]);
                    assert(self@.shortkeys =~= spec_add_shortkey(v, plugin@, k));
                }
            },
        }
        Ok(())
    }

    /// A key went down. It is recorded as pressed unless it is the last
    /// pressed key already; the result holds every registered shortkey whose
    /// keys are the last pressed keys, in registration order.
    pub fn key_down(&mut self, key: KeyName) -> (r: Vec<Shortkey>)
        ensures
            final(self)@.pressed == spec_press(old(self)@.pressed, key@),
            final(self)@.plugins == old(self)@.plugins,
            final(self)@.shortkeys == old(self)@.shortkeys,
            r@.map_values(|sk: Shortkey| sk_view(sk)) == spec_triggered(
                final(self)@.shortkeys,
                final(self)@.pressed,
                final(self)@.shortkeys.len() as int,
            ),
    {
        let n = self.pressed_keys.len();
        let repeat = n > 0 && self.pressed_keys[n - 1] == key;
        if !repeat {
            self.pressed_keys.push(key);
            assert(names(self.pressed_keys@) =~= old(self)@.pressed.push(key@));
        }
        self.triggered_shortkeys()
    }

    /// Every registered shortkey whose keys are the last pressed keys.
    fn triggered_shortkeys(&self) -> (r: Vec<Shortkey>)
        ensures
            r@.map_values(|sk: Shortkey| sk_view(sk)) == spec_triggered(self@.shortkeys, self@.pressed, self@.shortkeys.len() as int),
    {
        let ghost v = self@.shortkeys;
        let ghost p = self@.pressed;
        let mut r: Vec<Shortkey> = Vec::new();
        let mut e: usize = 0;
        while e < self.shortkeys.len()
            invariant
                v == self@.shortkeys,
                p == self@.pressed,
                v.len() == self.shortkeys@.len(),
                e <= v.len(),
                r@.map_values(|sk: Shortkey| sk_view(sk)) == spec_triggered(v, p, e as int),
            decreases v.len() - e,
        {
            let list = &self.shortkeys[e].keys;
            let ghost lv = v[e as int].1;
            let ghost before = spec_triggered(v, p, e as int);
            let mut i: usize = 0;
            while i < list.len()
                invariant
                    v == self@.shortkeys,
                    p == self@.pressed,
                    e < v.len(),
                    lv == v[e as int].1,
                    lv == list@.map_values(|sk: Shortkey| sk_view(sk)),
                    before == spec_triggered(v, p, e as int),
                    i <= list@.len(),
                    r@.map_values(|sk: Shortkey| sk_view(sk)) == before + lv.take(i as int).filter(ends_pressed(p)),
                decreases list@.len() - i,
            {
                proof {
                    assert(lv.take(i + 1) =~= lv.take(i as int).push(lv[i as int]));
                    lv.take(i as int).lemma_filter_push(lv[i as int], ends_pressed(p));
                }
                if ends_with(&self.pressed_keys, &list[i]) {
                    let c = clone_shortkey(&list[i]);
                    let ghost old_map = r@.map_values(|sk: Shortkey| sk_view(sk));
                    let ghost f = lv.take(i as int).filter(ends_pressed(p));
                    r.push(c);
                    proof {
                        assert(sk_view(c) == lv[i as int]);
                        assert(ends_pressed(p)(lv[i as int]));
                        assert(lv.take(i + 1).filter(ends_pressed(p)) == f.push(lv[i as int]));
                        assert(r@.map_values(|sk: Shortkey| sk_view(sk)) =~= old_map.push(lv[i as int]));
                        assert(before + f.push(lv[i as int]) =~= (before + f).push(lv[i as int]));
                    }
                } else {
                    assert(!ends_pressed(p)(lv[i as int]));
                }
                i = i + 1;
            }
            assert(lv.take(list@.len() as int) =~= lv);
            e = e + 1;
        }
        r
    }

    /// A key was released: it no longer counts as pressed.
    pub fn key_up(&mut self, key: &KeyName)
        ensures
            final(self)@.pressed == spec_release(old(self)@.pressed, key@),
            final(self)@.plugins == old(self)@.plugins,
            final(self)@.shortkeys == old(self)@.shortkeys,
    {
        let ghost p = self@.pressed;
        let mut kept: Vec<KeyName> = Vec::new();
        let mut i: usize = 0;
        while i < self.pressed_keys.len()
            invariant
                p == names(self.pressed_keys@),
                i <= p.len(),
                names(kept@) == spec_release(p.take(i as int), key@),
            decreases p.len() - i,
        {
            proof {
                assert(p.take(i + 1) =~= p.take(i as int).push(p[i as int]));
                p.take(i as int).lemma_filter_push(p[i as int], other_than(key@));
            }
            if self.pressed_keys[i] != *key {
                let k = self.pressed_keys[i].clone();
                kept.push(k);
                assert(names(kept@) =~= spec_release(p.take(i as int), key@).push(p[i as int]));
            }
            i = i + 1;
        }
        assert(p.take(p.len() as int) =~= p);
        self.pressed_keys = kept;
    }

    /// The plugins that registered `shortkey`, in registration order: they
    /// are told that it was pressed.
    pub fn shortkey_pressed(&self, shortkey: &Shortkey) -> (r: Vec<PluginId>)
        ensures
            r@.map_values(|id: PluginId| id@) == spec_plugins_with(self@.shortkeys, sk_view(*shortkey)),
    {
        let ghost v = self@.shortkeys;
        let ghost k = sk_view(*shortkey);
        let ghost has = |e: ShortkeysOf| e.1.contains(k);
        let mut r: Vec<PluginId> = Vec::new();
        let mut e: usize = 0;
        while e < self.shortkeys.len()
            invariant
                v == self@.shortkeys,
                k == sk_view(*shortkey),
                has == (|e: ShortkeysOf| e.1.contains(k)),
                v.len() == self.shortkeys@.len(),
                e <= v.len(),
                r@.map_values(|id: PluginId| id@) == v.take(e as int).filter(has).map_values(|x: ShortkeysOf| x.0),
            decreases v.len() - e,
        {
            let list = &self.shortkeys[e].keys;
            let mut found = false;
            let mut i: usize = 0;
            while i < list.len() && !found
                invariant
                    v == self@.shortkeys,
                    k == sk_view(*shortkey),
                    e < v.len(),
                    v[e as int].1 == list@.map_values(|sk: Shortkey| sk_view(sk)),
                    i <= list@.len(),
                    found ==> v[e as int].1.contains(k),
                    !found ==> forall|b: int| 0 <= b < i ==> (#[trigger] v[e as int].1[b]) != k,
                decreases list@.len() - i,
            {
                let same = same_shortkey(&list[i], shortkey);
                proof {
                    assert(v[e as int].1[i as int] == sk_view(list@[i as int]));
                    if same {
                        assert(v[e as int].1.contains(k));
                    }
                }
                if same {
                    found = true;
                }
                i = i + 1;
            }
            proof {
                assert(v.take(e + 1) =~= v.take(e as int).push(v[e as int]));
                v.take(e as int).lemma_filter_push(v[e as int], has);
                if !found {
                    assert(!v[e as int].1.contains(k));
                }
            }
            if found {
                let ghost old_map = r@.map_values(|id: PluginId| id@);
                let ghost f = v.take(e as int).filter(has);
                r.push(self.shortkeys[e].plugin);
                proof {
                    assert(has(v[e as int]));
                    assert(v.take(e + 1).filter(has) == f.push(v[e as int]));
                    assert(r@.map_values(|id: PluginId| id@) =~= old_map.push(v[e as int].0));
                    assert(f.push(v[e as int]).map_values(|x: ShortkeysOf| x.0) =~= f.map_values(|x: ShortkeysOf| x.0).push(v[e as int].0));
                }
            } else {
                assert(v.take(e + 1).filter(has) == v.take(e as int).filter(has));
            }
            e = e + 1;
        }
        assert(v.take(v.len() as int) =~= v);
        r
    }

    /// Registers a plugin (replacing one with the same id). The caller then
    /// activates it.
    pub fn add_plugin(&mut self, entry: PluginEntry)
        ensures
            registered(final(self)@.plugins, entry@.id),
            final(self)@.plugins[crate::plugins::index_of(final(self)@.plugins, entry@.id)] == entry@,
            forall|id: Seq<char>| id != entry@.id ==> registered(final(self)@.plugins, id) == registered(old(self)@.plugins, id),
            forall|id: Seq<char>| id != entry@.id && registered(old(self)@.plugins, id)
                ==> final(self)@.plugins[crate::plugins::index_of(final(self)@.plugins, id)]
                    == old(self)@.plugins[crate::plugins::index_of(old(self)@.plugins, id)],
            crate::plugins::sorted_by_id(final(self)@.plugins),
            final(self)@.shortkeys == old(self)@.shortkeys,
            final(self)@.pressed == old(self)@.pressed,
    {
        self.plugins.insert(entry);
    }

    /// Activates a plugin (see `PluginRegistry::activate`); false where no
    /// plugin has the id.
    pub fn activate_plugin(&mut self, id: PluginId) -> (r: bool)
        ensures
            r == registered(old(self)@.plugins, id@),
            r ==> final(self)@.plugins == spec_activate(old(self)@.plugins, id@),
            !r ==> final(self)@.plugins == old(self)@.plugins,
            final(self)@.shortkeys == old(self)@.shortkeys,
            final(self)@.pressed == old(self)@.pressed,
    {
        self.plugins.activate(id)
    }

    /// Enables or disables a plugin; false where no plugin has the id.
    pub fn set_plugin_enabled(&mut self, id: PluginId, enabled: bool) -> (r: bool)
        ensures
            r == registered(old(self)@.plugins, id@),
            r ==> final(self)@.plugins == old(self)@.plugins.update(
                crate::plugins::index_of(old(self)@.plugins, id@),
                crate::plugins::with_enabled(old(self)@.plugins[crate::plugins::index_of(old(self)@.plugins, id@)], enabled),
            ),
            !r ==> final(self)@.plugins == old(self)@.plugins,
            final(self)@.shortkeys == old(self)@.shortkeys,
            final(self)@.pressed == old(self)@.pressed,
    {
        self.plugins.set_enabled(id, enabled)
    }

    /// The identifiers of the enabled plugins, in id order.
    pub fn enabled_plugins(&self) -> (r: Vec<PluginId>)
        ensures
            r@.map_values(|id: PluginId| id@) == spec_enabled_ids(self@.plugins),
    {
        enabled_plugins(&self.plugins)
    }
}

/// A shortkey that a plugin has just registered is registered, and so is
/// every shortkey that was registered before.
pub proof fn law_registered_shortkeys_stay(v: Seq<ShortkeysOf>, plugin: Seq<char>, sk: Seq<Seq<char>>, other: Seq<Seq<char>>)
    ensures
        shortkey_registered(spec_add_shortkey(v, plugin, sk), sk),
        shortkey_registered(v, other) ==> shortkey_registered(spec_add_shortkey(v, plugin, sk), other),
{
    let w = spec_add_shortkey(v, plugin, sk);
    if exists|e: int| first_entry_of(v, plugin, e) {
        let e = choose|e: int| first_entry_of(v, plugin, e);
        assert(w[e].1[v[e].1.len() as int] == sk);
        if shortkey_registered(v, other) {
            let (a, b) = choose|a: int, b: int| 0 <= a < v.len() && 0 <= b < v[a].1.len() && (#[trigger] v[a].1[b]) == other;
            assert(w[a].1[b] == other);
        }
    } else {
        assert(w[v.len() as int].1[0] == sk);
        if shortkey_registered(v, other) {
            let (a, b) = choose|a: int, b: int| 0 <= a < v.len() && 0 <= b < v[a].1.len() && (#[trigger] v[a].1[b]) == other;
            assert(w[a].1[b] == other);
        }
    }
}

/// Registering a shortkey that no plugin registered keeps every shortkey
/// registered once only.
pub proof fn law_shortkeys_stay_unique(v: Seq<ShortkeysOf>, plugin: Seq<char>, sk: Seq<Seq<char>>)
    requires
        shortkeys_unique(v),
        !shortkey_registered(v, sk),
    ensures
        shortkeys_unique(spec_add_shortkey(v, plugin, sk)),
{
    let w = spec_add_shortkey(v, plugin, sk);
    if exists|e: int| first_entry_of(v, plugin, e) {
        let e = choose|e: int| first_entry_of(v, plugin, e);
        let n = v[e].1.len() as int;
        assert forall|e1: int, i1: int, e2: int, i2: int|
            0 <= e1 < w.len() && 0 <= i1 < w[e1].1.len() && 0 <= e2 < w.len() && 0 <= i2 < w[e2].1.len()
                && #[trigger] w[e1].1[i1] == #[trigger] w[e2].1[i2] implies e1 == e2 && i1 == i2 by {
            let new1 = e1 == e && i1 == n;
            let new2 = e2 == e && i2 == n;
            if new1 && !new2 {
                assert(w[e2].1[i2] == v[e2].1[i2]);
            } else if new2 && !new1 {
                assert(w[e1].1[i1] == v[e1].1[i1]);
            } else if !new1 && !new2 {
                assert(w[e1].1[i1] == v[e1].1[i1]);
                assert(w[e2].1[i2] == v[e2].1[i2]);
            }
        }
    } else {
        let n = v.len() as int;
        assert forall|e1: int, i1: int, e2: int, i2: int|
            0 <= e1 < w.len() && 0 <= i1 < w[e1].1.len() && 0 <= e2 < w.len() && 0 <= i2 < w[e2].1.len()
                && #[trigger] w[e1].1[i1] == #[trigger] w[e2].1[i2] implies e1 == e2 && i1 == i2 by {
            if e1 == n && e2 != n {
                assert(w[e2] == v[e2]);
            } else if e2 == n && e1 != n {
                assert(w[e1] == v[e1]);
            } else if e1 != n && e2 != n {
                assert(w[e1] == v[e1]);
                assert(w[e2] == v[e2]);
            }
        }
    }
}

/// A key that went down is the last pressed key; a key that was released is
/// not pressed any more, and every other key keeps its place.
pub proof fn law_press_and_release(pressed: Seq<Seq<char>>, key: Seq<char>, other: Seq<char>)
    ensures
        spec_press(pressed, key).last() == key,
        spec_press(pressed, key).len() > 0,
        !spec_release(pressed, key).contains(key),
        other != key ==> (spec_release(pressed, other).contains(key) == pressed.contains(key)),
{
    let f = other_than(key);
    let g = other_than(other);
    if spec_release(pressed, key).contains(key) {
        let i = choose|i: int| 0 <= i < spec_release(pressed, key).len() && spec_release(pressed, key)[i] == key;
        pressed.lemma_filter_pred(f, i);
    }
    if other != key {
        if pressed.contains(key) {
            let i = choose|i: int| 0 <= i < pressed.len() && pressed[i] == key;
            pressed.lemma_filter_contains(g, i);
        }
        if spec_release(pressed, other).contains(key) {
            pressed.lemma_filter_contains_rev(g, key);
        }
    }
}


/// Pressing the keys of a registered shortkey, the last of them last,
/// triggers it; and whatever is triggered is a registered shortkey that the
/// pressed keys end with.
pub proof fn law_pressed_shortkey_is_triggered(v: Seq<ShortkeysOf>, pressed: Seq<Seq<char>>, sk: Seq<Seq<char>>)
    ensures
        shortkey_registered(v, sk) && sk.is_suffix_of(pressed) ==> spec_triggered(v, pressed, v.len() as int).contains(sk),
        spec_triggered(v, pressed, v.len() as int).contains(sk) ==> shortkey_registered(v, sk) && sk.is_suffix_of(pressed),
{
    lemma_triggered(v, pressed, sk, v.len() as int);
}

proof fn lemma_triggered(v: Seq<ShortkeysOf>, pressed: Seq<Seq<char>>, sk: Seq<Seq<char>>, n: int)
    requires
        0 <= n <= v.len(),
    ensures
        spec_triggered(v, pressed, n).contains(sk) <==> (sk.is_suffix_of(pressed)
            && exists|e: int, i: int| 0 <= e < n && 0 <= i < v[e].1.len() && (#[trigger] v[e].1[i]) == sk),
    decreases n,
{
    if n > 0 {
        lemma_triggered(v, pressed, sk, n - 1);
        let before = spec_triggered(v, pressed, n - 1);
        let list = v[n - 1].1;
        let f = list.filter(ends_pressed(pressed));
        assert(spec_triggered(v, pressed, n) == before + f);
        if spec_triggered(v, pressed, n).contains(sk) {
            let j = choose|j: int| 0 <= j < (before + f).len() && (before + f)[j] == sk;
            if j >= before.len() {
                let x = j - before.len();
                assert(f[x] == sk);
                list.lemma_filter_contains_rev(ends_pressed(pressed), sk);
                let i = choose|i: int| 0 <= i < list.len() && list[i] == sk;
                assert(v[n - 1].1[i] == sk);
            } else {
                assert(before[j] == sk);
            }
        }
        if sk.is_suffix_of(pressed) && exists|e: int, i: int| 0 <= e < n && 0 <= i < v[e].1.len() && (#[trigger] v[e].1[i]) == sk {
            let (e, i) = choose|e: int, i: int| 0 <= e < n && 0 <= i < v[e].1.len() && (#[trigger] v[e].1[i]) == sk;
            if e == n - 1 {
                list.lemma_filter_contains(ends_pressed(pressed), i);
                let x = choose|x: int| 0 <= x < f.len() && f[x] == sk;
                assert((before + f)[before.len() + x] == sk);
            } else {
                let j = choose|j: int| 0 <= j < before.len() && before[j] == sk;
                assert((before + f)[j] == sk);
            }
        }
    }
}

} // verus!
