//! Extension plugins: their settings, and a registry that finds them by
//! name.

use vstd::prelude::*;

use crate::external::json_null;
use crate::text::views;

verus! {

/// A plugin's settings: its name and version, whether it is enabled, and
/// its own configuration.
#[derive(Debug, Clone)]
pub struct PluginConfig {
    pub name: String,
    pub version: String,
    pub enabled: bool,
    pub config: serde_json::Value,
}

impl PluginConfig {
    /// Settings for an enabled plugin with a `null` configuration.
    pub fn new(name: &str, version: &str) -> (r: Self)
        ensures
            r.name@ == name@,
            r.version@ == version@,
            r.enabled,
    {
        PluginConfig {
            name: String::from_str(name),
            version: String::from_str(version),
            enabled: true,
            config: json_null(),
        }
    }

    /// Replaces the configuration.
    pub fn with_config(self, config: serde_json::Value) -> (r: Self)
        ensures
            r.config == config,
            r.name == self.name,
            r.version == self.version,
            r.enabled == self.enabled,
    {
        let mut s = self;
        s.config = config;
        s
    }

    /// Marks the plugin disabled.
    pub fn disabled(self) -> (r: Self)
        ensures
            !r.enabled,
            r.name == self.name,
            r.version == self.version,
            r.config == self.config,
    {
        let mut s = self;
        s.enabled = false;
        s
    }
}


/// An extension plugin.
pub trait Plugin: Send + Sync {
    /// Plugin name.
    fn name(&self) -> &str;

    /// Plugin version.
    fn version(&self) -> &str;

    /// Initializes the plugin; by default there is nothing to do, and it
    /// succeeds.
    fn init(&self) -> (r: Result<(), String>)
        default_ensures
            r is Ok,
    {
        Ok(())
    }

    /// Shuts the plugin down; by default there is nothing to do, and it
    /// succeeds.
    fn shutdown(&self) -> (r: Result<(), String>)
        default_ensures
            r is Ok,
    {
        Ok(())
    }
}

/// `after` is `before` with a plugin registered under `k`: the names stay
/// as they were when `k` was among them, otherwise `k` is added after them.
pub open spec fn registered_under(before: PluginRegistry, after: PluginRegistry, k: Seq<char>) -> bool {
    if before.keys().contains(k) {
        after.keys() == before.keys()
    } else {
        after.keys() == before.keys().push(k)
    }
}

/// Extension plugins by name: at most one per name.
pub struct PluginRegistry {
    names: Vec<String>,
    plugins: Vec<Box<dyn Plugin>>,
}

impl PluginRegistry {
    /// The names of the registered plugins.
    pub closed spec fn keys(self) -> Seq<Seq<char>> {
        views(self.names@)
    }

    #[verifier::type_invariant]
    spec fn inv(self) -> bool {
        &&& self.names@.len() == self.plugins@.len()
        &&& views(self.names@).no_duplicates()
    }

    /// An empty registry.
    pub fn new() -> (r: Self)
        ensures
            r.keys() == Seq::<Seq<char>>::empty(),
    {
        let r = PluginRegistry { names: Vec::new(), plugins: Vec::new() };
        proof {
            assert(views(r.names@) =~= Seq::<Seq<char>>::empty());
        }
        r
    }

    /// The registered plugins, in the order of `keys()`.
    pub closed spec fn plugin_list(self) -> Seq<Box<dyn Plugin>> {
        self.plugins@
    }

    /// Registers a plugin under its name, replacing any plugin of the same
    /// name; a new name is listed after the existing ones.
    pub fn register<P: Plugin + 'static>(&mut self, plugin: P)
        ensures
            exists|k: Seq<char>|
                #![trigger registered_under(*old(self), *final(self), k)]
                registered_under(*old(self), *final(self), k),
    {
        let name = String::from_str(plugin.name());
        let boxed: Box<dyn Plugin> = Box::new(plugin);
        self.register_named(name.as_str(), boxed);
    }

    /// Registers `plugin` under `name`: a plugin already registered under
    /// `name` is replaced in its place, otherwise `name` is listed after the
    /// existing names; every other name keeps its plugin.
    pub fn register_named(&mut self, name: &str, plugin: Box<dyn Plugin>)
        ensures
            registered_under(*old(self), *final(self), name@),
            old(self).keys().contains(name@) ==> exists|i: int|
                0 <= i < old(self).keys().len() && #[trigger] old(self).keys()[i] == name@
                && final(self).plugin_list() == old(self).plugin_list().update(i, plugin),
            !old(self).keys().contains(name@) ==> final(self).plugin_list() == old(self).plugin_list().push(plugin),
            final(self).keys().no_duplicates(),
            final(self).plugin_list().len() == final(self).keys().len(),
    {
        proof {
            use_type_invariant(&*self);
        }
        let name = String::from_str(name);
        let boxed = plugin;
        let mut current = PluginRegistry::new();
        std::mem::swap(&mut current, self);
        proof {
            use_type_invariant(&current);
        }
        let PluginRegistry { mut names, mut plugins } = current;
        let ghost old_keys = views(names@);
        let ghost old_plugins = plugins@;
        assert(old_keys == old(self).keys());
        assert(old_plugins == old(self).plugin_list());
        let mut i: usize = 0;
        while i < names.len()
            invariant
                i <= names@.len(),
                names@.len() == plugins@.len(),
                views(names@) == old_keys,
                forall|j: int| 0 <= j < i ==> names@[j]@ != name@,
            ensures
                i <= names@.len(),
                names@.len() == plugins@.len(),
                views(names@) == old_keys,
                forall|j: int| 0 <= j < i ==> names@[j]@ != name@,
                i < names@.len() ==> names@[i as int]@ == name@,
            decreases names.len() - i,
        {
            if names[i] == name {
                break;
            }
            i = i + 1;
        }
        if i < names.len() {
            proof {
                vstd::seq::axiom_seq_update_len(plugins@, i as int, boxed);
            }
            plugins.set(i, boxed);
            proof {
                assert(old_keys.contains(name@)) by {
                    assert(old_keys[i as int] == name@);
                }
                assert(old_keys[i as int] == name@);
            }
        } else {
            proof {
                assert(!old_keys.contains(name@)) by {
                    if old_keys.contains(name@) {
                        let j = choose|j: int| 0 <= j < old_keys.len() && old_keys[j] == name@;
                        assert(names@[j]@ == name@);
                    }
                }
                vstd::seq::axiom_seq_push_len(plugins@, boxed);
            }
            names.push(name);
            plugins.push(boxed);
            proof {
                assert(views(names@) =~= old_keys.push(name@));
                assert(views(names@).no_duplicates()) by {
                    assert forall|a: int, b: int| 0 <= a < b < views(names@).len() implies views(names@)[a] != views(names@)[b] by {
                        if b == old_keys.len() {
                            assert(old_keys[a] == views(names@)[a]);
                        }
                    }
                }
            }
        }
        *self = PluginRegistry { names, plugins };
    }

    /// The plugin registered under `name`, if any.
    pub fn get(&self, name: &str) -> (r: Option<&dyn Plugin>)
        ensures
            r is Some <==> self.keys().contains(name@),
            r matches Some(p) ==> exists|i: int|
                0 <= i < self.keys().len() && #[trigger] self.keys()[i] == name@ && p == &*self.plugin_list()[i],
            self.keys().no_duplicates(),
            self.plugin_list().len() == self.keys().len(),
    {
        proof {
            use_type_invariant(self);
        }
        let key = String::from_str(name);
        let mut i: usize = 0;
        while i < self.names.len()
            invariant
                i <= self.names@.len(),
                self.names@.len() == self.plugins@.len(),
                key@ == name@,
                forall|j: int| 0 <= j < i ==> self.names@[j]@ != name@,
                self.keys().no_duplicates(),
            decreases self.names.len() - i,
        {
            if self.names[i] == key {
                proof {
                    assert(self.keys()[i as int] == name@);
                }
                let b: &Box<dyn Plugin> = &self.plugins[i];
                let p = &**b;
                let r = Some(p);
                assert(r matches Some(q) && q == &*self.plugin_list()[i as int]);
                return r;
            }
            i = i + 1;
        }
        proof {
            if self.keys().contains(name@) {
                let j = choose|j: int| 0 <= j < self.keys().len() && self.keys()[j] == name@;
                assert(self.names@[j]@ == name@);
            }
        }
        None
    }

    /// The names of the registered plugins.
    pub fn names(&self) -> (r: Vec<&str>)
        ensures
            r@.len() == self.keys().len(),
            forall|i: int| 0 <= i < r@.len() ==> #[trigger] r@[i]@ == self.keys()[i],
            self.keys().no_duplicates(),
    {
        proof {
            use_type_invariant(self);
        }
        let mut out: Vec<&str> = Vec::new();
        let mut i: usize = 0;
        while i < self.names.len()
            invariant
                i <= self.names@.len(),
                out@.len() == i,
                forall|j: int| 0 <= j < i ==> #[trigger] out@[j]@ == self.names@[j]@,
            decreases self.names.len() - i,
        {
            out.push(self.names[i].as_str());
            i = i + 1;
        }
        out
    }
}

impl Default for PluginRegistry {
    fn default() -> (r: Self)
        ensures
            r.keys() == Seq::<Seq<char>>::empty(),
    {
        PluginRegistry::new()
    }
}

} // verus!
