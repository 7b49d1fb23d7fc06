//! Recipe data model: variables, settings, and `{{ name }}` interpolation.

use vstd::prelude::*;

use crate::external::utc_timestamp_millis;
use crate::text::{chars_of, decimal, push_char, push_decimal, push_range, push_str, string_of};

verus! {

// ---------------------------------------------------------------------------
// StringMap
// ---------------------------------------------------------------------------

/// The entries of a string map as character sequences.
pub open spec fn entry_views(s: Seq<(String, String)>) -> Seq<(Seq<char>, Seq<char>)> {
    s.map_values(|e: (String, String)| (e.0@, e.1@))
}

/// The keys of a list of entries.
pub open spec fn entry_keys(s: Seq<(Seq<char>, Seq<char>)>) -> Seq<Seq<char>> {
    s.map_values(|e: (Seq<char>, Seq<char>)| e.0)
}

/// The map denoted by a list of entries: the first entry for a key wins.
pub open spec fn entries_map(s: Seq<(Seq<char>, Seq<char>)>) -> Map<Seq<char>, Seq<char>>
    decreases s.len(),
{
    if s.len() == 0 {
        Map::empty()
    } else {
        entries_map(s.drop_first()).insert(s[0].0, s[0].1)
    }
}

/// A map from strings to strings kept as a list of entries, each key once,
/// in insertion order.
#[derive(Debug, Clone)]
pub struct StringMap {
    entries: Vec<(String, String)>,
}

impl View for StringMap {
    type V = Map<Seq<char>, Seq<char>>;

    closed spec fn view(&self) -> Map<Seq<char>, Seq<char>> {
        entries_map(entry_views(self.entries@))
    }
}

impl StringMap {
    /// A well-formed map has finitely many keys.
    pub proof fn lemma_finite(self)
        requires
            self.wf(),
        ensures
            self@.dom().finite(),
    {
        lemma_entries_map_len(entry_views(self.entries@));
    }

    /// The entries, in insertion order.
    pub closed spec fn entry_list(self) -> Seq<(Seq<char>, Seq<char>)> {
        entry_views(self.entries@)
    }

    /// Each key occurs once.
    pub closed spec fn wf(self) -> bool {
        entry_keys(entry_views(self.entries@)).no_duplicates()
    }

    /// An empty map.
    pub fn new() -> (r: Self)
        ensures
            r@ == Map::<Seq<char>, Seq<char>>::empty(),
            r.wf(),
            r.entry_list().len() == 0,
    {
        let r = StringMap { entries: Vec::new() };
        proof {
            assert(entry_views(r.entries@) =~= Seq::<(Seq<char>, Seq<char>)>::empty());
        }
        r
    }

    /// The position of the first entry with key `key`.
    fn find(&self, key: &str) -> (r: Option<usize>)
        ensures
            match r {
                Some(j) => j < self.entries@.len() && self.entries@[j as int].0@ == key@
                    && forall|q: int| 0 <= q < j ==> self.entries@[q].0@ != key@,
                None => forall|q: int| 0 <= q < self.entries@.len() ==> self.entries@[q].0@ != key@,
            },
    {
        let k = String::from_str(key);
        let mut j: usize = 0;
        while j < self.entries.len()
            invariant
                k@ == key@,
                j <= self.entries@.len(),
                forall|q: int| 0 <= q < j ==> self.entries@[q].0@ != key@,
            decreases self.entries.len() - j,
        {
            if self.entries[j].0 == k {
                return Some(j);
            }
            j = j + 1;
        }
        None
    }

    /// The value stored for `key`.
    pub fn get(&self, key: &str) -> (r: Option<&String>)
        ensures
            match r {
                Some(v) => self@.contains_key(key@) && v@ == self@[key@],
                None => !self@.contains_key(key@),
            },
    {
        match self.find(key) {
            Some(j) => {
                proof {
                    lemma_entries_map_first(entry_views(self.entries@), key@, j as int);
                }
                Some(&self.entries[j].1)
            },
            None => {
                proof {
                    lemma_entries_map_absent(entry_views(self.entries@), key@);
                }
                None
            },
        }
    }

    /// Whether `key` has a value.
    pub fn contains_key(&self, key: &str) -> (r: bool)
        ensures
            r == self@.contains_key(key@),
    {
        self.get(key).is_some()
    }

    /// Stores `value` for `key`, replacing any earlier value.
    pub fn insert(&mut self, key: &str, value: &str)
        ensures
            final(self)@ == old(self)@.insert(key@, value@),
            old(self).wf() ==> final(self).wf(),
    {
        let k = String::from_str(key);
        let v = String::from_str(value);
        let ghost before = entry_views(self.entries@);
        match self.find(key) {
            Some(j) => {
                self.entries.set(j, (k, v));
                proof {
                    let after = entry_views(self.entries@);
                    assert(after =~= before.update(j as int, (key@, value@)));
                    lemma_entries_map_update(before, key@, value@, j as int);
                    assert(entry_keys(after) =~= entry_keys(before));
                }
            },
            None => {
                self.entries.push((k, v));
                proof {
                    let after = entry_views(self.entries@);
                    assert(after =~= before.push((key@, value@)));
                    lemma_entries_map_push(before, key@, value@);
                    assert(entry_keys(after) =~= entry_keys(before).push(key@));
                    assert forall|q: int| 0 <= q < entry_keys(before).len() implies entry_keys(before)[q] != key@ by {
                        assert(self.entries@[q].0@ == entry_keys(before)[q]);
                    }
                }
            },
        }
    }

    /// Number of keys.
    pub fn len(&self) -> (r: usize)
        ensures
            r == self.entry_list().len(),
            self.wf() ==> r == self@.len(),
    {
        proof {
            if self.wf() {
                lemma_entries_map_len(entry_views(self.entries@));
            }
        }
        self.entries.len()
    }

    /// Whether the map has no entries.
    pub fn is_empty(&self) -> (r: bool)
        ensures
            r == (self.entry_list().len() == 0),
            r == (self@ == Map::<Seq<char>, Seq<char>>::empty()),
    {
        proof {
            if self.entries@.len() > 0 {
                let s = entry_views(self.entries@);
                assert(entries_map(s).contains_key(s[0].0));
            } else {
                assert(entry_views(self.entries@) =~= Seq::<(Seq<char>, Seq<char>)>::empty());
            }
        }
        self.entries.len() == 0
    }

    /// A copy of the map, entries in the same order.
    pub fn duplicate(&self) -> (r: Self)
        ensures
            r.entry_list() == self.entry_list(),
            r@ == self@,
            self.wf() ==> r.wf(),
    {
        let mut out: Vec<(String, String)> = Vec::new();
        let mut i: usize = 0;
        while i < self.entries.len()
            invariant
                i <= self.entries@.len(),
                entry_views(out@) == entry_views(self.entries@).take(i as int),
            decreases self.entries.len() - i,
        {
            let k = self.entries[i].0.clone();
            let v = self.entries[i].1.clone();
            let ghost before = out@;
            out.push((k, v));
            proof {
                assert(entry_views(out@) =~= entry_views(before).push((self.entries@[i as int].0@, self.entries@[i as int].1@)));
                assert(entry_views(self.entries@).take(i + 1) =~= entry_views(self.entries@).take(i as int).push(entry_views(self.entries@)[i as int]));
            }
            i = i + 1;
        }
        proof {
            assert(entry_views(self.entries@).take(self.entries@.len() as int) =~= entry_views(self.entries@));
        }
        StringMap { entries: out }
    }

    /// The entries in insertion order.
    pub fn entries(&self) -> (r: &[(String, String)])
        ensures
            entry_views(r@) == self.entry_list(),
    {
        self.entries.as_slice()
    }
}

/// Where no entry has key `k`, the map has none.
proof fn lemma_entries_map_absent(s: Seq<(Seq<char>, Seq<char>)>, k: Seq<char>)
    requires
        forall|q: int| 0 <= q < s.len() ==> s[q].0 != k,
    ensures
        !entries_map(s).contains_key(k),
    decreases s.len(),
{
    if s.len() > 0 {
        lemma_entries_map_absent(s.drop_first(), k);
    }
}

/// The first entry with key `k` gives its value.
proof fn lemma_entries_map_first(s: Seq<(Seq<char>, Seq<char>)>, k: Seq<char>, j: int)
    requires
        0 <= j < s.len(),
        s[j].0 == k,
        forall|q: int| 0 <= q < j ==> s[q].0 != k,
    ensures
        entries_map(s).contains_key(k),
        entries_map(s)[k] == s[j].1,
    decreases j,
{
    if j > 0 {
        lemma_entries_map_first(s.drop_first(), k, j - 1);
    }
}

/// Replacing the value of the first entry for `k` updates the map at `k`.
proof fn lemma_entries_map_update(s: Seq<(Seq<char>, Seq<char>)>, k: Seq<char>, v: Seq<char>, j: int)
    requires
        0 <= j < s.len(),
        s[j].0 == k,
        forall|q: int| 0 <= q < j ==> s[q].0 != k,
    ensures
        entries_map(s.update(j, (k, v))) == entries_map(s).insert(k, v),
    decreases j,
{
    if j == 0 {
        assert(s.update(0, (k, v)).drop_first() =~= s.drop_first());
        assert(entries_map(s.update(j, (k, v))) =~= entries_map(s).insert(k, v));
    } else {
        lemma_entries_map_update(s.drop_first(), k, v, j - 1);
        assert(s.update(j, (k, v)).drop_first() =~= s.drop_first().update(j - 1, (k, v)));
        assert(entries_map(s.update(j, (k, v))) =~= entries_map(s).insert(k, v));
    }
}

/// Appending an entry for a new key inserts it.
proof fn lemma_entries_map_push(s: Seq<(Seq<char>, Seq<char>)>, k: Seq<char>, v: Seq<char>)
    requires
        forall|q: int| 0 <= q < s.len() ==> s[q].0 != k,
    ensures
        entries_map(s.push((k, v))) == entries_map(s).insert(k, v),
    decreases s.len(),
{
    if s.len() == 0 {
        assert(s.push((k, v)).drop_first() =~= s);
        assert(entries_map(s.push((k, v))) =~= entries_map(s).insert(k, v));
    } else {
        lemma_entries_map_push(s.drop_first(), k, v);
        assert(s.push((k, v)).drop_first() =~= s.drop_first().push((k, v)));
        assert(entries_map(s.push((k, v))) =~= entries_map(s).insert(k, v));
    }
}

/// With distinct keys the map has one key per entry.
proof fn lemma_entries_map_len(s: Seq<(Seq<char>, Seq<char>)>)
    requires
        entry_keys(s).no_duplicates(),
    ensures
        entries_map(s).dom().finite(),
        entries_map(s).len() == s.len(),
    decreases s.len(),
{
    if s.len() > 0 {
        let t = s.drop_first();
        assert(entry_keys(t) =~= entry_keys(s).drop_first());
        lemma_entries_map_len(t);
        assert forall|q: int| 0 <= q < t.len() implies t[q].0 != s[0].0 by {
            assert(entry_keys(s)[q + 1] == t[q].0);
            assert(entry_keys(s)[0] == s[0].0);
        }
        lemma_entries_map_absent(t, s[0].0);
    }
}

/// Storing a value and reading it back gives that value; other keys keep
/// theirs.
pub proof fn lemma_insert_then_get(m: Map<Seq<char>, Seq<char>>, k: Seq<char>, v: Seq<char>, k2: Seq<char>)
    ensures
        m.insert(k, v).contains_key(k),
        m.insert(k, v)[k] == v,
        k2 != k ==> (m.insert(k, v).contains_key(k2) == m.contains_key(k2)),
        k2 != k && m.contains_key(k2) ==> m.insert(k, v)[k2] == m[k2],
{
}

// ---------------------------------------------------------------------------
// Variable types and definitions
// ---------------------------------------------------------------------------

/// Type hint for a recipe variable. Values are always stored as strings.
#[derive(Debug, Clone, PartialEq, Eq)]
pub enum VarType {
    String,
    Number,
    Bool,
    Path,
    Choice(Vec<String>),
}

impl Default for VarType {
    fn default() -> (r: Self)
        ensures
            r == VarType::String,
    {
        VarType::String
    }
}

impl VarType {
    /// Human-readable name of the type.
    pub fn as_str(&self) -> (r: &'static str)
        ensures
            r@ == match *self {
                VarType::String => "string"@,
                VarType::Number => "number"@,
                VarType::Bool => "boolean"@,
                VarType::Path => "path"@,
                VarType::Choice(_) => "choice"@,
            },
    {
        match self {
            VarType::String => "string",
            VarType::Number => "number",
            VarType::Bool => "boolean",
            VarType::Path => "path",
            VarType::Choice(_) => "choice",
        }
    }
}

/// Metadata describing a single variable that a recipe accepts.
#[derive(Debug, Clone)]
pub struct VarDefinition {
    /// Variable name (used in `{{ name }}` interpolation).
    pub name: String,
    /// Expected type hint.
    pub var_type: VarType,
    /// Default value when none is provided.
    pub default: Option<String>,
    /// What this variable controls.
    pub description: String,
    /// Whether the variable must be provided.
    pub required: bool,
}

// ---------------------------------------------------------------------------
// Pre-defined variables
// ---------------------------------------------------------------------------

/// Facts about the running host that the pre-defined variables expose.
#[derive(Debug, Clone)]
pub struct HostInfo {
    /// Operating system name.
    pub os: String,
    /// CPU architecture.
    pub arch: String,
    /// Process id.
    pub pid: u32,
    /// Current user name.
    pub user: String,
}

/// A map holding exactly the pre-defined variables `os`, `arch`,
/// `timestamp`, `pid` and `user` for `host`; the timestamp ends in `Z`.
pub open spec fn is_predefined(m: Map<Seq<char>, Seq<char>>, host: HostInfo) -> bool {
    &&& m.dom() == set!["os"@, "arch"@, "timestamp"@, "pid"@, "user"@]
    &&& m["os"@] == host.os@
    &&& m["arch"@] == host.arch@
    &&& m["pid"@] == decimal(host.pid as nat)
    &&& m["user"@] == host.user@
    &&& m["timestamp"@].len() > 0
    &&& m["timestamp"@].last() == 'Z'
}

/// The pre-defined variables available to every recipe: the host's facts
/// and the current UTC timestamp (ISO 8601 with milliseconds).
pub fn predefined_vars(host: &HostInfo) -> (r: StringMap)
    ensures
        is_predefined(r@, *host),
        r.wf(),
{
    let mut m = StringMap::new();
    m.insert("os", host.os.as_str());
    m.insert("arch", host.arch.as_str());
    let ts = utc_timestamp_millis();
    m.insert("timestamp", ts.as_str());
    let mut pid = String::new();
    push_decimal(&mut pid, host.pid as u64);
    m.insert("pid", pid.as_str());
    m.insert("user", host.user.as_str());
    proof {
        reveal_strlit("os");
        reveal_strlit("arch");
        reveal_strlit("timestamp");
        reveal_strlit("pid");
        reveal_strlit("user");
        assert(pid@ =~= decimal(host.pid as nat));
        assert("os"@.len() == 2 && "arch"@.len() == 4 && "timestamp"@.len() == 9);
        assert("pid"@.len() == 3 && "user"@.len() == 4);
        assert("arch"@[0] != "user"@[0]);
        assert("os"@ != "arch"@ && "os"@ != "timestamp"@ && "os"@ != "pid"@ && "os"@ != "user"@);
        assert("arch"@ != "timestamp"@ && "arch"@ != "pid"@ && "arch"@ != "user"@);
        assert("timestamp"@ != "pid"@ && "timestamp"@ != "user"@ && "pid"@ != "user"@);
        assert(m@.dom() =~= set!["os"@, "arch"@, "timestamp"@, "pid"@, "user"@]);
        assert(m@["os"@] == host.os@);
        assert(m@["arch"@] == host.arch@);
        assert(m@["timestamp"@] == ts@);
        assert(m@["pid"@] == pid@);
        assert(m@["user"@] == host.user@);
    }
    m
}

// ---------------------------------------------------------------------------
// Vars
// ---------------------------------------------------------------------------

/// Applies the definitions' defaults, in order, to names that have no value.
pub open spec fn with_defaults(m: Map<Seq<char>, Seq<char>>, defs: Seq<VarDefinition>) -> Map<Seq<char>, Seq<char>>
    decreases defs.len(),
{
    if defs.len() == 0 {
        m
    } else {
        let m2 = with_defaults(m, defs.drop_last());
        let d = defs.last();
        match d.default {
            Some(x) => if m2.contains_key(d.name@) { m2 } else { m2.insert(d.name@, x@) },
            None => m2,
        }
    }
}

/// Applies overrides in order; a later one for the same name wins.
pub open spec fn with_overrides(m: Map<Seq<char>, Seq<char>>, ov: Seq<(Seq<char>, Seq<char>)>) -> Map<Seq<char>, Seq<char>>
    decreases ov.len(),
{
    if ov.len() == 0 {
        m
    } else {
        with_overrides(m, ov.drop_last()).insert(ov.last().0, ov.last().1)
    }
}

/// Runtime variable store for a single recipe execution: the accepted
/// variables' definitions and the concrete values.
#[derive(Debug, Clone)]
pub struct Vars {
    /// Variable metadata (schema).
    pub definitions: Vec<VarDefinition>,
    values: StringMap,
}

impl View for Vars {
    type V = Map<Seq<char>, Seq<char>>;

    closed spec fn view(&self) -> Map<Seq<char>, Seq<char>> {
        self.values@
    }
}

impl Vars {
    /// Each variable name is stored once.
    pub closed spec fn wf(self) -> bool {
        self.values.wf()
    }

    /// The variable definitions.
    pub closed spec fn defs(self) -> Seq<VarDefinition> {
        self.definitions@
    }

    /// A store with no definitions and only the pre-defined variables.
    pub fn empty(host: &HostInfo) -> (r: Self)
        ensures
            r.defs().len() == 0,
            is_predefined(r@, *host),
            r.wf(),
    {
        Vars { definitions: Vec::new(), values: predefined_vars(host) }
    }

    /// A store over `predefined` values with the definitions' defaults
    /// applied to names without a value, then the overrides.
    pub fn from_parts(definitions: Vec<VarDefinition>, overrides: Vec<(String, String)>, predefined: StringMap) -> (r: Self)
        ensures
            r.defs() == definitions@,
            r@ == with_overrides(with_defaults(predefined@, definitions@), entry_views(overrides@)),
            predefined.wf() ==> r.wf(),
    {
        let mut values = predefined;
        let mut i: usize = 0;
        proof {
            assert(definitions@.take(0) =~= Seq::<VarDefinition>::empty());
        }
        while i < definitions.len()
            invariant
                i <= definitions@.len(),
                values@ == with_defaults(predefined@, definitions@.take(i as int)),
                predefined.wf() ==> values.wf(),
            decreases definitions.len() - i,
        {
            let def = &definitions[i];
            proof {
                assert(definitions@.take(i + 1).drop_last() =~= definitions@.take(i as int));
                assert(definitions@.take(i + 1).last() == definitions@[i as int]);
            }
            match &def.default {
                Some(x) => {
                    if !values.contains_key(def.name.as_str()) {
                        values.insert(def.name.as_str(), x.as_str());
                    }
                },
                None => {},
            }
            i = i + 1;
        }
        proof {
            assert(definitions@.take(definitions@.len() as int) =~= definitions@);
        }
        let ghost base = values@;
        let mut j: usize = 0;
        proof {
            assert(entry_views(overrides@).take(0) =~= Seq::<(Seq<char>, Seq<char>)>::empty());
        }
        while j < overrides.len()
            invariant
                j <= overrides@.len(),
                values@ == with_overrides(base, entry_views(overrides@).take(j as int)),
                predefined.wf() ==> values.wf(),
            decreases overrides.len() - j,
        {
            let (k, v) = &overrides[j];
            values.insert(k.as_str(), v.as_str());
            proof {
                let t = entry_views(overrides@).take(j + 1);
                assert(t.drop_last() =~= entry_views(overrides@).take(j as int));
                assert(t.last() == (overrides@[j as int].0@, overrides@[j as int].1@));
            }
            j = j + 1;
        }
        proof {
            assert(entry_views(overrides@).take(overrides@.len() as int) =~= entry_views(overrides@));
        }
        Vars { definitions, values }
    }

    /// A store with the given definitions: the pre-defined variables, then
    /// each definition's default for a name without a value, then the
    /// overrides.
    pub fn new(definitions: Vec<VarDefinition>, overrides: Vec<(String, String)>, host: &HostInfo) -> (r: Self)
        ensures
            r.defs() == definitions@,
            exists|base: Map<Seq<char>, Seq<char>>| #[trigger] is_predefined(base, *host)
                && r@ == with_overrides(with_defaults(base, definitions@), entry_views(overrides@)),
            r.wf(),
    {
        let pre = predefined_vars(host);
        let ghost base = pre@;
        let r = Vars::from_parts(definitions, overrides, pre);
        proof {
            assert(is_predefined(base, *host));
        }
        r
    }

    /// The value of variable `name`.
    pub fn get(&self, name: &str) -> (r: Option<&str>)
        ensures
            match r {
                Some(v) => self@.contains_key(name@) && v@ == self@[name@],
                None => !self@.contains_key(name@),
            },
    {
        match self.values.get(name) {
            Some(v) => Some(v.as_str()),
            None => None,
        }
    }

    /// The stored values of a well-formed store have finitely many names.
    pub proof fn lemma_finite(self)
        requires
            self.wf(),
        ensures
            self@.dom().finite(),
    {
        self.values.lemma_finite();
    }

    /// Sets variable `name` to `value`; the number of stored values grows
    /// by one exactly when `name` had none.
    pub fn set(&mut self, name: &str, value: &str)
        ensures
            final(self)@ == old(self)@.insert(name@, value@),
            final(self).defs() == old(self).defs(),
            old(self).wf() ==> final(self).wf(),
            old(self).wf() ==> final(self)@.len() == old(self)@.len() + (if old(self)@.contains_key(name@) {
                0int
            } else {
                1int
            }),
    {
        proof {
            if self.wf() {
                self.lemma_finite();
            }
        }
        self.values.insert(name, value);
    }

    /// Whether variable `name` is defined: it has a value (pre-defined,
    /// defaulted or set) or it is among the definitions.
    pub fn contains_key(&self, name: &str) -> (r: bool)
        ensures
            r == (self@.contains_key(name@) || exists|i: int| 0 <= i < self.defs().len() && #[trigger] self.defs()[i].name@ == name@),
    {
        if self.values.contains_key(name) {
            return true;
        }
        let key = String::from_str(name);
        let mut i: usize = 0;
        while i < self.definitions.len()
            invariant
                i <= self.definitions@.len(),
                key@ == name@,
                forall|j: int| 0 <= j < i ==> self.definitions@[j].name@ != name@,
            decreases self.definitions.len() - i,
        {
            if self.definitions[i].name == key {
                proof {
                    assert(self.defs()[i as int].name@ == name@);
                }
                return true;
            }
            i = i + 1;
        }
        false
    }

    /// Number of stored values.
    pub fn len(&self) -> (r: usize)
        ensures
            self.wf() ==> r == self@.len(),
    {
        self.values.len()
    }

    /// Whether no value is stored (definitions are not counted).
    pub fn is_empty(&self) -> (r: bool)
        ensures
            r == (self@ == Map::<Seq<char>, Seq<char>>::empty()),
    {
        self.values.is_empty()
    }
}

// ---------------------------------------------------------------------------
// Settings
// ---------------------------------------------------------------------------

/// Settings that control how a recipe is executed.
#[derive(Debug, Clone)]
pub struct Settings {
    /// Shell for commands; `None` means the system default.
    pub shell: Option<String>,
    /// Working directory; `None` means the process working directory.
    pub work_dir: Option<String>,
    /// Environment variables to set.
    pub env: StringMap,
    /// Maximum concurrent task executions; `None` means no limit.
    pub max_concurrency: Option<usize>,
}

impl Default for Settings {
    fn default() -> (r: Self)
        ensures
            r.shell is None,
            r.work_dir is None,
            r.env@ == Map::<Seq<char>, Seq<char>>::empty(),
            r.env.wf(),
            r.max_concurrency is None,
    {
        Settings { shell: None, work_dir: None, env: StringMap::new(), max_concurrency: None }
    }
}

impl Settings {
    /// Settings with default values.
    pub fn new() -> (r: Self)
        ensures
            r.shell is None,
            r.work_dir is None,
            r.env@ == Map::<Seq<char>, Seq<char>>::empty(),
            r.env.wf(),
            r.max_concurrency is None,
    {
        Settings::default()
    }

    /// Sets the shell.
    pub fn with_shell(self, shell: &str) -> (r: Self)
        ensures
            r.shell matches Some(s) && s@ == shell@,
            r.work_dir == self.work_dir,
            r.env == self.env,
            r.max_concurrency == self.max_concurrency,
    {
        let mut s = self;
        s.shell = Some(String::from_str(shell));
        s
    }

    /// Sets the working directory.
    pub fn with_work_dir(self, dir: &str) -> (r: Self)
        ensures
            r.work_dir matches Some(d) && d@ == dir@,
            r.shell == self.shell,
            r.env == self.env,
            r.max_concurrency == self.max_concurrency,
    {
        let mut s = self;
        s.work_dir = Some(String::from_str(dir));
        s
    }

    /// Adds an environment variable, replacing any earlier value.
    pub fn with_env(self, key: &str, value: &str) -> (r: Self)
        ensures
            r.env@ == self.env@.insert(key@, value@),
            self.env.wf() ==> r.env.wf(),
            r.shell == self.shell,
            r.work_dir == self.work_dir,
            r.max_concurrency == self.max_concurrency,
    {
        let mut s = self;
        s.env.insert(key, value);
        s
    }

    /// Sets the maximum concurrency.
    pub fn with_max_concurrency(self, n: usize) -> (r: Self)
        ensures
            r.max_concurrency == Some(n),
            r.shell == self.shell,
            r.work_dir == self.work_dir,
            r.env == self.env,
    {
        let mut s = self;
        s.max_concurrency = Some(n);
        s
    }
}

// ---------------------------------------------------------------------------
// Interpolation
// ---------------------------------------------------------------------------

/// Unicode `White_Space`, the characters that `str::trim` removes.
pub open spec fn is_white_space(c: char) -> bool {
    let u = c as u32;
    ||| 0x9 <= u <= 0xD
    ||| u == 0x20
    ||| u == 0x85
    ||| u == 0xA0
    ||| u == 0x1680
    ||| 0x2000 <= u <= 0x200A
    ||| u == 0x2028
    ||| u == 0x2029
    ||| u == 0x202F
    ||| u == 0x205F
    ||| u == 0x3000
}

/// Whether `c` is Unicode white space.
pub fn is_white_space_char(c: char) -> (r: bool)
    ensures
        r == is_white_space(c),
{
    let u = c as u32;
    (0x9 <= u && u <= 0xD) || u == 0x20 || u == 0x85 || u == 0xA0 || u == 0x1680
        || (0x2000 <= u && u <= 0x200A) || u == 0x2028 || u == 0x2029 || u == 0x202F
        || u == 0x205F || u == 0x3000
}

/// The first position at or after `k` that is not white space.
pub open spec fn trim_start_idx(s: Seq<char>, k: int) -> int
    decreases s.len() - k,
{
    if 0 <= k < s.len() && is_white_space(s[k]) {
        trim_start_idx(s, k + 1)
    } else {
        k
    }
}

/// The end of `s[lo..e]` once trailing white space is dropped.
pub open spec fn trim_end_idx(s: Seq<char>, lo: int, e: int) -> int
    decreases e,
{
    if e > lo && e > 0 && is_white_space(s[e - 1]) {
        trim_end_idx(s, lo, e - 1)
    } else {
        e
    }
}

/// `s` without leading and trailing white space.
pub open spec fn trim_seq(s: Seq<char>) -> Seq<char> {
    let a = trim_start_idx(s, 0);
    s.subrange(a, trim_end_idx(s, a, s.len() as int))
}

/// The first position at or after `k` where `c` occurs twice in a row,
/// or `-1`.
pub open spec fn find_pair_from(t: Seq<char>, c: char, k: int) -> int
    decreases t.len() - k,
{
    if k < 0 || k + 1 >= t.len() {
        -1
    } else if t[k] == c && t[k + 1] == c {
        k
    } else {
        find_pair_from(t, c, k + 1)
    }
}

/// The placeholder `t[i..j + 2]` (between `{{` at `i` and `}}` at `j`)
/// rendered: `{{ }}` for an empty name, the variable's value, the
/// `{{ undefined: name }}` marker when `fail` is set, or the placeholder
/// itself.
pub open spec fn placeholder(t: Seq<char>, i: int, j: int, m: Map<Seq<char>, Seq<char>>, fail: bool) -> Seq<char> {
    let name = trim_seq(t.subrange(i + 2, j));
    if name.len() == 0 {
        "{{ }}"@
    } else if m.contains_key(name) {
        m[name]
    } else if fail {
        "{{ undefined: "@ + name + " }}"@
    } else {
        t.subrange(i, j + 2)
    }
}

/// The rendering of `t[pos..]`: text is copied, each `{{ name }}` is
/// replaced, and an unclosed `{{` leaves the rest as it is.
pub open spec fn interp_from(t: Seq<char>, pos: int, m: Map<Seq<char>, Seq<char>>, fail: bool) -> Seq<char>
    decreases t.len() - pos,
{
    if pos < 0 || pos >= t.len() {
        seq![]
    } else {
        let i = find_pair_from(t, '{', pos);
        if i < 0 {
            t.subrange(pos, t.len() as int)
        } else {
            let j = find_pair_from(t, '}', i + 2);
            if j < 0 {
                t.subrange(pos, t.len() as int)
            } else {
                proof {
                    lemma_find_pair_bounds(t, '{', pos);
                    lemma_find_pair_bounds(t, '}', i + 2);
                }
                t.subrange(pos, i) + placeholder(t, i, j, m, fail) + interp_from(t, j + 2, m, fail)
            }
        }
    }
}

/// The name of the first placeholder in `t[pos..]` with a non-empty name
/// that `m` lacks.
pub open spec fn undefined_from(t: Seq<char>, pos: int, m: Map<Seq<char>, Seq<char>>) -> Option<Seq<char>>
    decreases t.len() - pos,
{
    if pos < 0 || pos >= t.len() {
        None
    } else {
        let i = find_pair_from(t, '{', pos);
        if i < 0 {
            None
        } else {
            let j = find_pair_from(t, '}', i + 2);
            if j < 0 {
                None
            } else {
                proof {
                    lemma_find_pair_bounds(t, '{', pos);
                    lemma_find_pair_bounds(t, '}', i + 2);
                }
                let name = trim_seq(t.subrange(i + 2, j));
                if name.len() > 0 && !m.contains_key(name) {
                    Some(name)
                } else {
                    undefined_from(t, j + 2, m)
                }
            }
        }
    }
}

/// A found pair lies at or after `k`, within `t`.
pub proof fn lemma_find_pair_bounds(t: Seq<char>, c: char, k: int)
    ensures
        find_pair_from(t, c, k) == -1 || (0 <= k <= find_pair_from(t, c, k) && find_pair_from(t, c, k) + 1 < t.len()
            && t[find_pair_from(t, c, k)] == c && t[find_pair_from(t, c, k) + 1] == c),
    decreases t.len() - k,
{
    if !(k < 0 || k + 1 >= t.len()) && !(t[k] == c && t[k + 1] == c) {
        lemma_find_pair_bounds(t, c, k + 1);
    }
}

/// The first position at or after `from` where `c` occurs twice in a row.
fn find_pair(cs: &Vec<char>, c: char, from: usize) -> (r: Option<usize>)
    ensures
        match r {
            Some(k) => k == find_pair_from(cs@, c, from as int),
            None => find_pair_from(cs@, c, from as int) == -1,
        },
{
    let mut k = from;
    while k < cs.len() && k + 1 < cs.len()
        invariant
            from <= k,
            find_pair_from(cs@, c, from as int) == find_pair_from(cs@, c, k as int),
        decreases cs.len() - k,
    {
        if cs[k] == c && cs[k + 1] == c {
            return Some(k);
        }
        k = k + 1;
    }
    None
}

/// The bounds of `cs[lo..hi]` once leading and trailing white space is
/// dropped.
pub(crate) fn trim_range(cs: &Vec<char>, lo: usize, hi: usize) -> (r: (usize, usize))
    requires
        lo <= hi <= cs@.len(),
    ensures
        lo <= r.0 <= r.1 <= hi,
        cs@.subrange(r.0 as int, r.1 as int) == trim_seq(cs@.subrange(lo as int, hi as int)),
{
    let ghost s = cs@.subrange(lo as int, hi as int);
    let mut a = lo;
    while a < hi && is_white_space_char(cs[a])
        invariant
            lo <= a <= hi <= cs@.len(),
            s == cs@.subrange(lo as int, hi as int),
            trim_start_idx(s, (a - lo) as int) == trim_start_idx(s, 0),
        decreases hi - a,
    {
        proof {
            assert(s[(a - lo) as int] == cs@[a as int]);
        }
        a = a + 1;
    }
    proof {
        if a < hi {
            assert(s[(a - lo) as int] == cs@[a as int]);
        }
        assert(trim_start_idx(s, (a - lo) as int) == (a - lo) as int);
    }
    let mut b = hi;
    while b > a && is_white_space_char(cs[b - 1])
        invariant
            lo <= a <= b <= hi <= cs@.len(),
            s == cs@.subrange(lo as int, hi as int),
            trim_start_idx(s, 0) == (a - lo) as int,
            trim_end_idx(s, (a - lo) as int, (b - lo) as int) == trim_end_idx(s, (a - lo) as int, s.len() as int),
        decreases b - a,
    {
        proof {
            assert(s[(b - 1 - lo) as int] == cs@[b - 1]);
        }
        b = b - 1;
    }
    proof {
        if b > a {
            assert(s[(b - 1 - lo) as int] == cs@[b - 1]);
        }
        assert(trim_end_idx(s, (a - lo) as int, (b - lo) as int) == (b - lo) as int);
        assert(cs@.subrange(a as int, b as int) =~= s.subrange((a - lo) as int, (b - lo) as int));
    }
    (a, b)
}

/// The characters `cs[a..b]` as a string.
pub(crate) fn string_from_range(cs: &Vec<char>, a: usize, b: usize) -> (r: String)
    requires
        a <= b <= cs@.len(),
    ensures
        r@ == cs@.subrange(a as int, b as int),
{
    let mut r = String::new();
    push_range(&mut r, cs.as_slice(), a, b);
    proof {
        assert(r@ =~= cs@.subrange(a as int, b as int));
    }
    r
}

/// Errors of strict interpolation.
#[derive(Debug, Clone, PartialEq, Eq)]
pub enum InterpolationError {
    /// A placeholder names a variable without a value.
    UndefinedVariable { name: String },
}

impl InterpolationError {
    /// The human-readable message (what `Display` renders).
    pub fn to_string(&self) -> (r: String)
        ensures
            match *self {
                InterpolationError::UndefinedVariable { name } =>
                    r@ == "Undefined variable `"@ + name@ + "` referenced in template"@,
            },
    {
        match self {
            InterpolationError::UndefinedVariable { name } => {
                let mut r = String::from_str("Undefined variable `");
                push_str(&mut r, name.as_str());
                push_str(&mut r, "` referenced in template");
                r
            },
        }
    }
}

/// Replaces each `{{ name }}` placeholder of `template` (the name trimmed
/// of white space) by the variable's value. An empty name renders as
/// `{{ }}`; a name without a value renders as `{{ undefined: name }}` when
/// `fail_on_undefined` is set and is left unchanged otherwise; text after an
/// unclosed `{{` is kept as it is.
pub fn interpolate(template: &str, vars: &Vars, fail_on_undefined: bool) -> (r: String)
    ensures
        r@ == interp_from(template@, 0, vars@, fail_on_undefined),
{
    let cs = chars_of(template);
    let n = cs.len();
    let ghost t = cs@;
    let ghost m = vars@;
    let mut result = String::new();
    let mut pos: usize = 0;
    proof {
        assert(result@ + interp_from(t, 0, m, fail_on_undefined) =~= interp_from(t, 0, m, fail_on_undefined));
    }
    while pos < n
        invariant
            t == cs@,
            t == template@,
            m == vars@,
            n == t.len(),
            pos <= n,
            result@ + interp_from(t, pos as int, m, fail_on_undefined) == interp_from(t, 0, m, fail_on_undefined),
        decreases n - pos,
    {
        let ghost before = result@;
        let ghost rest = interp_from(t, pos as int, m, fail_on_undefined);
        match find_pair(&cs, '{', pos) {
            None => {
                push_range(&mut result, cs.as_slice(), pos, n);
                proof {
                    assert(rest == t.subrange(pos as int, n as int));
                    assert(result@ + interp_from(t, n as int, m, fail_on_undefined) =~= before + rest);
                }
                pos = n;
            },
            Some(i) => {
                proof {
                    lemma_find_pair_bounds(t, '{', pos as int);
                }
                match find_pair(&cs, '}', i + 2) {
                    None => {
                        push_range(&mut result, cs.as_slice(), pos, n);
                        proof {
                            assert(rest == t.subrange(pos as int, n as int));
                            assert(result@ + interp_from(t, n as int, m, fail_on_undefined) =~= before + rest);
                        }
                        pos = n;
                    },
                    Some(j) => {
                        proof {
                            lemma_find_pair_bounds(t, '}', i + 2);
                        }
                        push_range(&mut result, cs.as_slice(), pos, i);
                        let ghost mid = result@;
                        let (a, b) = trim_range(&cs, i + 2, j);
                        if a == b {
                            push_str(&mut result, "{{ }}");
                        } else {
                            let name = string_from_range(&cs, a, b);
                            match vars.get(name.as_str()) {
                                Some(value) => {
                                    push_str(&mut result, value);
                                },
                                None => {
                                    if fail_on_undefined {
                                        push_str(&mut result, "{{ undefined: ");
                                        push_str(&mut result, name.as_str());
                                        push_str(&mut result, " }}");
                                    } else {
                                        push_range(&mut result, cs.as_slice(), i, j + 2);
                                    }
                                },
                            }
                        }
                        proof {
                            let piece = placeholder(t, i as int, j as int, m, fail_on_undefined);
                            assert(result@ =~= mid + piece);
                            assert(rest == t.subrange(pos as int, i as int) + piece + interp_from(t, j + 2, m, fail_on_undefined));
                            assert(result@ + interp_from(t, j + 2, m, fail_on_undefined) =~= before + rest);
                        }
                        pos = j + 2;
                    },
                }
            },
        }
    }
    proof {
        assert(result@ =~= result@ + interp_from(t, pos as int, m, fail_on_undefined));
    }
    result
}

/// Like [`interpolate`] with no marker: fails with the first placeholder
/// whose non-empty name has no value, and otherwise returns what
/// `interpolate` returns.
pub fn interpolate_strict(template: &str, vars: &Vars) -> (r: Result<String, InterpolationError>)
    ensures
        match r {
            Ok(s) => undefined_from(template@, 0, vars@) is None && s@ == interp_from(template@, 0, vars@, false),
            Err(InterpolationError::UndefinedVariable { name }) => undefined_from(template@, 0, vars@) == Some(name@),
        },
{
    let cs = chars_of(template);
    let n = cs.len();
    let ghost t = cs@;
    let ghost m = vars@;
    let mut result = String::new();
    let mut pos: usize = 0;
    proof {
        assert(result@ + interp_from(t, 0, m, false) =~= interp_from(t, 0, m, false));
    }
    while pos < n
        invariant
            t == cs@,
            t == template@,
            m == vars@,
            n == t.len(),
            pos <= n,
            result@ + interp_from(t, pos as int, m, false) == interp_from(t, 0, m, false),
            undefined_from(t, pos as int, m) == undefined_from(t, 0, m),
        decreases n - pos,
    {
        let ghost before = result@;
        let ghost rest = interp_from(t, pos as int, m, false);
        match find_pair(&cs, '{', pos) {
            None => {
                push_range(&mut result, cs.as_slice(), pos, n);
                proof {
                    assert(result@ + interp_from(t, n as int, m, false) =~= before + rest);
                }
                pos = n;
            },
            Some(i) => {
                proof {
                    lemma_find_pair_bounds(t, '{', pos as int);
                }
                match find_pair(&cs, '}', i + 2) {
                    None => {
                        push_range(&mut result, cs.as_slice(), pos, n);
                        proof {
                            assert(result@ + interp_from(t, n as int, m, false) =~= before + rest);
                        }
                        pos = n;
                    },
                    Some(j) => {
                        proof {
                            lemma_find_pair_bounds(t, '}', i + 2);
                        }
                        push_range(&mut result, cs.as_slice(), pos, i);
                        let ghost mid = result@;
                        let (a, b) = trim_range(&cs, i + 2, j);
                        if a == b {
                            push_str(&mut result, "{{ }}");
                        } else {
                            let name = string_from_range(&cs, a, b);
                            match vars.get(name.as_str()) {
                                Some(value) => {
                                    push_str(&mut result, value);
                                },
                                None => {
                                    return Err(InterpolationError::UndefinedVariable { name });
                                },
                            }
                        }
                        proof {
                            let piece = placeholder(t, i as int, j as int, m, false);
                            assert(result@ =~= mid + piece);
                            assert(result@ + interp_from(t, j + 2, m, false) =~= before + rest);
                        }
                        pos = j + 2;
                    },
                }
            },
        }
    }
    proof {
        assert(result@ =~= result@ + interp_from(t, pos as int, m, false));
    }
    Ok(result)
}

/// Where every placeholder's name has a value, the undefined marker never
/// appears: interpolation gives the same text with or without it.
pub proof fn lemma_defined_ignores_marker(t: Seq<char>, pos: int, m: Map<Seq<char>, Seq<char>>)
    requires
        undefined_from(t, pos, m) is None,
    ensures
        interp_from(t, pos, m, true) == interp_from(t, pos, m, false),
    decreases t.len() - pos,
{
    if !(pos < 0 || pos >= t.len()) {
        let i = find_pair_from(t, '{', pos);
        if i >= 0 {
            let j = find_pair_from(t, '}', i + 2);
            if j >= 0 {
                lemma_find_pair_bounds(t, '{', pos);
                lemma_find_pair_bounds(t, '}', i + 2);
                lemma_defined_ignores_marker(t, j + 2, m);
            }
        }
    }
}

} // verus!
