//! The plugin registry: resident containers, keyed by plugin name, with the
//! load, unload and reload operations and the strict teardown order.
//!
//! Opening a dynamic module, looking up its entry symbol and constructing the
//! instance happen in the unverified runtime around this library; the runtime
//! hands the manager the outcome as a [`LoadedPlugin`] (tokens for the module
//! and instance it now owns, plus the command table the instance registered)
//! or a [`LoadError`]. In return, every operation that retires a container
//! tells the runtime, through [`ReleaseStep`]s, which resources to release
//! and in which order.

use vstd::prelude::*;

use crate::plugin_api::PluginMeta;
use crate::strutil;

verus! {

/// Token for a plugin instance owned by the runtime.
pub type InstanceHandle = u64;

/// Token for a loaded dynamic module owned by the runtime.
pub type ModuleHandle = u64;

/// What the runtime hands the manager after a successful dynamic load: the
/// module, the instance the module's entry symbol constructed, and the
/// command table that instance registered.
pub struct LoadedPlugin {
    pub module: ModuleHandle,
    pub instance: InstanceHandle,
    pub meta: PluginMeta,
}

/// Why a plugin could not be loaded. The first three come from the dynamic
/// loading itself; `AlreadyResident` is the manager's own refusal to replace
/// a resident plugin implicitly (the caller must unload first).
#[derive(Debug, PartialEq, Eq, Structural)]
pub enum LoadError {
    ModuleNotFound,
    SymbolNotFound,
    ConstructionFailed,
    AlreadyResident,
}

/// One release the runtime must perform. The command table is identified by
/// the instance that registered it.
#[derive(Debug, PartialEq, Eq, Structural)]
pub enum ReleaseStep {
    Instance(InstanceHandle),
    CommandTable(InstanceHandle),
    Module(ModuleHandle),
}

/// One resident plugin: the dynamic module, the instance constructed from
/// it, and the command table built by the instance's `register`. The
/// instance and the table hold code and data that live in the module, so on
/// teardown both are released strictly before the module.
pub struct PluginContainer {
    pub plugin: InstanceHandle,
    pub meta: PluginMeta,
    pub lib: ModuleHandle,
}

/// The module handle a container guards.
pub open spec fn module_of(c: PluginContainer) -> ModuleHandle {
    c.lib
}

/// The order in which a container's resources are released: the instance
/// first, then the command table, and the module strictly last.
pub open spec fn teardown_steps(c: PluginContainer) -> Seq<ReleaseStep> {
    seq![
        ReleaseStep::Instance(c.plugin),
        ReleaseStep::CommandTable(c.plugin),
        ReleaseStep::Module(module_of(c)),
    ]
}

/// Teardown ordering, stated on its own: a container's release steps are
/// exactly three, the instance before the command table, and the module
/// strictly last.
pub proof fn lemma_teardown_order(c: PluginContainer)
    ensures
        teardown_steps(c).len() == 3,
        teardown_steps(c)[0] == ReleaseStep::Instance(c.plugin),
        teardown_steps(c)[1] == ReleaseStep::CommandTable(c.plugin),
        teardown_steps(c)[2] == ReleaseStep::Module(module_of(c)),
{
}

impl PluginContainer {
    /// Package the parts of a completed dynamic load. A container is only
    /// ever built whole: a failed load yields its error and no container.
    pub fn load(fetched: Result<LoadedPlugin, LoadError>) -> (r: Result<PluginContainer, LoadError>)
        ensures
            match fetched {
                Ok(lp) => r matches Ok(c) && c.plugin == lp.instance && module_of(c) == lp.module
                    && c.meta == lp.meta,
                Err(e) => r matches Err(e2) && e2 == e,
            },
    {
        match fetched {
            Ok(lp) => Ok(PluginContainer { plugin: lp.instance, meta: lp.meta, lib: lp.module }),
            Err(e) => Err(e),
        }
    }

    /// Retire the container: append its release steps to the runtime's log,
    /// in the mandatory order.
    pub fn teardown(self, log: &mut Vec<ReleaseStep>)
        ensures
            final(log)@ == old(log)@ + teardown_steps(self),
    {
        log.push(ReleaseStep::Instance(self.plugin));
        log.push(ReleaseStep::CommandTable(self.plugin));
        log.push(ReleaseStep::Module(self.lib));
        proof {
            assert(final(log)@ =~= old(log)@ + teardown_steps(self));
        }
    }
}

/// The resident-plugin registry: a name-to-container map, mutated only under
/// exclusive access, with at most one resident container per name.
pub struct PluginManager {
    plugins: Vec<(String, PluginContainer)>,
}

/// Index of the first entry named `name`, scanning from `k`.
pub open spec fn idx_of(
    entries: Seq<(String, PluginContainer)>,
    name: Seq<char>,
    k: int,
) -> Option<int>
    decreases entries.len() - k,
{
    if k < 0 || k >= entries.len() {
        None
    } else if entries[k].0@ == name {
        Some(k)
    } else {
        idx_of(entries, name, k + 1)
    }
}

proof fn lemma_idx_of_range(entries: Seq<(String, PluginContainer)>, name: Seq<char>, k: int)
    ensures
        idx_of(entries, name, k) matches Some(p) ==> k <= p < entries.len() && entries[p].0@
            == name && (forall|m: int| k <= m < p ==> entries[m].0@ != name),
        0 <= k && idx_of(entries, name, k) is None ==> forall|m: int|
            k <= m < entries.len() ==> entries[m].0@ != name,
    decreases entries.len() - k,
{
    if 0 <= k < entries.len() && entries[k].0@ != name {
        lemma_idx_of_range(entries, name, k + 1);
    }
}

impl PluginManager {
    /// The registry's entries, in enumeration order.
    pub closed spec fn entries(&self) -> Seq<(String, PluginContainer)> {
        self.plugins@
    }

    /// No two entries share a name.
    pub open spec fn wf(&self) -> bool {
        forall|i: int, j: int|
            0 <= i < j < self.entries().len() ==> #[trigger] self.entries()[i].0@ != #[trigger] self.entries()[j].0@
    }

    /// Whether a plugin of this name is resident.
    pub open spec fn resident(&self, name: Seq<char>) -> bool {
        idx_of(self.entries(), name, 0) is Some
    }

    /// The resident container of this name.
    pub open spec fn container_of(&self, name: Seq<char>) -> PluginContainer
        recommends
            self.resident(name),
    {
        self.entries()[idx_of(self.entries(), name, 0).unwrap()].1
    }

    /// At most one resident container per name: in a well-formed registry,
    /// two entries of the same name are the same entry.
    pub proof fn lemma_at_most_one_resident(&self, name: Seq<char>, i: int, j: int)
        requires
            self.wf(),
            0 <= i < self.entries().len(),
            0 <= j < self.entries().len(),
            self.entries()[i].0@ == name,
            self.entries()[j].0@ == name,
        ensures
            i == j,
    {
    }

    pub fn new() -> (r: PluginManager)
        ensures
            r.wf(),
            r.entries().len() == 0,
            forall|n: Seq<char>| !r.resident(n),
    {
        PluginManager { plugins: Vec::new() }
    }

    /// How many plugins are resident.
    pub fn count(&self) -> (r: usize)
        ensures
            r == self.entries().len(),
    {
        self.plugins.len()
    }

    /// The entry at one enumeration position.
    pub fn entry(&self, i: usize) -> (r: &(String, PluginContainer))
        requires
            i < self.entries().len(),
        ensures
            *r == self.entries()[i as int],
    {
        &self.plugins[i]
    }

    fn find_entry(&self, name: &str) -> (r: Option<usize>)
        ensures
            r matches Some(k) ==> idx_of(self.entries(), name@, 0) == Some(k as int) && k
                < self.entries().len(),
            r is None ==> idx_of(self.entries(), name@, 0) is None,
    {
        let n = self.plugins.len();
        let mut k: usize = 0;
        while k < n
            invariant
                k <= n == self.entries().len(),
                idx_of(self.entries(), name@, 0) == idx_of(self.entries(), name@, k as int),
            decreases n - k,
        {
            if strutil::str_eq(self.plugins[k].0.as_str(), name) {
                return Some(k);
            }
            k = k + 1;
        }
        None
    }

    /// Whether a plugin of this name is resident.
    pub fn is_resident(&self, name: &str) -> (r: bool)
        ensures
            r == self.resident(name@),
    {
        self.find_entry(name).is_some()
    }

    /// Install a freshly loaded plugin under `name`.
    ///
    /// Succeeds exactly when no plugin of that name is resident and the load
    /// itself succeeded; then the new container is resident under `name` and
    /// every other name is untouched. On any failure the registry is exactly
    /// as before — a failed load never leaves a partial entry — and the error
    /// says what happened: `AlreadyResident` when the name was taken (the
    /// resident plugin is never replaced implicitly), otherwise the load's
    /// own error.
    pub fn load_plugin(&mut self, name: &str, fetched: Result<LoadedPlugin, LoadError>) -> (r:
        Result<(), LoadError>)
        requires
            old(self).wf(),
        ensures
            final(self).wf(),
            r is Ok <==> (!old(self).resident(name@) && fetched is Ok),
            r matches Err(e) ==> *final(self) == *old(self) && (if old(self).resident(name@) {
                e is AlreadyResident
            } else {
                fetched matches Err(e0) && e == e0
            }),
            r is Ok ==> {
                &&& final(self).resident(name@)
                &&& fetched matches Ok(lp) && final(self).container_of(name@).plugin
                    == lp.instance && module_of(final(self).container_of(name@)) == lp.module
                    && final(self).container_of(name@).meta == lp.meta
                &&& forall|n: Seq<char>|
                    n != name@ ==> #[trigger] final(self).resident(n) == old(self).resident(n)
                        && (old(self).resident(n) ==> final(self).container_of(n) == old(
                        self,
                    ).container_of(n))
            },
    {
        proof {
            lemma_idx_of_range(self.entries(), name@, 0);
        }
        if self.find_entry(name).is_some() {
            return Err(LoadError::AlreadyResident);
        }
        match PluginContainer::load(fetched) {
            Err(e) => Err(e),
            Ok(c) => {
                let owned = String::from_str(name);
                self.plugins.push((owned, c));
                proof {
                    let olds = old(self).entries();
                    let news = self.entries();
                    assert(news =~= olds.push((owned, c)));
                    assert forall|n: Seq<char>| n != name@ implies #[trigger] idx_of(news, n, 0)
                        == idx_of(olds, n, 0) by {
                        lemma_idx_of_push_other(olds, (owned, c), n);
                    }
                    assert forall|n: Seq<char>|
                        n != name@ && old(self).resident(n) implies #[trigger] self.container_of(n)
                        == old(self).container_of(n) by {
                        lemma_idx_of_push_other(olds, (owned, c), n);
                        lemma_idx_of_range(olds, n, 0);
                    }
                    lemma_idx_of_last(olds, (owned, c), name@);
                }
                Ok(())
            },
        }
    }

    /// Remove and tear down the plugin named `name`.
    ///
    /// Returns whether anything was removed. If it was, the retired
    /// container's release steps are appended to the log — instance, then
    /// command table, then module — and every other name is untouched;
    /// otherwise nothing changes.
    pub fn unload_plugin(&mut self, name: &str, log: &mut Vec<ReleaseStep>) -> (r: bool)
        requires
            old(self).wf(),
        ensures
            final(self).wf(),
            r == old(self).resident(name@),
            !r ==> *final(self) == *old(self) && *final(log) == *old(log),
            r ==> {
                &&& !final(self).resident(name@)
                &&& final(log)@ == old(log)@ + teardown_steps(old(self).container_of(name@))
                &&& forall|n: Seq<char>|
                    n != name@ ==> #[trigger] final(self).resident(n) == old(self).resident(n)
                        && (old(self).resident(n) ==> final(self).container_of(n) == old(
                        self,
                    ).container_of(n))
            },
    {
        proof {
            lemma_idx_of_range(self.entries(), name@, 0);
        }
        match self.find_entry(name) {
            None => false,
            Some(k) => {
                let (_n, c) = self.plugins.remove(k);
                c.teardown(log);
                proof {
                    lemma_remove_entry(old(self).entries(), name@, k as int);
                    assert(self.entries() =~= old(self).entries().remove(k as int));
                }
                true
            },
        }
    }

    /// Replace the plugin named `name` with a fresh load.
    ///
    /// Whatever was resident under the name is torn down first (its release
    /// steps are appended to the log). If the fresh load succeeded, its
    /// container becomes resident under the name; if it failed, the name ends
    /// up not resident at all — after a failed reload the plugin is absent,
    /// not rolled back. Every other name is untouched either way.
    pub fn reload_plugin(
        &mut self,
        name: &str,
        fetched: Result<LoadedPlugin, LoadError>,
        log: &mut Vec<ReleaseStep>,
    ) -> (r: Result<(), LoadError>)
        requires
            old(self).wf(),
        ensures
            final(self).wf(),
            r is Ok <==> fetched is Ok,
            final(log)@ == old(log)@ + (if old(self).resident(name@) {
                teardown_steps(old(self).container_of(name@))
            } else {
                Seq::empty()
            }),
            r matches Err(e) ==> (fetched matches Err(e0) && e == e0) && !final(self).resident(
                name@,
            ),
            r is Ok ==> {
                &&& final(self).resident(name@)
                &&& fetched matches Ok(lp) && final(self).container_of(name@).plugin
                    == lp.instance && module_of(final(self).container_of(name@)) == lp.module
                    && final(self).container_of(name@).meta == lp.meta
            },
            forall|n: Seq<char>|
                n != name@ ==> #[trigger] final(self).resident(n) == old(self).resident(n) && (old(
                    self,
                ).resident(n) ==> final(self).container_of(n) == old(self).container_of(n)),
    {
        self.unload_plugin(name, log);
        let ghost mid = *self;
        let r = self.load_plugin(name, fetched);
        proof {
            if r is Err {
                assert(!mid.resident(name@));
                assert(*self == mid);
            }
            assert forall|n: Seq<char>|
                n != name@ implies #[trigger] self.resident(n) == old(self).resident(n) && (old(
                self,
            ).resident(n) ==> self.container_of(n) == old(self).container_of(n)) by {
                assert(mid.resident(n) == old(self).resident(n));
                assert(old(self).resident(n) ==> mid.container_of(n) == old(self).container_of(n));
                assert(self.resident(n) == mid.resident(n));
                assert(mid.resident(n) ==> self.container_of(n) == mid.container_of(n));
            }
        }
        match r {
            Ok(()) => Ok(()),
            Err(e) => Err(e),
        }
    }
}

/// Appending an entry leaves the lookup of every other name unchanged.
proof fn lemma_idx_of_push_other(
    entries: Seq<(String, PluginContainer)>,
    e: (String, PluginContainer),
    n: Seq<char>,
)
    requires
        e.0@ != n,
    ensures
        idx_of(entries.push(e), n, 0) == idx_of(entries, n, 0),
{
    lemma_idx_of_push_other_from(entries, e, n, 0);
}

proof fn lemma_idx_of_push_other_from(
    entries: Seq<(String, PluginContainer)>,
    e: (String, PluginContainer),
    n: Seq<char>,
    k: int,
)
    requires
        e.0@ != n,
    ensures
        idx_of(entries.push(e), n, k) == idx_of(entries, n, k),
    decreases entries.len() - k,
{
    if 0 <= k < entries.len() {
        lemma_idx_of_push_other_from(entries, e, n, k + 1);
    } else if k == entries.len() {
        assert(idx_of(entries.push(e), n, k + 1) is None);
    }
}

/// After appending an entry whose name did not occur, that name resolves to
/// the appended entry.
proof fn lemma_idx_of_last(
    entries: Seq<(String, PluginContainer)>,
    e: (String, PluginContainer),
    n: Seq<char>,
)
    requires
        e.0@ == n,
        idx_of(entries, n, 0) is None,
    ensures
        idx_of(entries.push(e), n, 0) == Some(entries.len() as int),
{
    lemma_idx_of_last_from(entries, e, n, 0);
}

proof fn lemma_idx_of_last_from(
    entries: Seq<(String, PluginContainer)>,
    e: (String, PluginContainer),
    n: Seq<char>,
    k: int,
)
    requires
        e.0@ == n,
        0 <= k <= entries.len(),
        idx_of(entries, n, k) is None,
    ensures
        idx_of(entries.push(e), n, k) == Some(entries.len() as int),
    decreases entries.len() - k,
{
    if k < entries.len() {
        lemma_idx_of_last_from(entries, e, n, k + 1);
    }
}

/// Removing the entry a name resolves to: the name no longer resolves, and
/// every other name resolves to the same container as before.
proof fn lemma_remove_entry(entries: Seq<(String, PluginContainer)>, name: Seq<char>, k: int)
    requires
        0 <= k < entries.len(),
        idx_of(entries, name, 0) == Some(k),
        forall|i: int, j: int|
            0 <= i < j < entries.len() ==> #[trigger] entries[i].0@ != #[trigger] entries[j].0@,
    ensures
        idx_of(entries.remove(k), name, 0) is None,
        forall|i: int, j: int|
            0 <= i < j < entries.remove(k).len() ==> #[trigger] entries.remove(k)[i].0@
                != #[trigger] entries.remove(k)[j].0@,
        forall|n: Seq<char>|
            n != name ==> #[trigger] (idx_of(entries.remove(k), n, 0) is Some) == (idx_of(
                entries,
                n,
                0,
            ) is Some),
        forall|n: Seq<char>|
            n != name && idx_of(entries, n, 0) is Some ==> #[trigger] entries.remove(k)[idx_of(
                entries.remove(k),
                n,
                0,
            ).unwrap()].1 == entries[idx_of(entries, n, 0).unwrap()].1,
{
    let shorter = entries.remove(k);
    lemma_idx_of_range(entries, name, 0);
    assert forall|n: Seq<char>| true implies {
        &&& n != name ==> (#[trigger] (idx_of(shorter, n, 0) is Some) == (idx_of(entries, n, 0)
            is Some))
        &&& (n == name ==> idx_of(shorter, n, 0) is None)
    } by {
        lemma_idx_of_range(entries, n, 0);
        lemma_idx_of_range(shorter, n, 0);
        if let Some(p) = idx_of(entries, n, 0) {
            if n != name {
                let q = if p < k {
                    p
                } else {
                    p - 1
                };
                assert(shorter[q].0@ == n);
                if idx_of(shorter, n, 0) is None {
                    assert(shorter[q].0@ != n);
                }
            }
        }
        if let Some(p) = idx_of(shorter, n, 0) {
            let q = if p < k {
                p
            } else {
                p + 1
            };
            assert(entries[q].0@ == n);
            if n != name && idx_of(entries, n, 0) is None {
                assert(entries[q].0@ != n);
            }
            if n == name {
                assert(entries[q].0@ == name && q != k);
                assert(false);
            }
        }
    }
    assert forall|n: Seq<char>|
        n != name && idx_of(entries, n, 0) is Some implies #[trigger] shorter[idx_of(
        shorter,
        n,
        0,
    ).unwrap()].1 == entries[idx_of(entries, n, 0).unwrap()].1 by {
        lemma_idx_of_range(entries, n, 0);
        lemma_idx_of_range(shorter, n, 0);
        let p = idx_of(entries, n, 0).unwrap();
        let p2 = idx_of(shorter, n, 0).unwrap();
        let q2 = if p2 < k {
            p2
        } else {
            p2 + 1
        };
        assert(shorter[p2] == entries[q2]);
        assert(entries[q2].0@ == n);
        if p != q2 {
            assert(entries[p].0@ == entries[q2].0@);
        }
    }
}

} // verus!
