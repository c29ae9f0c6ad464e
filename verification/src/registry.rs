//! The extension registry: the set of currently loaded provider
//! modules, with version/ABI-gated load, and unload.
//!
//! A provider handle is registered under at most one slot per source
//! name at any instant; `load` refuses a module whose declared core-ABI
//! or toolchain version differs from the host's before anything else is
//! done with it.

use vstd::prelude::*;

use crate::errors::LoadError;
use crate::version::Version;

verus! {

/// What a provider module declares about itself: its source name, its
/// semantic version, and the two compatibility tags the host gates on.
#[derive(Debug)]
pub struct ProviderInfo {
    pub name: String,
    pub version: Version,
    pub core_abi: String,
    pub toolchain: String,
}

/// The mathematical value of a [`ProviderInfo`].
pub struct ProviderInfoModel {
    pub name: Seq<char>,
    pub version: Version,
    pub core_abi: Seq<char>,
    pub toolchain: Seq<char>,
}

impl View for ProviderInfo {
    type V = ProviderInfoModel;

    open spec fn view(&self) -> ProviderInfoModel {
        ProviderInfoModel {
            name: self.name@,
            version: self.version,
            core_abi: self.core_abi@,
            toolchain: self.toolchain@,
        }
    }
}

/// The mathematical value of a [`Registry`]: the host's compatibility
/// tags and the sequence of loaded handles.
pub struct RegistryModel {
    pub host_core_abi: Seq<char>,
    pub host_toolchain: Seq<char>,
    pub handles: Seq<ProviderInfoModel>,
}

impl RegistryModel {
    /// Well-formedness: no two loaded handles share a source name.
    pub open spec fn wf(self) -> bool {
        forall|i: int, j: int|
            0 <= i < j < self.handles.len() ==> self.handles[i].name != self.handles[j].name
    }

    /// Some handle is loaded under this source name.
    pub open spec fn has_source(self, name: Seq<char>) -> bool {
        exists|i: int| 0 <= i < self.handles.len() && self.handles[i].name == name
    }

    /// The index of the handle loaded under this source name
    /// (meaningful only when `has_source` holds; unique under `wf`).
    pub open spec fn index_of(self, name: Seq<char>) -> int {
        choose|i: int| 0 <= i < self.handles.len() && self.handles[i].name == name
    }

    /// The handle loaded under this source name.
    pub open spec fn handle_of(self, name: Seq<char>) -> ProviderInfoModel {
        self.handles[self.index_of(name)]
    }

    /// A module is compatible when both its tags equal the host's.
    pub open spec fn compatible(self, info: ProviderInfoModel) -> bool {
        info.core_abi == self.host_core_abi && info.toolchain == self.host_toolchain
    }
}

/// The set of currently loaded provider modules, owned by the host.
pub struct Registry {
    host_core_abi: String,
    host_toolchain: String,
    handles: Vec<ProviderInfo>,
}

impl View for Registry {
    type V = RegistryModel;

    closed spec fn view(&self) -> RegistryModel {
        RegistryModel {
            host_core_abi: self.host_core_abi@,
            host_toolchain: self.host_toolchain@,
            handles: self.handles.deep_view(),
        }
    }
}

impl DeepView for ProviderInfo {
    type V = ProviderInfoModel;

    open spec fn deep_view(&self) -> ProviderInfoModel {
        self@
    }
}

impl Registry {
    /// An empty registry for a host with the given compatibility tags.
    pub fn new(host_core_abi: String, host_toolchain: String) -> (r: Registry)
        ensures
            r@.wf(),
            r@.host_core_abi == host_core_abi@,
            r@.host_toolchain == host_toolchain@,
            r@.handles.len() == 0,
    {
        Registry { host_core_abi, host_toolchain, handles: Vec::new() }
    }

    /// The host's core-ABI tag that `load` gates on.
    pub fn host_core_abi(&self) -> (r: &String)
        ensures
            r@ == self@.host_core_abi,
    {
        &self.host_core_abi
    }

    /// The host's toolchain tag that `load` gates on.
    pub fn host_toolchain(&self) -> (r: &String)
        ensures
            r@ == self@.host_toolchain,
    {
        &self.host_toolchain
    }

    /// Shared lookup: the handle loaded under `name`, if any.
    pub fn get(&self, name: &String) -> (r: Option<&ProviderInfo>)
        requires
            self@.wf(),
        ensures
            match r {
                Some(h) => self@.has_source(name@) && h@ == self@.handle_of(name@),
                None => !self@.has_source(name@),
            },
    {
        let n = self.handles.len();
        let mut i: usize = 0;
        while i < n
            invariant
                n == self.handles.len(),
                i <= n,
                self@.wf(),
                forall|j: int| 0 <= j < i ==> self.handles@[j]@.name != name@,
            decreases n - i,
        {
            if self.handles[i].name == *name {
                proof {
                    assert(self@.handles[i as int].name == name@);
                    let k = self@.index_of(name@);
                    assert(0 <= k < self@.handles.len() && self@.handles[k].name == name@);
                    assert(k == i as int);
                }
                return Some(&self.handles[i]);
            }
            i += 1;
        }
        None
    }

    /// Loads a provider handle. The ABI/toolchain gate is checked
    /// before anything else: an incompatible module is never
    /// registered. A compatible module is refused only when a handle
    /// for its name is already present.
    pub fn load(&mut self, info: ProviderInfo) -> (r: Result<(), LoadError>)
        requires
            old(self)@.wf(),
        ensures
            final(self)@.wf(),
            final(self)@.host_core_abi == old(self)@.host_core_abi,
            final(self)@.host_toolchain == old(self)@.host_toolchain,
            !old(self)@.compatible(info@) ==> r == Err::<(), LoadError>(LoadError::AbiMismatch)
                && final(self)@ == old(self)@,
            old(self)@.compatible(info@) && old(self)@.has_source(info@.name)
                ==> r == Err::<(), LoadError>(LoadError::AlreadyLoaded)
                && final(self)@ == old(self)@,
            old(self)@.compatible(info@) && !old(self)@.has_source(info@.name) ==> r is Ok
                && final(self)@.handles == old(self)@.handles.push(info@)
                && final(self)@.has_source(info@.name)
                && final(self)@.handle_of(info@.name) == info@,
    {
        if !(info.core_abi == self.host_core_abi && info.toolchain == self.host_toolchain) {
            return Err(LoadError::AbiMismatch);
        }
        if self.get(&info.name).is_some() {
            return Err(LoadError::AlreadyLoaded);
        }
        proof {
            assert(forall|j: int| 0 <= j < self@.handles.len()
                ==> self@.handles[j].name != info@.name);
        }
        let ghost pre = self@;
        self.handles.push(info);
        proof {
            assert(self@.handles =~= pre.handles.push(self.handles@[pre.handles.len() as int]@));
            let n = self@.handles.len() - 1;
            assert(self@.handles[n].name == self.handles@[n]@.name);
            assert(self@.has_source(self@.handles[n].name)) by {
                assert(0 <= n < self@.handles.len());
            }
            let k = self@.index_of(self@.handles[n].name);
            assert(k == n);
        }
        Ok(())
    }

    /// Unloads the handle registered under `name`. On success the
    /// registry no longer holds a handle for that name and every other
    /// handle is kept, in order.
    pub fn unload(&mut self, name: &String) -> (r: Result<(), LoadError>)
        requires
            old(self)@.wf(),
        ensures
            final(self)@.wf(),
            final(self)@.host_core_abi == old(self)@.host_core_abi,
            final(self)@.host_toolchain == old(self)@.host_toolchain,
            !old(self)@.has_source(name@) ==> r == Err::<(), LoadError>(LoadError::NotLoaded)
                && final(self)@ == old(self)@,
            old(self)@.has_source(name@) ==> r is Ok
                && final(self)@.handles == old(self)@.handles.remove(old(self)@.index_of(name@))
                && !final(self)@.has_source(name@),
    {
        let n = self.handles.len();
        let mut i: usize = 0;
        while i < n
            invariant
                n == self.handles.len(),
                i <= n,
                self@.wf(),
                self@ == old(self)@,
                forall|j: int| 0 <= j < i ==> self.handles@[j]@.name != name@,
            decreases n - i,
        {
            if self.handles[i].name == *name {
                let ghost pre = self@;
                proof {
                    assert(pre.handles[i as int].name == name@);
                    let k = pre.index_of(name@);
                    assert(0 <= k < pre.handles.len() && pre.handles[k].name == name@);
                    assert(k == i as int);
                }
                self.handles.remove(i);
                proof {
                    assert(self@.handles =~= pre.handles.remove(i as int));
                    assert forall|j: int| 0 <= j < self@.handles.len()
                        implies self@.handles[j].name != name@ by {
                        if j < i {
                            assert(self@.handles[j] == pre.handles[j]);
                        } else {
                            assert(self@.handles[j] == pre.handles[j + 1]);
                        }
                    }
                    assert forall|p: int, q: int| 0 <= p < q < self@.handles.len()
                        implies self@.handles[p].name != self@.handles[q].name by {
                        let p0 = if p < i { p } else { p + 1 };
                        let q0 = if q < i { q } else { q + 1 };
                        assert(self@.handles[p] == pre.handles[p0]);
                        assert(self@.handles[q] == pre.handles[q0]);
                    }
                }
                return Ok(());
            }
            i += 1;
        }
        Err(LoadError::NotLoaded)
    }
}

/// Installing over a loaded module leaves exactly one handle under
/// the name, bearing the new module's info: the unload that an
/// install begins with leaves no handle for the name, and the load it
/// ends with registers the new one, so no two live handles ever
/// coexist.
pub proof fn lemma_install_supersedes(reg: RegistryModel, info: ProviderInfoModel)
    requires
        reg.wf(),
        reg.has_source(info.name),
        reg.compatible(info),
    ensures
        ({
            let r1 = RegistryModel {
                host_core_abi: reg.host_core_abi,
                host_toolchain: reg.host_toolchain,
                handles: reg.handles.remove(reg.index_of(info.name)),
            };
            let r2 = RegistryModel {
                host_core_abi: r1.host_core_abi,
                host_toolchain: r1.host_toolchain,
                handles: r1.handles.push(info),
            };
            &&& r1.wf()
            &&& !r1.has_source(info.name)
            &&& r2.wf()
            &&& r2.has_source(info.name)
            &&& r2.handle_of(info.name) == info
        }),
{
    let i = reg.index_of(info.name);
    assert(0 <= i < reg.handles.len() && reg.handles[i].name == info.name);
    let r1 = RegistryModel {
        host_core_abi: reg.host_core_abi,
        host_toolchain: reg.host_toolchain,
        handles: reg.handles.remove(i),
    };
    assert forall|j: int| 0 <= j < r1.handles.len() implies r1.handles[j].name != info.name by {
        if j < i {
            assert(r1.handles[j] == reg.handles[j]);
        } else {
            assert(r1.handles[j] == reg.handles[j + 1]);
        }
    }
    assert forall|p: int, q: int| 0 <= p < q < r1.handles.len()
        implies r1.handles[p].name != r1.handles[q].name by {
        let p0 = if p < i { p } else { p + 1 };
        let q0 = if q < i { q } else { q + 1 };
        assert(r1.handles[p] == reg.handles[p0]);
        assert(r1.handles[q] == reg.handles[q0]);
    }
    lemma_load_then_get(r1, info);
}

/// Loading a handle registers it under its own name: in the state a
/// successful `load` of `info` leaves behind, the lookup that `get`
/// performs finds a handle whose declared name is exactly the name
/// asked for.
pub proof fn lemma_load_then_get(pre: RegistryModel, info: ProviderInfoModel)
    requires
        pre.wf(),
        pre.compatible(info),
        !pre.has_source(info.name),
    ensures
        ({
            let post = RegistryModel {
                host_core_abi: pre.host_core_abi,
                host_toolchain: pre.host_toolchain,
                handles: pre.handles.push(info),
            };
            &&& post.wf()
            &&& post.has_source(info.name)
            &&& post.handle_of(info.name) == info
            &&& post.handle_of(info.name).name == info.name
        }),
{
    let post = RegistryModel {
        host_core_abi: pre.host_core_abi,
        host_toolchain: pre.host_toolchain,
        handles: pre.handles.push(info),
    };
    let n = pre.handles.len() as int;
    assert(post.handles[n] == info);
    assert(post.has_source(info.name));
    assert forall|p: int, q: int| 0 <= p < q < post.handles.len()
        implies post.handles[p].name != post.handles[q].name by {
        if q < n {
            assert(post.handles[p] == pre.handles[p]);
            assert(post.handles[q] == pre.handles[q]);
        } else {
            assert(post.handles[p] == pre.handles[p]);
            assert(post.handles[q] == info);
            assert(pre.handles[p].name != info.name);
        }
    }
    let k = post.index_of(info.name);
    assert(0 <= k < post.handles.len() && post.handles[k].name == info.name);
    assert(k == n);
}

} // verus!
