//! The source catalog: interpretation of the remote index of
//! installable providers, and the update-availability computation.
//!
//! Fetching the remote index is transport work that the caller does;
//! this module owns the decision logic: which entries count as
//! installed, and which updates are actually loadable by this host.

use vstd::prelude::*;

use crate::registry::{Registry, RegistryModel};
use crate::version::Version;

verus! {

/// One record of the remote catalog, annotated against the local
/// registry: `installed`, `installed_version` and `update_available`
/// are derived, the other fields come from the remote index.
#[derive(Debug)]
pub struct SourceIndexEntry {
    pub name: String,
    pub path: String,
    pub version: Version,
    pub core_abi: String,
    pub toolchain: String,
    pub installed: bool,
    pub installed_version: Option<Version>,
    pub update_available: bool,
}

/// The mathematical value of a [`SourceIndexEntry`].
#[verifier::ext_equal]
pub struct SourceIndexEntryModel {
    pub name: Seq<char>,
    pub path: Seq<char>,
    pub version: Version,
    pub core_abi: Seq<char>,
    pub toolchain: Seq<char>,
    pub installed: bool,
    pub installed_version: Option<Version>,
    pub update_available: bool,
}

impl View for SourceIndexEntry {
    type V = SourceIndexEntryModel;

    open spec fn view(&self) -> SourceIndexEntryModel {
        SourceIndexEntryModel {
            name: self.name@,
            path: self.path@,
            version: self.version,
            core_abi: self.core_abi@,
            toolchain: self.toolchain@,
            installed: self.installed,
            installed_version: self.installed_version,
            update_available: self.update_available,
        }
    }
}

impl DeepView for SourceIndexEntry {
    type V = SourceIndexEntryModel;

    open spec fn deep_view(&self) -> SourceIndexEntryModel {
        self@
    }
}

/// An update is offered only when the installed version is strictly
/// older in lexicographic order, and the catalog entry's core-ABI and
/// toolchain tags both match the host's: a newer but incompatible
/// module is not loadable here, so it is not an update.
pub open spec fn spec_update_available(
    installed: Version,
    entry: SourceIndexEntryModel,
    reg: RegistryModel,
) -> bool {
    &&& installed.spec_lt(entry.version)
    &&& entry.core_abi == reg.host_core_abi
    &&& entry.toolchain == reg.host_toolchain
}

/// What one catalog entry looks like after annotation against the
/// registry.
pub open spec fn spec_annotated(
    entry: SourceIndexEntryModel,
    reg: RegistryModel,
) -> SourceIndexEntryModel {
    if reg.has_source(entry.name) {
        let h = reg.handle_of(entry.name);
        SourceIndexEntryModel {
            installed: true,
            installed_version: Some(h.version),
            update_available: spec_update_available(h.version, entry, reg),
            ..entry
        }
    } else {
        SourceIndexEntryModel {
            installed: false,
            installed_version: None,
            update_available: false,
            ..entry
        }
    }
}

/// Annotates every catalog entry against the currently loaded
/// handles: an entry whose name is loaded is marked installed, carries
/// the loaded version, and offers an update exactly under
/// [`spec_update_available`]; any other entry is marked not installed.
pub fn annotate(registry: &Registry, entries: &Vec<SourceIndexEntry>) -> (r: Vec<
    SourceIndexEntry,
>)
    requires
        registry@.wf(),
    ensures
        r.deep_view().len() == entries.deep_view().len(),
        forall|i: int|
            0 <= i < entries.deep_view().len() ==> r.deep_view()[i] == spec_annotated(
                entries.deep_view()[i],
                registry@,
            ),
{
    let mut out: Vec<SourceIndexEntry> = Vec::new();
    let n = entries.len();
    let mut i: usize = 0;
    while i < n
        invariant
            n == entries.len(),
            i <= n,
            registry@.wf(),
            out.deep_view().len() == i,
            forall|j: int|
                0 <= j < i ==> out.deep_view()[j] == spec_annotated(
                    entries.deep_view()[j],
                    registry@,
                ),
        decreases n - i,
    {
        let e = &entries[i];
        let annotated = match registry.get(&e.name) {
            Some(h) => {
                let up = h.version.lt(&e.version) && e.core_abi == *registry.host_core_abi()
                    && e.toolchain == *registry.host_toolchain();
                SourceIndexEntry {
                    name: e.name.clone(),
                    path: e.path.clone(),
                    version: e.version,
                    core_abi: e.core_abi.clone(),
                    toolchain: e.toolchain.clone(),
                    installed: true,
                    installed_version: Some(h.version),
                    update_available: up,
                }
            },
            None => SourceIndexEntry {
                name: e.name.clone(),
                path: e.path.clone(),
                version: e.version,
                core_abi: e.core_abi.clone(),
                toolchain: e.toolchain.clone(),
                installed: false,
                installed_version: None,
                update_available: false,
            },
        };
        proof {
            assert(annotated@ =~= spec_annotated(entries.deep_view()[i as int], registry@));
        }
        let ghost prev = out.deep_view();
        out.push(annotated);
        proof {
            assert(out.deep_view() =~= prev.push(out@[prev.len() as int].deep_view()));
        }
        i += 1;
    }
    out
}

} // verus!
