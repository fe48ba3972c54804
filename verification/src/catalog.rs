//! The catalog handed to a presentation layer: engines in listing order,
//! a selected index, and path resolution.

use vstd::prelude::*;
use crate::metadata::EngineMetadata;
use crate::metadata::MetaFields;
use crate::metadata::Modpack;
use crate::metadata::ModpackFields;

verus! {

/// One engine found under the root: its subdirectory name, its version
/// folders and modpacks (both left empty by the scan; their population is a
/// reserved extension point), and its metadata record.
#[derive(Clone)]
pub struct Engine {
    pub root: String,
    pub versions: Vec<String>,
    pub modpacks: Vec<Modpack>,
    pub metadata: EngineMetadata,
}

/// Ghost view of an [`Engine`].
#[verifier::ext_equal]
pub struct EngineFields {
    pub root: Seq<char>,
    pub versions: Seq<Seq<char>>,
    pub modpacks: Seq<ModpackFields>,
    pub metadata: MetaFields,
}

impl View for Engine {
    type V = EngineFields;

    open spec fn view(&self) -> EngineFields {
        EngineFields {
            root: self.root@,
            versions: self.versions.deep_view(),
            modpacks: self.modpacks.deep_view(),
            metadata: self.metadata@,
        }
    }
}

impl DeepView for Engine {
    type V = EngineFields;

    open spec fn deep_view(&self) -> EngineFields {
        self.view()
    }
}

/// The assembled catalog: the absolute root location, the engines in
/// directory-listing order (platform-defined, not sorted), and the selected
/// index. A catalog with zero engines is a valid state, not an error; the
/// selected index is meaningful only while `engines` is non-empty.
pub struct EngineRoot {
    pub location: String,
    pub engines: Vec<Engine>,
    pub selected: usize,
}

/// Ghost view of an [`EngineRoot`].
#[verifier::ext_equal]
pub struct RootFields {
    pub location: Seq<char>,
    pub engines: Seq<EngineFields>,
    pub selected: int,
}

impl View for EngineRoot {
    type V = RootFields;

    open spec fn view(&self) -> RootFields {
        RootFields {
            location: self.location@,
            engines: self.engines.deep_view(),
            selected: self.selected as int,
        }
    }
}

/// The path of an engine's subdirectory under the root location.
pub open spec fn joined_path(location: Seq<char>, name: Seq<char>) -> Seq<char> {
    location + "/"@ + name
}

/// The error of [`EngineRoot::resolve`]: the engine's subdirectory is gone
/// from the disk. Carries the engine's display name for diagnostics.
#[derive(Debug)]
pub struct NotFoundError {
    pub display_name: String,
}

impl EngineRoot {
    /// A builder with an empty location.
    pub fn builder() -> (r: EngineRootBuilder)
        ensures
            r.location@ == Seq::<char>::empty(),
    {
        EngineRootBuilder { location: String::new() }
    }

    /// How many engines the catalog holds.
    pub fn engine_count(&self) -> (n: usize)
        ensures
            n == self@.engines.len(),
    {
        self.engines.len()
    }

    /// The engine at `index`. The bound is the caller's burden.
    pub fn engine(&self, index: usize) -> (e: &Engine)
        requires
            index < self@.engines.len(),
        ensures
            e@ == self@.engines[index as int],
    {
        &self.engines[index]
    }

    /// The currently selected index.
    pub fn selected(&self) -> (i: usize)
        ensures
            i as int == self@.selected,
    {
        self.selected
    }

    /// Moves the selection. An out-of-bounds index is rejected and nothing
    /// changes.
    pub fn set_selected(&mut self, index: usize) -> (ok: bool)
        ensures
            ok == (index < old(self)@.engines.len()),
            ok ==> final(self)@ == (RootFields { selected: index as int, ..old(self)@ }),
            !ok ==> final(self)@ == old(self)@,
    {
        if index < self.engines.len() {
            self.selected = index;
            proof {
                assert(self@ =~= (RootFields { selected: index as int, ..old(self)@ }));
            }
            true
        } else {
            false
        }
    }

    /// The absolute path of the engine at `index`, joined from the root
    /// location; `present` is the caller's finding of whether that path
    /// exists on disk. When it does not, the engine's own display name is
    /// reported. An index out of bounds is a caller error, kept out by the
    /// precondition.
    pub fn resolve(&self, index: usize, present: bool) -> (r: Result<String, NotFoundError>)
        requires
            index < self@.engines.len(),
        ensures
            present ==> (r matches Ok(p) && p@ == joined_path(
                self@.location,
                self@.engines[index as int].root,
            )),
            !present ==> (r matches Err(e) && e.display_name@
                == self@.engines[index as int].metadata.display_name),
    {
        if present {
            let mut p: String = self.location.clone();
            p.append("/");
            p.append(self.engines[index].root.as_str());
            proof {
                assert(p@ =~= joined_path(self@.location, self@.engines[index as int].root));
            }
            Ok(p)
        } else {
            Err(NotFoundError { display_name: self.engines[index].metadata.display_name.clone() })
        }
    }
}

/// Gathers what a scan needs: the root location the caller will read.
#[derive(Clone)]
pub struct EngineRootBuilder {
    pub location: String,
}

impl Default for EngineRootBuilder {
    fn default() -> (r: EngineRootBuilder)
        ensures
            r.location@ == Seq::<char>::empty(),
    {
        EngineRootBuilder { location: String::new() }
    }
}

impl EngineRootBuilder {
    /// Sets the root location the catalog is built for.
    pub fn location(self, location: String) -> (r: EngineRootBuilder)
        ensures
            r.location@ == location@,
    {
        EngineRootBuilder { location }
    }
}

} // verus!
