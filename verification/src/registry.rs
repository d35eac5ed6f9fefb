//! The registry of loaded plugins.
//!
//! A plugin is known by its name and its version; several versions of one
//! plugin can be loaded at a time, as they are during an upgrade. Each
//! loaded version counts the engines that were built from it, and is
//! unloaded when the last of them is gone.

use vstd::prelude::*;
use crate::control::{PluginDescriptor, PluginType};
use crate::error::ResourceError;
use crate::upgrade::Version;

verus! {

/// A loaded version of a plugin.
pub struct Loaded {
    name: String,
    lib_path: String,
    ty: PluginType,
    version: Version,
    engines: usize,
}

/// What the registry knows of a loaded version of a plugin.
pub ghost struct LoadedView {
    pub name: Seq<char>,
    pub lib_path: Seq<char>,
    pub ty: PluginType,
    pub version: Version,
    /// Number of live engines that were built from it.
    pub engines: nat,
}

impl View for Loaded {
    type V = LoadedView;

    closed spec fn view(&self) -> LoadedView {
        LoadedView {
            name: self.name@,
            lib_path: self.lib_path@,
            ty: self.ty,
            version: self.version,
            engines: self.engines as nat,
        }
    }
}

/// Whether version `a` comes before version `b`.
pub open spec fn older(a: Version, b: Version) -> bool {
    a.major < b.major || (a.major == b.major && (a.minor < b.minor || (a.minor == b.minor && a.patch
        < b.patch)))
}

/// Whether version `a` comes before version `b`.
pub fn is_older(a: Version, b: Version) -> (r: bool)
    ensures
        r == older(a, b),
{
    a.major < b.major || (a.major == b.major && (a.minor < b.minor || (a.minor == b.minor && a.patch
        < b.patch)))
}

/// The registry of loaded plugins.
pub struct Registry {
    plugins: Vec<Loaded>,
}

impl View for Registry {
    type V = Seq<LoadedView>;

    closed spec fn view(&self) -> Seq<LoadedView> {
        Seq::new(self.plugins@.len(), |i: int| self.plugins@[i]@)
    }
}

/// Whether entry `i` of `plugins` is the given version of the plugin of
/// the given name.
pub open spec fn is_entry(plugins: Seq<LoadedView>, i: int, name: Seq<char>, version: Version) -> bool {
    0 <= i < plugins.len() && plugins[i].name == name && plugins[i].version == version
}

/// Whether the given version of the plugin of the given name is loaded.
pub open spec fn loaded(plugins: Seq<LoadedView>, name: Seq<char>, version: Version) -> bool {
    exists|i: int| is_entry(plugins, i, name, version)
}

/// The entry of the given version of the plugin of the given name.
pub open spec fn entry_of(plugins: Seq<LoadedView>, name: Seq<char>, version: Version) -> int {
    choose|i: int| is_entry(plugins, i, name, version)
}

/// No version of a plugin is loaded twice.
pub open spec fn distinct(plugins: Seq<LoadedView>) -> bool {
    forall|i: int, j: int|
        0 <= i < j < plugins.len() ==> !(plugins[i].name == plugins[j].name && plugins[i].version
            == plugins[j].version)
}

impl Registry {
    /// The registry's invariant.
    pub open spec fn wf(&self) -> bool {
        distinct(self@)
    }

    /// A registry without plugins.
    pub fn new() -> (r: Registry)
        ensures
            r.wf(),
            r@ == Seq::<LoadedView>::empty(),
    {
        let r = Registry { plugins: Vec::new() };
        assert(r@ =~= Seq::<LoadedView>::empty());
        r
    }

    /// Number of loaded versions, over all plugins.
    pub fn len(&self) -> (n: usize)
        ensures
            n == self@.len(),
    {
        self.plugins.len()
    }

    fn find(&self, name: &String, version: Version) -> (res: Option<usize>)
        requires
            self.wf(),
        ensures
            match res {
                Some(i) => is_entry(self@, i as int, name@, version) && entry_of(
                    self@,
                    name@,
                    version,
                ) == i,
                None => !loaded(self@, name@, version),
            },
    {
        let mut i: usize = 0;
        while i < self.plugins.len()
            invariant
                i <= self.plugins.len(),
                self.wf(),
                forall|k: int| 0 <= k < i ==> !is_entry(self@, k, name@, version),
            decreases self.plugins.len() - i,
        {
            let p = &self.plugins[i];
            assert(p@ == self@[i as int]);
            if p.name == *name && p.version.major == version.major && p.version.minor
                == version.minor && p.version.patch == version.patch {
                proof {
                    assert(is_entry(self@, i as int, name@, version));
                    let c = entry_of(self@, name@, version);
                    assert(is_entry(self@, c, name@, version));
                }
                return Some(i);
            }
            i += 1;
        }
        proof {
            assert forall|k: int| !is_entry(self@, k, name@, version) by {}
        }
        None
    }

    /// Whether the given version of the plugin of the given name is
    /// loaded.
    pub fn is_loaded(&self, name: &String, version: Version) -> (b: bool)
        requires
            self.wf(),
        ensures
            b == loaded(self@, name@, version),
    {
        self.find(name, version).is_some()
    }

    /// Number of live engines that were built from the given version of
    /// the plugin of the given name; none if it is not loaded.
    pub fn engines(&self, name: &String, version: Version) -> (n: usize)
        requires
            self.wf(),
        ensures
            n == if loaded(self@, name@, version) {
                self@[entry_of(self@, name@, version)].engines
            } else {
                0
            },
    {
        match self.find(name, version) {
            Some(i) => {
                assert(self.plugins@[i as int]@ == self@[i as int]);
                self.plugins[i].engines
            },
            None => 0,
        }
    }

    /// Loads version `version` of the plugin that `plugin` describes,
    /// beside the versions of it that are loaded already. A version that
    /// is loaded already is refused.
    pub fn load(&mut self, plugin: &PluginDescriptor, ty: PluginType, version: Version) -> (res:
        Result<(), ResourceError>)
        requires
            old(self).wf(),
        ensures
            final(self).wf(),
            loaded(old(self)@, plugin.name@, version) ==> res == Err::<(), ResourceError>(
                ResourceError::Exists,
            ) && final(self)@ == old(self)@,
            !loaded(old(self)@, plugin.name@, version) ==> res is Ok && final(self)@ == old(
                self,
            )@.push(
                LoadedView {
                    name: plugin.name@,
                    lib_path: plugin.lib_path@,
                    ty,
                    version,
                    engines: 0,
                },
            ),
    {
        if self.find(&plugin.name, version).is_some() {
            return Err(ResourceError::Exists);
        }
        self.plugins.push(
            Loaded {
                name: plugin.name.clone(),
                lib_path: plugin.lib_path.clone(),
                ty,
                version,
                engines: 0,
            },
        );
        proof {
            let added = LoadedView {
                name: plugin.name@,
                lib_path: plugin.lib_path@,
                ty,
                version,
                engines: 0,
            };
            assert(self@ =~= old(self)@.push(added));
            assert forall|i: int, j: int| 0 <= i < j < self@.len() implies !(self@[i].name
                == self@[j].name && self@[i].version == self@[j].version) by {
                if j == old(self)@.len() {
                    assert(!is_entry(old(self)@, i, plugin.name@, version));
                }
            }
        }
        Ok(())
    }

    /// Counts one more engine built from the given version of the plugin
    /// of the given name. A version that is not loaded is not found.
    pub fn acquire(&mut self, name: &String, version: Version) -> (res: Result<(), ResourceError>)
        requires
            old(self).wf(),
            loaded(old(self)@, name@, version) ==> old(self)@[entry_of(
                old(self)@,
                name@,
                version,
            )].engines < usize::MAX,
        ensures
            final(self).wf(),
            !loaded(old(self)@, name@, version) ==> res == Err::<(), ResourceError>(
                ResourceError::NotFound,
            ) && final(self)@ == old(self)@,
            loaded(old(self)@, name@, version) ==> {
                let i = entry_of(old(self)@, name@, version);
                res is Ok && final(self)@ == old(self)@.update(
                    i,
                    LoadedView { engines: old(self)@[i].engines + 1, ..old(self)@[i] },
                )
            },
    {
        let i = match self.find(name, version) {
            Some(i) => i,
            None => {
                return Err(ResourceError::NotFound);
            },
        };
        assert(self.plugins@[i as int]@ == self@[i as int]);
        let n = self.plugins[i].engines;
        self.plugins[i].engines = n + 1;
        proof {
            let before = old(self)@;
            let after = before.update(
                i as int,
                LoadedView { engines: before[i as int].engines + 1, ..before[i as int] },
            );
            assert(self@ =~= after) by {
                assert forall|k: int| 0 <= k < after.len() implies self@[k] == after[k] by {
                    assert(self@[k] == self.plugins@[k]@);
                    assert(before[k] == old(self).plugins@[k]@);
                }
            }
            assert forall|a: int, b: int| 0 <= a < b < after.len() implies !(after[a].name
                == after[b].name && after[a].version == after[b].version) by {
                assert(after[a].name == before[a].name && after[a].version == before[a].version);
                assert(after[b].name == before[b].name && after[b].version == before[b].version);
            }
        }
        Ok(())
    }

    /// Counts one engine less for the given version of the plugin of the
    /// given name, and unloads that version when the count reaches zero;
    /// says whether it was unloaded.
    ///
    /// A version that is not loaded, or from which no engine was built, is
    /// not found.
    pub fn release(&mut self, name: &String, version: Version) -> (res: Result<bool, ResourceError>)
        requires
            old(self).wf(),
        ensures
            final(self).wf(),
            ({
                let before = old(self)@;
                let i = entry_of(before, name@, version);
                if !loaded(before, name@, version) || before[i].engines == 0 {
                    res == Err::<bool, ResourceError>(ResourceError::NotFound) && final(self)@
                        == before
                } else if before[i].engines == 1 {
                    res == Ok::<bool, ResourceError>(true) && final(self)@ == before.remove(i)
                } else {
                    res == Ok::<bool, ResourceError>(false) && final(self)@ == before.update(
                        i,
                        LoadedView { engines: (before[i].engines - 1) as nat, ..before[i] },
                    )
                }
            }),
    {
        let i = match self.find(name, version) {
            Some(i) => i,
            None => {
                return Err(ResourceError::NotFound);
            },
        };
        assert(self.plugins@[i as int]@ == self@[i as int]);
        let n = self.plugins[i].engines;
        if n == 0 {
            return Err(ResourceError::NotFound);
        }
        let ghost before = old(self)@;
        if n == 1 {
            self.plugins.remove(i);
            proof {
                let after = before.remove(i as int);
                assert(self@ =~= after) by {
                    assert forall|k: int| 0 <= k < after.len() implies self@[k] == after[k] by {
                        assert(self@[k] == self.plugins@[k]@);
                        if k < i {
                            assert(before[k] == old(self).plugins@[k]@);
                        } else {
                            assert(before[k + 1] == old(self).plugins@[k + 1]@);
                        }
                    }
                }
                assert forall|a: int, b: int| 0 <= a < b < after.len() implies !(after[a].name
                    == after[b].name && after[a].version == after[b].version) by {
                    let a0 = if a < i {
                        a
                    } else {
                        a + 1
                    };
                    let b0 = if b < i {
                        b
                    } else {
                        b + 1
                    };
                    assert(after[a] == before[a0] && after[b] == before[b0]);
                }
            }
            Ok(true)
        } else {
            self.plugins[i].engines = n - 1;
            proof {
                let after = before.update(
                    i as int,
                    LoadedView { engines: (before[i as int].engines - 1) as nat, ..before[i as int] },
                );
                assert(self@ =~= after) by {
                    assert forall|k: int| 0 <= k < after.len() implies self@[k] == after[k] by {
                        assert(self@[k] == self.plugins@[k]@);
                        assert(before[k] == old(self).plugins@[k]@);
                    }
                }
                assert forall|a: int, b: int| 0 <= a < b < after.len() implies !(after[a].name
                    == after[b].name && after[a].version == after[b].version) by {
                    assert(after[a].name == before[a].name && after[a].version == before[a].version);
                    assert(after[b].name == before[b].name && after[b].version == before[b].version);
                }
            }
            Ok(false)
        }
    }

    /// The newest loaded version of the plugin of the given name.
    pub fn newest(&self, name: &String) -> (res: Option<Version>)
        requires
            self.wf(),
        ensures
            match res {
                Some(v) => loaded(self@, name@, v) && forall|w: Version|
                    loaded(self@, name@, w) ==> !older(v, w),
                None => forall|w: Version| !loaded(self@, name@, w),
            },
    {
        let mut best: Option<Version> = None;
        let mut i: usize = 0;
        while i < self.plugins.len()
            invariant
                i <= self.plugins.len(),
                match best {
                    Some(v) => loaded(self@, name@, v) && forall|k: int|
                        0 <= k < i && (#[trigger] self@[k]).name == name@ ==> !older(
                            v,
                            self@[k].version,
                        ),
                    None => forall|k: int| 0 <= k < i ==> (#[trigger] self@[k]).name != name@,
                },
            decreases self.plugins.len() - i,
        {
            let p = &self.plugins[i];
            assert(p@ == self@[i as int]);
            if p.name == *name {
                proof {
                    assert(is_entry(self@, i as int, name@, p.version));
                }
                let replace = match best {
                    Some(v) => is_older(v, p.version),
                    None => true,
                };
                if replace {
                    best = Some(p.version);
                }
            }
            i += 1;
        }
        proof {
            match best {
                Some(v) => {
                    assert forall|w: Version| loaded(self@, name@, w) implies !older(v, w) by {
                        let k = entry_of(self@, name@, w);
                        assert(is_entry(self@, k, name@, w));
                    }
                },
                None => {
                    assert forall|w: Version| !loaded(self@, name@, w) by {
                        if loaded(self@, name@, w) {
                            let k = entry_of(self@, name@, w);
                            assert(is_entry(self@, k, name@, w));
                        }
                    }
                },
            }
        }
        best
    }
}

} // verus!
