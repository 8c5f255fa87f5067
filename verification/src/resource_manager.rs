//! The resource registry: named shader and texture handles.  Loading and
//! decoding are the collaborator's business; the engine only registers the
//! opaque handles it is given and resolves them by name, with the newest
//! registration winning, as an insertion into a keyed map would.

use vstd::prelude::*;

verus! {

/// What a name resolves to among `entries`: the handle of the latest entry
/// registered under that name.
pub open spec fn lookup_spec(entries: Seq<(String, u64)>, name: Seq<char>) -> Option<u64>
    decreases entries.len(),
{
    if entries.len() == 0 {
        None
    } else if entries.last().0@ == name {
        Some(entries.last().1)
    } else {
        lookup_spec(entries.drop_last(), name)
    }
}

/// Named handles for shaders and textures.
pub struct ResourceManager {
    pub shaders: Vec<(String, u64)>,
    pub textures: Vec<(String, u64)>,
}

impl ResourceManager {
    /// An empty registry.
    pub fn new() -> (r: Self)
        ensures
            r.shaders@ == Seq::<(String, u64)>::empty(),
            r.textures@ == Seq::<(String, u64)>::empty(),
    {
        ResourceManager { shaders: Vec::new(), textures: Vec::new() }
    }

    /// Registers a shader handle under `name`.
    pub fn add_shader(&mut self, name: String, handle: u64)
        ensures
            final(self).shaders@ == old(self).shaders@.push((name, handle)),
            final(self).textures@ == old(self).textures@,
    {
        self.shaders.push((name, handle));
    }

    /// Registers a texture handle under `name`.
    pub fn add_texture(&mut self, name: String, handle: u64)
        ensures
            final(self).textures@ == old(self).textures@.push((name, handle)),
            final(self).shaders@ == old(self).shaders@,
    {
        self.textures.push((name, handle));
    }

    /// Resolves a shader by name.
    pub fn shader(&self, name: &str) -> (r: Option<u64>)
        ensures
            r == lookup_spec(self.shaders@, name@),
    {
        lookup(&self.shaders, name)
    }

    /// Resolves a texture by name.
    pub fn texture(&self, name: &str) -> (r: Option<u64>)
        ensures
            r == lookup_spec(self.textures@, name@),
    {
        lookup(&self.textures, name)
    }
}

/// Scans `entries` for the latest handle registered under `name`.
fn lookup(entries: &Vec<(String, u64)>, name: &str) -> (r: Option<u64>)
    ensures
        r == lookup_spec(entries@, name@),
{
    let key: String = name.to_owned();
    let mut found: Option<u64> = None;
    let mut i: usize = 0;
    while i < entries.len()
        invariant
            0 <= i <= entries@.len(),
            key@ == name@,
            found == lookup_spec(entries@.take(i as int), name@),
        decreases entries@.len() - i,
    {
        let e = &entries[i];
        if e.0 == key {
            found = Some(e.1);
        }
        proof {
            assert(entries@.take(i + 1).drop_last() =~= entries@.take(i as int));
            assert(entries@.take(i + 1).last() == entries@[i as int]);
        }
        i = i + 1;
    }
    proof {
        assert(entries@.take(entries@.len() as int) =~= entries@);
    }
    found
}

} // verus!
