use vstd::prelude::*;
use crate::clip::Clip;

verus! {

/// An ordered group of clips sharing one stacking priority.
///
/// Clips draw in declaration order within the layer; the optional
/// explicit priority overrides the layer's declaration index when the
/// timeline orders its layers.
#[derive(Debug)]
pub struct Layer {
    pub name: String,
    pub z_override: Option<i32>,
    pub clips: Vec<Clip>,
}

impl Layer {
    /// An empty layer with no explicit priority.
    pub fn new(name: String) -> (r: Self)
        ensures
            r.name@ == name@,
            r.z_override is None,
            r.clips@.len() == 0,
    {
        Layer { name, z_override: None, clips: Vec::new() }
    }

    /// The same layer with an explicit stacking priority.
    pub fn with_z_override(self, z: i32) -> (r: Self)
        ensures
            r.name == self.name,
            r.z_override == Some(z),
            r.clips == self.clips,
    {
        Layer { name: self.name, z_override: Some(z), clips: self.clips }
    }

    /// Append a clip; clips are never sorted or deduplicated.
    pub fn add_clip(&mut self, clip: Clip)
        ensures
            final(self).name == old(self).name,
            final(self).z_override == old(self).z_override,
            final(self).clips@ == old(self).clips@.push(clip),
    {
        self.clips.push(clip);
    }
}

} // verus!
