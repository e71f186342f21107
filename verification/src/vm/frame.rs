//! Call frames.
//!
//! A frame is created on `CALL` and destroyed on the matching `RETURN`. It
//! owns the local variables of one subroutine invocation — a mapping from
//! 16-bit slot identifiers to 16-bit values, empty at creation, so no frame
//! inherits an outer scope — and the address to resume at after `RETURN`.
//! The root frame, made at engine construction, carries the sentinel
//! `usize::MAX` as return address: it represents the entry context, with no
//! caller to return to, and the engine never reads its sentinel.

use std::collections::HashMap;
use vstd::prelude::*;

verus! {

broadcast use vstd::std_specs::hash::group_hash_axioms;

/// One call frame: a private variable scope and the captured return address.
pub struct Frame {
    variables: HashMap<i16, i16>,
    pub return_address: usize,
}

/// The mathematical view of a frame: its variables as a map, and the return
/// address as it stands.
pub struct FrameModel {
    pub variables: Map<i16, i16>,
    pub return_address: int,
}

impl View for Frame {
    type V = FrameModel;

    closed spec fn view(&self) -> FrameModel {
        FrameModel { variables: self.variables@, return_address: self.return_address as int }
    }
}

impl Frame {
    /// A fresh frame: no variables, remembering where to resume.
    pub fn new(return_address: usize) -> (frame: Frame)
        ensures
            frame@.variables == Map::<i16, i16>::empty(),
            frame@.return_address == return_address as int,
    {
        Frame { variables: HashMap::new(), return_address }
    }

    /// Binds `key` to `value` in this frame's scope, replacing any earlier
    /// binding of the same slot.
    pub fn store(&mut self, key: i16, value: i16)
        ensures
            final(self)@.variables == old(self)@.variables.insert(key, value),
            final(self)@.return_address == old(self)@.return_address,
    {
        self.variables.insert(key, value);
    }

    /// The address execution resumes at after this frame's `RETURN`.
    pub fn return_address(&self) -> (address: usize)
        ensures
            address as int == self@.return_address,
    {
        self.return_address
    }

    /// The value bound to `key` in this frame's scope, if any.
    pub fn load(&self, key: &i16) -> (value: Option<&i16>)
        ensures
            match value {
                Some(v) => self@.variables.contains_key(*key) && *v == self@.variables[*key],
                None => !self@.variables.contains_key(*key),
            },
    {
        self.variables.get(key)
    }
}

} // verus!
