//! The collection of all declared endpoints.

use vstd::prelude::*;
use crate::descriptor::{Descriptor, TsFn};

verus! {

/// The descriptors a sequence of `TsFn`s stands for.
pub open spec fn descriptor_views(fns: Seq<TsFn>) -> Seq<Descriptor> {
    fns.map_values(|f: TsFn| f@)
}

/// The endpoints declared so far. Descriptors are only ever added; the order
/// in which they were added has no meaning.
#[derive(Debug)]
pub struct Registry {
    descriptors: Vec<TsFn>,
}

impl View for Registry {
    type V = Seq<Descriptor>;

    closed spec fn view(&self) -> Seq<Descriptor> {
        descriptor_views(self.descriptors@)
    }
}

impl Registry {
    /// A registry without descriptors.
    pub fn new() -> (r: Registry)
        ensures
            r@ == Seq::<Descriptor>::empty(),
    {
        let r = Registry { descriptors: Vec::new() };
        assert(descriptor_views(r.descriptors@) =~= Seq::empty());
        r
    }

    /// Adds one descriptor. Those already there stay as they are.
    pub fn register(&mut self, descriptor: TsFn)
        ensures
            final(self)@ == old(self)@.push(descriptor@),
    {
        self.descriptors.push(descriptor);
        assert(descriptor_views(self.descriptors@) =~= descriptor_views(old(self).descriptors@).push(
            descriptor@,
        ));
    }

    /// The number of descriptors.
    pub fn len(&self) -> (n: usize)
        ensures
            n == self@.len(),
    {
        self.descriptors.len()
    }

    /// The descriptor at `index`, if there is one.
    pub fn get(&self, index: usize) -> (r: Option<&TsFn>)
        ensures
            match r {
                Some(d) => index < self@.len() && d@ == self@[index as int],
                None => index >= self@.len(),
            },
    {
        if index < self.descriptors.len() {
            Some(&self.descriptors[index])
        } else {
            None
        }
    }

    /// All descriptors.
    pub fn descriptors(&self) -> (r: &Vec<TsFn>)
        ensures
            descriptor_views(r@) == self@,
    {
        &self.descriptors
    }
}

} // verus!
