//! The verification trace: for each target the client was asked to reach, the
//! heights it verified on the way, in order.

use crate::types::{Height, copy_vec};
use std::collections::HashMap;
use vstd::prelude::*;

verus! {

/// The model of a trace: the path recorded for each target.
pub type TraceMap = Map<Height, Seq<Height>>;

/// For each target, the heights verified to reach it.
#[derive(Debug, PartialEq, Eq)]
pub struct Trace {
    paths: HashMap<Height, Vec<Height>>,
}

impl View for Trace {
    type V = TraceMap;

    closed spec fn view(&self) -> TraceMap {
        Map::new(|target: Height| self.paths@.contains_key(target), |target: Height| self.paths@[target]@)
    }
}

impl Trace {
    /// A trace that holds no path.
    pub fn new() -> (trace: Trace)
        ensures
            trace@ == Map::<Height, Seq<Height>>::empty(),
    {
        let trace = Trace { paths: HashMap::new() };
        assert(trace@ =~= Map::<Height, Seq<Height>>::empty());
        trace
    }

    /// The path recorded for `target`.
    pub fn get(&self, target: Height) -> (r: Option<&Vec<Height>>)
        ensures
            match r {
                Some(path) => self@.dom().contains(target) && self@[target] == path@,
                None => !self@.dom().contains(target),
            },
    {
        self.paths.get(&target)
    }

    /// Starts the path for `target` afresh.
    pub fn begin(&mut self, target: Height)
        ensures
            final(self)@ == old(self)@.insert(target, Seq::<Height>::empty()),
    {
        self.paths.insert(target, Vec::new());
        assert(self@ =~= old(self)@.insert(target, Seq::<Height>::empty()));
    }

    /// Appends `height` to the path for `target`, starting the path when there
    /// is none.
    pub fn record(&mut self, target: Height, height: Height)
        ensures
            final(self)@ == old(self)@.insert(
                target,
                if old(self)@.dom().contains(target) {
                    old(self)@[target].push(height)
                } else {
                    seq![height]
                },
            ),
    {
        let mut heights: Vec<Height> = match self.paths.get(&target) {
            Some(path) => copy_vec(path),
            None => Vec::new(),
        };
        heights.push(height);
        self.paths.insert(target, heights);
        assert(self@ =~= old(self)@.insert(
            target,
            if old(self)@.dom().contains(target) {
                old(self)@[target].push(height)
            } else {
                seq![height]
            },
        ));
    }
}

} // verus!
