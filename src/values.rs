//! The part of a node that feeders see: its resolved values and the matches
//! bound to it under each feeder's name.
use vstd::prelude::*;
use crate::error::SetupError;
use crate::common::Values;
use crate::feeder::{MatchView, Matches};
use crate::text::text_eq;
use crate::value::Value;

verus! {

/// What a value holds: the feeder's name and the raw text.
pub type ValueView = (Seq<char>, Seq<char>);

/// The views of a sequence of values.
pub open spec fn values_view(s: Seq<Value>) -> Seq<ValueView> {
    s.map_values(|v: Value| v@)
}

/// The matches bound under `name`: those of the first binding of that name.
pub open spec fn lookup(bindings: Seq<(Seq<char>, Seq<MatchView>)>, name: Seq<char>) -> Option<
    Seq<MatchView>,
>
    decreases bindings.len(),
{
    if bindings.len() == 0 {
        None
    } else if bindings[0].0 == name {
        Some(bindings[0].1)
    } else {
        lookup(bindings.subrange(1, bindings.len() as int), name)
    }
}

/// What a node holds for feeders: its values, in the order they were
/// appended, and its bindings of feeder names to matches, in the order they
/// were added.
pub struct NodeView {
    pub values: Seq<ValueView>,
    pub bindings: Seq<(Seq<char>, Seq<MatchView>)>,
}

impl NodeView {
    pub open spec fn has_binding(self, name: Seq<char>) -> bool {
        exists|i: int| 0 <= i < self.bindings.len() && #[trigger] self.bindings[i].0 == name
    }

    /// No feeder name is bound twice.
    pub open spec fn unique_bindings(self) -> bool {
        forall|i: int, j: int|
            0 <= i < self.bindings.len() && 0 <= j < self.bindings.len() && i != j
                ==> #[trigger] self.bindings[i].0 != #[trigger] self.bindings[j].0
    }

    pub open spec fn matches_for(self, name: Seq<char>) -> Option<Seq<MatchView>> {
        lookup(self.bindings, name)
    }

    /// The node after `added` was appended to its values.
    pub open spec fn appended(self, added: Seq<ValueView>) -> NodeView {
        NodeView { values: self.values + added, bindings: self.bindings }
    }
}

/// The values and feeder bindings of one node.
#[derive(Debug)]
pub struct NodeValues {
    values: Vec<Value>,
    feeder_matches: Vec<(String, Matches)>,
}

/// The views of a sequence of bindings.
pub open spec fn bindings_view(s: Seq<(String, Matches)>) -> Seq<(Seq<char>, Seq<MatchView>)> {
    s.map_values(|b: (String, Matches)| (b.0@, b.1@))
}

impl View for NodeValues {
    type V = NodeView;

    closed spec fn view(&self) -> NodeView {
        NodeView { values: values_view(self.values@), bindings: bindings_view(self.feeder_matches@) }
    }
}

impl NodeValues {
    /// A node with no values and no bindings.
    pub fn new() -> (r: NodeValues)
        ensures
            r@.values == Seq::<ValueView>::empty(),
            r@.bindings == Seq::<(Seq<char>, Seq<MatchView>)>::empty(),
    {
        let r = NodeValues { values: Vec::new(), feeder_matches: Vec::new() };
        proof {
            assert(values_view(r.values@) =~= seq![]);
            assert(bindings_view(r.feeder_matches@) =~= seq![]);
        }
        r
    }

    /// Whether matches are bound under `feeder_name`.
    pub fn has_binding(&self, feeder_name: &str) -> (r: bool)
        ensures
            r == self@.has_binding(feeder_name@),
    {
        let mut i: usize = 0;
        while i < self.feeder_matches.len()
            invariant
                i <= self.feeder_matches@.len(),
                forall|k: int| 0 <= k < i ==> #[trigger] self@.bindings[k].0 != feeder_name@,
            decreases self.feeder_matches.len() - i,
        {
            assert(self@.bindings[i as int].0 == self.feeder_matches@[i as int].0@);
            if text_eq(self.feeder_matches[i].0.as_str(), feeder_name) {
                return true;
            }
            i += 1;
        }
        false
    }
}

impl Values for NodeValues {
    open spec fn spec_node(&self) -> NodeView {
        self@
    }

    fn node(&self) -> (r: &NodeValues) {
        self
    }

    /// Copies of the values, in the order they were appended.
    fn values(&self) -> (r: Vec<Value>) {
        let mut r: Vec<Value> = Vec::new();
        let mut i: usize = 0;
        while i < self.values.len()
            invariant
                i <= self.values@.len(),
                r@.len() == i,
                forall|k: int| 0 <= k < i ==> #[trigger] r@[k]@ == self.values@[k]@,
            decreases self.values.len() - i,
        {
            r.push(self.values[i].duplicate());
            i += 1;
        }
        proof {
            assert(values_view(r@) =~= values_view(self.values@));
        }
        r
    }

    /// Appends a value from `feeder`; nothing else changes.
    fn append(&mut self, feeder: &str, value: String) {
        let v = Value::new(feeder.to_string(), value);
        self.values.push(v);
        proof {
            assert(values_view(self.values@) =~= values_view(old(self).values@) + seq![(feeder@, value@)]);
        }
    }

    /// Binds `feeder_match` under `feeder_name`. Fails, changing nothing, when
    /// that name is already bound.
    fn add_feeder_matches(&mut self, feeder_name: &str, feeder_match: Matches) -> (r: Result<
        (),
        SetupError,
    >) {
        if self.has_binding(feeder_name) {
            Err(SetupError::DuplicateFeederBinding(feeder_name.to_string()))
        } else {
            self.feeder_matches.push((feeder_name.to_string(), feeder_match));
            proof {
                assert(bindings_view(self.feeder_matches@) =~= bindings_view(
                    old(self).feeder_matches@,
                ).push((feeder_name@, feeder_match@)));
            }
            Ok(())
        }
    }

    /// The matches bound under `feeder_name`, if any.
    fn get_feeder_matches(&self, feeder_name: &str) -> (r: Option<&Matches>) {
        let mut i: usize = 0;
        assert(self@.bindings.subrange(0, self@.bindings.len() as int) =~= self@.bindings);
        while i < self.feeder_matches.len()
            invariant
                i <= self.feeder_matches@.len(),
                lookup(self@.bindings, feeder_name@) == lookup(
                    self@.bindings.subrange(i as int, self@.bindings.len() as int),
                    feeder_name@,
                ),
            decreases self.feeder_matches.len() - i,
        {
            let ghost rest = self@.bindings.subrange(i as int, self@.bindings.len() as int);
            assert(rest[0] == self@.bindings[i as int]);
            assert(self@.bindings[i as int].0 == self.feeder_matches@[i as int].0@);
            assert(self@.bindings[i as int].1 == self.feeder_matches@[i as int].1@);
            if text_eq(self.feeder_matches[i].0.as_str(), feeder_name) {
                return Some(&self.feeder_matches[i].1);
            }
            assert(rest.subrange(1, rest.len() as int) =~= self@.bindings.subrange(
                i + 1,
                self@.bindings.len() as int,
            ));
            i += 1;
        }
        None
    }

    /// Copies of all bound matches, in the order they were bound.
    fn all_feeder_matches(&self) -> (r: Vec<Matches>) {
        let mut r: Vec<Matches> = Vec::new();
        let mut i: usize = 0;
        while i < self.feeder_matches.len()
            invariant
                i <= self.feeder_matches@.len(),
                r@.len() == i,
                forall|k: int| 0 <= k < i ==> #[trigger] r@[k]@ == self@.bindings[k].1,
            decreases self.feeder_matches.len() - i,
        {
            assert(self@.bindings[i as int].1 == self.feeder_matches@[i as int].1@);
            r.push(self.feeder_matches[i].1.duplicate());
            i += 1;
        }
        r
    }
}

} // verus!
