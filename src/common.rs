//! The capabilities that the nodes of the tree share.
use vstd::prelude::*;
use crate::error::SetupError;
use crate::feeder::Matches;
use crate::tree::{
    Config, Element, ElementView, Field, Group, GroupView, elements_view, groups_view,
};
use crate::value::Value;
use crate::values::{NodeValues, NodeView, values_view};

verus! {

/// The text of an optional borrowed string.
pub open spec fn opt_ref_view(s: Option<&String>) -> Option<Seq<char>> {
    match s {
        Some(t) => Some(t@),
        None => None,
    }
}

/// Something with a name.
pub trait Named {
    spec fn spec_name(&self) -> Seq<char>;

    fn name(&self) -> (r: &String)
        ensures
            r@ == self.spec_name(),
    ;
}

/// Something with an optional description, for help text.
pub trait Description {
    spec fn spec_description(&self) -> Option<Seq<char>>;

    fn description(&self) -> (r: Option<&String>)
        ensures
            opt_ref_view(r) == self.spec_description(),
    ;
}

/// A node's values and feeder bindings.
pub trait Values {
    spec fn spec_node(&self) -> NodeView;

    /// The values and bindings themselves.
    fn node(&self) -> (r: &NodeValues)
        ensures
            r@ == self.spec_node(),
    ;

    /// Copies of the values, in the order they were appended.
    fn values(&self) -> (r: Vec<Value>)
        ensures
            values_view(r@) == self.spec_node().values,
    ;

    /// Appends a value from `feeder`; the bindings do not change.
    fn append(&mut self, feeder: &str, value: String)
        ensures
            final(self).spec_node() == old(self).spec_node().appended(seq![(feeder@, value@)]),
    ;

    /// Binds `feeder_match` under `feeder_name`. Fails, changing nothing, when
    /// that name is already bound.
    fn add_feeder_matches(&mut self, feeder_name: &str, feeder_match: Matches) -> (r: Result<
        (),
        SetupError,
    >)
        ensures
            old(self).spec_node().has_binding(feeder_name@) ==> (r matches Err(
                SetupError::DuplicateFeederBinding(n),
            ) && n@ == feeder_name@ && final(self).spec_node() == old(self).spec_node()),
            !old(self).spec_node().has_binding(feeder_name@) ==> (r is Ok && final(self).spec_node()
                == NodeView {
                values: old(self).spec_node().values,
                bindings: old(self).spec_node().bindings.push((feeder_name@, feeder_match@)),
            }),
    ;

    /// The matches bound under `feeder_name`, if any.
    fn get_feeder_matches(&self, feeder_name: &str) -> (r: Option<&Matches>)
        ensures
            match self.spec_node().matches_for(feeder_name@) {
                Some(ms) => r matches Some(m) && m@ == ms,
                None => r is None,
            },
    ;

    /// Copies of all bound matches, in the order they were bound.
    fn all_feeder_matches(&self) -> (r: Vec<Matches>)
        ensures
            r@.len() == self.spec_node().bindings.len(),
            forall|k: int|
                0 <= k < r@.len() ==> #[trigger] r@[k]@ == self.spec_node().bindings[k].1,
    ;
}

/// A view over some elements of a config.
pub trait Members {
    spec fn spec_members(&self) -> Seq<usize>;

    /// Positions of the members among the owning config's elements.
    fn members(&self) -> (r: &Vec<usize>)
        ensures
            r@ == self.spec_members(),
    ;
}

/// An inner node: child elements and groups.
pub trait Node {
    spec fn spec_elements(&self) -> Seq<ElementView>;

    spec fn spec_groups(&self) -> Seq<GroupView>;

    /// The child elements, in declaration order.
    fn elements(&self) -> (r: &Vec<Element>)
        ensures
            elements_view(r@) == self.spec_elements(),
    ;

    /// The groups, in the order they were added.
    fn groups(&self) -> (r: &Vec<Group>)
        ensures
            groups_view(r@) == self.spec_groups(),
    ;
}

/// A node that fields can be added to.
pub trait FieldContainer: Node + Sized {
    /// Adds a field after the existing elements.
    fn add_field(self, field: Field) -> (r: Result<Self, SetupError>)
        ensures
            r matches Ok(c) && c.spec_elements() == self.spec_elements().push(
                ElementView::Field(field@),
            ),
    ;
}

/// Telling the two kinds of element apart.
pub trait ElementConverter {
    spec fn spec_element(&self) -> ElementView;

    /// The config this is, if it is one.
    fn as_config(&self) -> (r: Option<&Config>)
        ensures
            self.spec_element() matches ElementView::Config(c) ==> r matches Some(x) && x@ == c,
            self.spec_element() is Field ==> r is None,
    ;

    /// The field this is, if it is one.
    fn as_field(&self) -> (r: Option<&Field>)
        ensures
            self.spec_element() matches ElementView::Field(f) ==> r matches Some(x) && x@ == f,
            self.spec_element() is Config ==> r is None,
    ;
}

} // verus!
