//! The configuration tree: configs that own their child elements, fields
//! (leaves), and groups that point at a config's own elements by position.
use vstd::prelude::*;
use crate::error::SetupError;
use crate::feeder::Matches;
use crate::common::{
    Description, ElementConverter, FieldContainer, Members, Named, Node, Values,
};
use crate::text::opt_view;
use crate::value::Value;
use crate::values::{NodeView, NodeValues, values_view};

verus! {

pub struct FieldView {
    pub name: Seq<char>,
    pub description: Option<Seq<char>>,
    pub node: NodeView,
}

pub struct GroupView {
    pub name: Seq<char>,
    pub description: Option<Seq<char>>,
    /// Positions, among the owning config's elements, of the members.
    pub members: Seq<usize>,
}

pub struct ConfigView {
    pub name: Seq<char>,
    pub description: Option<Seq<char>>,
    pub node: NodeView,
    pub elements: Seq<ElementView>,
    pub groups: Seq<GroupView>,
}

pub enum ElementView {
    Config(ConfigView),
    Field(FieldView),
}

impl ElementView {
    pub open spec fn name(self) -> Seq<char> {
        match self {
            ElementView::Config(c) => c.name,
            ElementView::Field(f) => f.name,
        }
    }

    pub open spec fn node(self) -> NodeView {
        match self {
            ElementView::Config(c) => c.node,
            ElementView::Field(f) => f.node,
        }
    }
}

/// A leaf of the tree.
#[derive(Debug)]
pub struct Field {
    pub(crate) name: String,
    pub(crate) description: Option<String>,
    pub(crate) values: NodeValues,
}

impl View for Field {
    type V = FieldView;

    open(crate) spec fn view(&self) -> FieldView {
        FieldView { name: self.name@, description: opt_view(self.description), node: self.values@ }
    }
}

/// A named view over some of a config's elements, used to present them
/// together. It holds positions, never the elements themselves.
#[derive(Debug)]
pub struct Group {
    name: String,
    description: Option<String>,
    members: Vec<usize>,
}

impl View for Group {
    type V = GroupView;

    closed spec fn view(&self) -> GroupView {
        GroupView { name: self.name@, description: opt_view(self.description), members: self.members@ }
    }
}

pub open spec fn groups_view(s: Seq<Group>) -> Seq<GroupView> {
    s.map_values(|g: Group| g@)
}

/// An inner node: owns its child elements in declaration order, and its groups.
#[derive(Debug)]
pub struct Config {
    pub(crate) name: String,
    pub(crate) description: Option<String>,
    pub(crate) values: NodeValues,
    pub(crate) elements: Vec<Element>,
    pub(crate) groups: Vec<Group>,
}

/// A node of the tree.
#[derive(Debug)]
pub enum Element {
    Config(Config),
    Field(Field),
}

pub open(crate) spec fn config_view(c: Config) -> ConfigView
    decreases c,
{
    ConfigView {
        name: c.name@,
        description: opt_view(c.description),
        node: c.values@,
        elements: elements_view(c.elements@),
        groups: groups_view(c.groups@),
    }
}

pub open spec fn element_view(e: Element) -> ElementView
    decreases e,
{
    match e {
        Element::Config(c) => ElementView::Config(config_view(c)),
        Element::Field(f) => ElementView::Field(f@),
    }
}

pub open spec fn elements_view(es: Seq<Element>) -> Seq<ElementView>
    decreases es,
{
    if es.len() == 0 {
        seq![]
    } else {
        elements_view(es.subrange(0, es.len() - 1)).push(element_view(es[es.len() - 1]))
    }
}

impl View for Config {
    type V = ConfigView;

    open spec fn view(&self) -> ConfigView {
        config_view(*self)
    }
}

impl View for Element {
    type V = ElementView;

    open spec fn view(&self) -> ElementView {
        element_view(*self)
    }
}

/// The view of a sequence of elements holds the view of each, in order.
pub proof fn lemma_elements_view(es: Seq<Element>)
    ensures
        elements_view(es).len() == es.len(),
        forall|i: int| 0 <= i < es.len() ==> #[trigger] elements_view(es)[i] == element_view(es[i]),
    decreases es.len(),
{
    if es.len() > 0 {
        let init = es.subrange(0, es.len() - 1);
        lemma_elements_view(init);
        assert forall|i: int| 0 <= i < es.len() implies #[trigger] elements_view(es)[i]
            == element_view(es[i]) by {
            if i < es.len() - 1 {
                assert(init[i] == es[i]);
            }
        }
    }
}

/// Replacing one element replaces its view.
pub proof fn lemma_elements_view_update(es: Seq<Element>, i: int, e: Element)
    requires
        0 <= i < es.len(),
    ensures
        elements_view(es.update(i, e)) == elements_view(es).update(i, element_view(e)),
{
    lemma_elements_view(es);
    lemma_elements_view(es.update(i, e));
    assert(elements_view(es.update(i, e)) =~= elements_view(es).update(i, element_view(e)));
}

/// Appending one element appends its view.
pub proof fn lemma_elements_view_push(es: Seq<Element>, e: Element)
    ensures
        elements_view(es.push(e)) == elements_view(es).push(element_view(e)),
{
    assert(es.push(e).subrange(0, es.len() as int) =~= es);
}

impl Field {
    /// A field with no description, values or bindings.
    pub fn new(name: &str) -> (r: Field)
        ensures
            r@.name == name@,
            r@.description is None,
            r@.node.values.len() == 0,
            r@.node.bindings.len() == 0,
    {
        Field { name: name.to_string(), description: None, values: NodeValues::new() }
    }

    /// The same field, with a description for help text.
    pub fn with_description(self, description: &str) -> (r: Field)
        ensures
            r@ == (FieldView { description: Some(description@), ..self@ }),
    {
        Field { description: Some(description.to_string()), ..self }
    }
}

impl Named for Field {
    open spec fn spec_name(&self) -> Seq<char> {
        self@.name
    }

    fn name(&self) -> (r: &String) {
        &self.name
    }
}

impl Description for Field {
    open spec fn spec_description(&self) -> Option<Seq<char>> {
        self@.description
    }

    fn description(&self) -> (r: Option<&String>) {
        match &self.description {
            Some(d) => Some(d),
            None => None,
        }
    }
}

impl Values for Field {
    open spec fn spec_node(&self) -> NodeView {
        self@.node
    }

    fn node(&self) -> (r: &NodeValues) {
        &self.values
    }

    fn values(&self) -> (r: Vec<Value>) {
        self.values.values()
    }

    fn append(&mut self, feeder: &str, value: String)
        ensures
            final(self)@ == (FieldView { node: final(self)@.node, ..old(self)@ }),
    {
        self.values.append(feeder, value)
    }

    fn add_feeder_matches(&mut self, feeder_name: &str, feeder_match: Matches) -> (r: Result<
        (),
        SetupError,
    >)
        ensures
            final(self)@ == (FieldView { node: final(self)@.node, ..old(self)@ }),
    {
        self.values.add_feeder_matches(feeder_name, feeder_match)
    }

    fn get_feeder_matches(&self, feeder_name: &str) -> (r: Option<&Matches>) {
        self.values.get_feeder_matches(feeder_name)
    }

    fn all_feeder_matches(&self) -> (r: Vec<Matches>) {
        self.values.all_feeder_matches()
    }
}

impl Group {
    /// A group presenting the elements at positions `members` of the config it
    /// is added to.
    pub fn new(name: &str, members: Vec<usize>) -> (r: Group)
        ensures
            r@ == (GroupView { name: name@, description: None, members: members@ }),
    {
        Group { name: name.to_string(), description: None, members }
    }

    /// The same group, with a description for help text.
    pub fn with_description(self, description: &str) -> (r: Group)
        ensures
            r@ == (GroupView { description: Some(description@), ..self@ }),
    {
        Group { description: Some(description.to_string()), ..self }
    }
}

impl Members for Group {
    open spec fn spec_members(&self) -> Seq<usize> {
        self@.members
    }

    fn members(&self) -> (r: &Vec<usize>) {
        &self.members
    }
}

impl Named for Group {
    open spec fn spec_name(&self) -> Seq<char> {
        self@.name
    }

    fn name(&self) -> (r: &String) {
        &self.name
    }
}

impl Description for Group {
    open spec fn spec_description(&self) -> Option<Seq<char>> {
        self@.description
    }

    fn description(&self) -> (r: Option<&String>) {
        match &self.description {
            Some(d) => Some(d),
            None => None,
        }
    }
}

impl Config {
    /// A config with no description, values, bindings, elements or groups.
    pub fn new(name: &str) -> (r: Config)
        ensures
            r@.name == name@,
            r@.description is None,
            r@.node.values.len() == 0,
            r@.node.bindings.len() == 0,
            r@.elements.len() == 0,
            r@.groups.len() == 0,
    {
        let r = Config {
            name: name.to_string(),
            description: None,
            values: NodeValues::new(),
            elements: Vec::new(),
            groups: Vec::new(),
        };
        proof {
            assert(groups_view(r.groups@) =~= seq![]);
        }
        r
    }

    /// The same config, with a description for help text.
    pub fn with_description(self, description: &str) -> (r: Config)
        ensures
            r@ == (ConfigView { description: Some(description@), ..self@ }),
    {
        Config { description: Some(description.to_string()), ..self }
    }

    /// Adds a nested config after the existing elements.
    pub fn add_config(self, config: Config) -> (r: Result<Config, SetupError>)
        ensures
            r matches Ok(c) && c@ == (ConfigView {
                elements: self@.elements.push(ElementView::Config(config@)),
                ..self@
            }),
    {
        let mut s = self;
        let ghost es = s.elements@;
        s.elements.push(Element::Config(config));
        proof {
            lemma_elements_view_push(es, Element::Config(config));
        }
        Ok(s)
    }

    /// Adds a group. Every member must be the position of an element already
    /// added; otherwise the first member that is not is reported.
    pub fn add_group(self, group: Group) -> (r: Result<Config, SetupError>)
        ensures
            (forall|k: int| 0 <= k < group@.members.len() ==> #[trigger] group@.members[k]
                < self@.elements.len()) ==> (r matches Ok(c) && c@ == (ConfigView {
                groups: self@.groups.push(group@),
                ..self@
            })),
            (exists|k: int| 0 <= k < group@.members.len() && #[trigger] group@.members[k]
                >= self@.elements.len()) ==> (r matches Err(SetupError::UnknownGroupMember(m))
                && m >= self@.elements.len() && group@.members.contains(m)),
    {
        let mut i: usize = 0;
        while i < group.members.len()
            invariant
                i <= group.members@.len(),
                forall|k: int| 0 <= k < i ==> #[trigger] group.members@[k] < self.elements@.len(),
            decreases group.members.len() - i,
        {
            let m = group.members[i];
            if m >= self.elements.len() {
                proof {
                    lemma_elements_view(self.elements@);
                    assert(group@.members[i as int] == m);
                }
                return Err(SetupError::UnknownGroupMember(m));
            }
            i += 1;
        }
        proof {
            lemma_elements_view(self.elements@);
        }
        let mut s = self;
        s.groups.push(group);
        proof {
            assert(groups_view(s.groups@) =~= groups_view(self.groups@).push(group@));
        }
        Ok(s)
    }
}

impl Named for Config {
    open spec fn spec_name(&self) -> Seq<char> {
        self@.name
    }

    fn name(&self) -> (r: &String) {
        &self.name
    }
}

impl Description for Config {
    open spec fn spec_description(&self) -> Option<Seq<char>> {
        self@.description
    }

    fn description(&self) -> (r: Option<&String>) {
        match &self.description {
            Some(d) => Some(d),
            None => None,
        }
    }
}

impl Node for Config {
    open spec fn spec_elements(&self) -> Seq<ElementView> {
        self@.elements
    }

    open spec fn spec_groups(&self) -> Seq<GroupView> {
        self@.groups
    }

    fn elements(&self) -> (r: &Vec<Element>) {
        &self.elements
    }

    fn groups(&self) -> (r: &Vec<Group>) {
        &self.groups
    }
}

impl FieldContainer for Config {
    fn add_field(self, field: Field) -> (r: Result<Config, SetupError>)
        ensures
            r matches Ok(c) && c@ == (ConfigView {
                elements: self@.elements.push(ElementView::Field(field@)),
                ..self@
            }),
    {
        let mut s = self;
        let ghost es = s.elements@;
        s.elements.push(Element::Field(field));
        proof {
            lemma_elements_view_push(es, Element::Field(field));
        }
        Ok(s)
    }
}

impl Values for Config {
    open spec fn spec_node(&self) -> NodeView {
        self@.node
    }

    fn node(&self) -> (r: &NodeValues) {
        &self.values
    }

    fn values(&self) -> (r: Vec<Value>) {
        self.values.values()
    }

    fn append(&mut self, feeder: &str, value: String)
        ensures
            final(self)@ == (ConfigView { node: final(self)@.node, ..old(self)@ }),
    {
        self.values.append(feeder, value)
    }

    fn add_feeder_matches(&mut self, feeder_name: &str, feeder_match: Matches) -> (r: Result<
        (),
        SetupError,
    >)
        ensures
            final(self)@ == (ConfigView { node: final(self)@.node, ..old(self)@ }),
    {
        self.values.add_feeder_matches(feeder_name, feeder_match)
    }

    fn get_feeder_matches(&self, feeder_name: &str) -> (r: Option<&Matches>) {
        self.values.get_feeder_matches(feeder_name)
    }

    fn all_feeder_matches(&self) -> (r: Vec<Matches>) {
        self.values.all_feeder_matches()
    }
}

impl Named for Element {
    open spec fn spec_name(&self) -> Seq<char> {
        self@.name()
    }

    fn name(&self) -> (r: &String) {
        match self {
            Element::Config(c) => &c.name,
            Element::Field(f) => &f.name,
        }
    }
}

impl Description for Element {
    open spec fn spec_description(&self) -> Option<Seq<char>> {
        match self@ {
            ElementView::Config(c) => c.description,
            ElementView::Field(f) => f.description,
        }
    }

    fn description(&self) -> (r: Option<&String>) {
        match self {
            Element::Config(c) => c.description(),
            Element::Field(f) => f.description(),
        }
    }
}

impl Values for Element {
    open spec fn spec_node(&self) -> NodeView {
        self@.node()
    }

    fn node(&self) -> (r: &NodeValues) {
        match self {
            Element::Config(c) => &c.values,
            Element::Field(f) => &f.values,
        }
    }

    fn values(&self) -> (r: Vec<Value>) {
        self.node().values()
    }

    fn append(&mut self, feeder: &str, value: String)
        ensures
            final(self)@ == match old(self)@ {
                ElementView::Config(c) => ElementView::Config(
                    ConfigView { node: final(self).spec_node(), ..c },
                ),
                ElementView::Field(f) => ElementView::Field(
                    FieldView { node: final(self).spec_node(), ..f },
                ),
            },
    {
        match self {
            Element::Config(c) => c.append(feeder, value),
            Element::Field(f) => f.append(feeder, value),
        }
    }

    fn add_feeder_matches(&mut self, feeder_name: &str, feeder_match: Matches) -> (r: Result<
        (),
        SetupError,
    >)
        ensures
            final(self)@ == match old(self)@ {
                ElementView::Config(c) => ElementView::Config(
                    ConfigView { node: final(self).spec_node(), ..c },
                ),
                ElementView::Field(f) => ElementView::Field(
                    FieldView { node: final(self).spec_node(), ..f },
                ),
            },
    {
        match self {
            Element::Config(c) => c.add_feeder_matches(feeder_name, feeder_match),
            Element::Field(f) => f.add_feeder_matches(feeder_name, feeder_match),
        }
    }

    fn get_feeder_matches(&self, feeder_name: &str) -> (r: Option<&Matches>) {
        self.node().get_feeder_matches(feeder_name)
    }

    fn all_feeder_matches(&self) -> (r: Vec<Matches>) {
        self.node().all_feeder_matches()
    }
}

impl ElementConverter for Element {
    open spec fn spec_element(&self) -> ElementView {
        self@
    }

    fn as_config(&self) -> (r: Option<&Config>) {
        match self {
            Element::Config(c) => Some(c),
            Element::Field(_) => None,
        }
    }

    fn as_field(&self) -> (r: Option<&Field>) {
        match self {
            Element::Field(f) => Some(f),
            Element::Config(_) => None,
        }
    }
}

} // verus!
