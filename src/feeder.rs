//! Matches, the handles by which a feeder marks the nodes it should resolve,
//! and the feeder protocol with the depth-first population walk.
use vstd::prelude::*;
use crate::error::{RunError, RunErrorView};
use crate::text::{lemma_names_drop_last, names_view};
use crate::tree::{
    Config, ConfigView, Element, ElementView, FieldView, element_view, elements_view,
    lemma_elements_view,
    lemma_elements_view_update,
};
use crate::values::{NodeView, ValueView, NodeValues};

verus! {

/// What a match holds: the index of the entry inside its feeder, and a label.
pub type MatchView = (usize, Seq<char>);

/// A handle minted by a feeder for one of its entries.
#[derive(Debug)]
pub struct Match {
    id_in_feeder: usize,
    repr: String,
}

impl View for Match {
    type V = MatchView;

    closed spec fn view(&self) -> MatchView {
        (self.id_in_feeder, self.repr@)
    }
}

impl Match {
    /// A handle for entry `id_in_feeder` of a feeder, labelled `repr` in help text.
    pub fn new(id_in_feeder: usize, repr: String) -> (r: Match)
        ensures
            r@ == (id_in_feeder, repr@),
    {
        Match { id_in_feeder, repr }
    }

    /// Index of the entry inside the feeder that minted this handle.
    pub fn id_in_feeder(&self) -> (r: usize)
        ensures
            r == self@.0,
    {
        self.id_in_feeder
    }

    /// Human-readable label.
    pub fn repr(&self) -> (r: &String)
        ensures
            r@ == self@.1,
    {
        &self.repr
    }

    pub fn duplicate(&self) -> (r: Match)
        ensures
            r@ == self@,
    {
        Match { id_in_feeder: self.id_in_feeder, repr: self.repr.clone() }
    }
}

/// The views of a sequence of matches.
pub open spec fn matches_view(s: Seq<Match>) -> Seq<MatchView> {
    s.map_values(|m: Match| m@)
}

/// Labels joined by `", "`.
pub open spec fn join_labels(s: Seq<MatchView>) -> Seq<char>
    decreases s.len(),
{
    if s.len() == 0 {
        seq![]
    } else if s.len() == 1 {
        s[0].1
    } else {
        join_labels(s.drop_last()) + seq![',', ' '] + s.last().1
    }
}

/// The ordered matches of one feeder attached to one node.
#[derive(Debug)]
pub struct Matches {
    matches: Vec<Match>,
}

impl View for Matches {
    type V = Seq<MatchView>;

    closed spec fn view(&self) -> Seq<MatchView> {
        matches_view(self.matches@)
    }
}

impl Matches {
    pub fn new(matches: Vec<Match>) -> (r: Matches)
        ensures
            r@ == matches_view(matches@),
    {
        Matches { matches }
    }

    /// All matches, in the order they were added.
    pub fn matches(&self) -> (r: &Vec<Match>)
        ensures
            matches_view(r@) == self@,
    {
        &self.matches
    }

    pub fn len(&self) -> (r: usize)
        ensures
            r == self@.len(),
    {
        self.matches.len()
    }

    /// The match at position `i`.
    pub fn get(&self, i: usize) -> (r: &Match)
        requires
            i < self@.len(),
        ensures
            r@ == self@[i as int],
    {
        &self.matches[i]
    }

    /// Appends a match at the end.
    pub fn add_match(&mut self, new_match: Match)
        ensures
            final(self)@ == old(self)@.push(new_match@),
    {
        self.matches.push(new_match);
        proof {
            assert(matches_view(self.matches@) =~= matches_view(old(self).matches@).push(new_match@));
        }
    }

    /// The labels of all matches, separated by `", "`, for help text.
    pub fn repr(&self) -> (r: String)
        ensures
            r@ == join_labels(self@),
    {
        let mut r = String::new();
        let mut i: usize = 0;
        while i < self.matches.len()
            invariant
                i <= self.matches@.len(),
                r@ == join_labels(self@.subrange(0, i as int)),
            decreases self.matches.len() - i,
        {
            proof {
                let s = self@.subrange(0, i + 1);
                assert(s.drop_last() =~= self@.subrange(0, i as int));
                assert(s.last() == self@[i as int]);
                assert(self@[i as int] == self.matches@[i as int]@);
                if i == 0 {
                    assert(s[0] == self@[0]);
                }
            }
            if i > 0 {
                proof {
                    reveal_strlit(", ");
                    assert(", "@ =~= seq![',', ' ']);
                }
                r.append(", ");
            }
            r.append(self.matches[i].repr.as_str());
            i += 1;
        }
        proof {
            assert(self@.subrange(0, self@.len() as int) =~= self@);
        }
        r
    }

    pub fn duplicate(&self) -> (r: Matches)
        ensures
            r@ == self@,
    {
        let mut v: Vec<Match> = Vec::new();
        let mut i: usize = 0;
        while i < self.matches.len()
            invariant
                i <= self.matches@.len(),
                v@.len() == i,
                forall|k: int| 0 <= k < i ==> #[trigger] v@[k]@ == self.matches@[k]@,
            decreases self.matches.len() - i,
        {
            v.push(self.matches[i].duplicate());
            i += 1;
        }
        proof {
            assert(matches_view(v@) =~= matches_view(self.matches@));
        }
        Matches { matches: v }
    }
}

/// The outcome of one feeder's walk over the config `c`, whose ancestors are
/// named `parents`: the config with every node resolved once, in pre-order,
/// or the first failure, placed at the failing node.
pub open spec fn populate_config<F: Feeder>(f: F, c: ConfigView, parents: Seq<Seq<char>>) -> Result<
    ConfigView,
    RunErrorView,
>
    decreases c,
{
    match f.spec_resolve(c.node) {
        Err(e) => Err(e.located(c.name, parents)),
        Ok(added) => match populate_elements(f, c.elements, parents.push(c.name)) {
            Ok(es) => Ok(ConfigView { node: c.node.appended(added), elements: es, ..c }),
            Err(e) => Err(e),
        },
    }
}

/// The walk over a sequence of sibling elements, left to right, stopping at
/// the first failure.
pub open spec fn populate_elements<F: Feeder>(
    f: F,
    es: Seq<ElementView>,
    parents: Seq<Seq<char>>,
) -> Result<Seq<ElementView>, RunErrorView>
    decreases es,
{
    if es.len() == 0 {
        Ok(seq![])
    } else {
        match populate_elements(f, es.subrange(0, es.len() - 1), parents) {
            Err(e) => Err(e),
            Ok(done) => match populate_element(f, es[es.len() - 1], parents) {
                Ok(x) => Ok(done.push(x)),
                Err(e) => Err(e),
            },
        }
    }
}

/// The walk over one element: a config is walked, a field is resolved.
pub open spec fn populate_element<F: Feeder>(f: F, e: ElementView, parents: Seq<Seq<char>>) -> Result<
    ElementView,
    RunErrorView,
>
    decreases e,
{
    match e {
        ElementView::Config(c) => match populate_config(f, c, parents) {
            Ok(x) => Ok(ElementView::Config(x)),
            Err(err) => Err(err),
        },
        ElementView::Field(fl) => match f.spec_resolve(fl.node) {
            Ok(added) => Ok(ElementView::Field(FieldView { node: fl.node.appended(added), ..fl })),
            Err(err) => Err(err.located(fl.name, parents)),
        },
    }
}

/// A failure within the first `k` siblings is the failure of the whole walk
/// over them.
pub proof fn lemma_populate_prefix_err<F: Feeder>(
    f: F,
    es: Seq<ElementView>,
    k: int,
    parents: Seq<Seq<char>>,
)
    requires
        0 <= k <= es.len(),
        populate_elements(f, es.subrange(0, k), parents) is Err,
    ensures
        populate_elements(f, es, parents) == populate_elements(f, es.subrange(0, k), parents),
    decreases es.len(),
{
    if k == es.len() {
        assert(es.subrange(0, k) =~= es);
    } else {
        let init = es.subrange(0, es.len() - 1);
        assert(init.subrange(0, k) =~= es.subrange(0, k));
        lemma_populate_prefix_err(f, init, k, parents);
    }
}

/// The config `c` as one feeder's walk leaves it, whether or not the walk
/// fails: every node resolved before the first failure holds its new values,
/// the failing node and every node after it are untouched.
pub open spec fn walked_config<F: Feeder>(f: F, c: ConfigView, parents: Seq<Seq<char>>) -> ConfigView
    decreases c,
{
    match f.spec_resolve(c.node) {
        Err(_) => c,
        Ok(added) => ConfigView {
            node: c.node.appended(added),
            elements: walked_elements(f, c.elements, parents.push(c.name)),
            ..c
        },
    }
}

/// Siblings as the walk leaves them: those up to the first failure walked,
/// the rest untouched.
pub open spec fn walked_elements<F: Feeder>(
    f: F,
    es: Seq<ElementView>,
    parents: Seq<Seq<char>>,
) -> Seq<ElementView>
    decreases es,
{
    if es.len() == 0 {
        seq![]
    } else {
        let init = es.subrange(0, es.len() - 1);
        if populate_elements(f, init, parents) is Err {
            walked_elements(f, init, parents).push(es[es.len() - 1])
        } else {
            walked_elements(f, init, parents).push(walked_element(f, es[es.len() - 1], parents))
        }
    }
}

/// One element as the walk leaves it.
pub open spec fn walked_element<F: Feeder>(f: F, e: ElementView, parents: Seq<Seq<char>>) -> ElementView
    decreases e,
{
    match e {
        ElementView::Config(c) => ElementView::Config(walked_config(f, c, parents)),
        ElementView::Field(fl) => match f.spec_resolve(fl.node) {
            Ok(added) => ElementView::Field(FieldView { node: fl.node.appended(added), ..fl }),
            Err(_) => e,
        },
    }
}

/// After a failure within the first `k` siblings, the later ones are left as
/// they were.
pub proof fn lemma_walked_prefix_err<F: Feeder>(
    f: F,
    es: Seq<ElementView>,
    k: int,
    parents: Seq<Seq<char>>,
)
    requires
        0 <= k <= es.len(),
        populate_elements(f, es.subrange(0, k), parents) is Err,
    ensures
        walked_elements(f, es, parents) == walked_elements(f, es.subrange(0, k), parents)
            + es.subrange(k, es.len() as int),
    decreases es.len(),
{
    if k == es.len() {
        assert(es.subrange(0, k) =~= es);
        assert(walked_elements(f, es, parents) + es.subrange(k, es.len() as int) =~= walked_elements(
            f,
            es,
            parents,
        ));
    } else {
        let init = es.subrange(0, es.len() - 1);
        assert(init.subrange(0, k) =~= es.subrange(0, k));
        lemma_walked_prefix_err(f, init, k, parents);
        lemma_populate_prefix_err(f, init, k, parents);
        assert(walked_elements(f, es.subrange(0, k), parents) + es.subrange(k, es.len() as int)
            =~= (walked_elements(f, es.subrange(0, k), parents) + init.subrange(
            k,
            init.len() as int,
        )).push(es[es.len() - 1]));
    }
}

/// A source of values for the tree.
pub trait Feeder: Sized {
    /// The feeder's name, unique among the feeders of one builder.
    spec fn spec_name(&self) -> Seq<char>;

    /// What resolving a node yields: the values to append to it, in order, or
    /// the failure.
    spec fn spec_resolve(&self, node: NodeView) -> Result<Seq<ValueView>, RunErrorView>;

    fn name(&self) -> (r: &str)
        ensures
            r@ == self.spec_name(),
    ;

    /// A feeder appends only under its own name, and nothing to a node that
    /// binds no matches under that name.
    proof fn lemma_resolve_rules(&self, node: NodeView)
        ensures
            node.matches_for(self.spec_name()) is None ==> self.spec_resolve(node) == Ok::<
                Seq<ValueView>,
                RunErrorView,
            >(seq![]),
            self.spec_resolve(node) matches Ok(added) ==> forall|k: int|
                0 <= k < added.len() ==> #[trigger] added[k].0 == self.spec_name(),
    ;

    /// Resolves one node: appends the values that this feeder finds for it.
    /// Only the node's values may change, and a failure changes nothing.
    fn process_matches(&self, element: &mut NodeValues) -> (r: Result<(), RunError>)
        ensures
            final(element)@.bindings == old(element)@.bindings,
            match self.spec_resolve(old(element)@) {
                Ok(added) => r is Ok && final(element)@.values == old(element)@.values + added,
                Err(e) => r matches Err(x) && x@ == e && final(element)@ == old(element)@,
            },
    ;
}

/// Walks the whole tree under `root` once, resolving every config and
/// field.
pub fn populate<F: Feeder>(feeder: &F, root: &mut Config) -> (r: Result<(), RunError>)
    ensures
        final(root)@ == walked_config(*feeder, old(root)@, seq![]),
        match populate_config(*feeder, old(root)@, seq![]) {
            Ok(c) => r is Ok && final(root)@ == c,
            Err(e) => r matches Err(x) && x@ == e,
        },
{
    let mut parents: Vec<String> = Vec::new();
    proof {
        assert(names_view(parents@) =~= seq![]);
    }
    dfs(feeder, root, &mut parents)
}

/// Depth-first walk from `config`, whose ancestors are named in `parents`:
/// resolves the config, then each child in declaration order.
pub fn dfs<F: Feeder>(feeder: &F, config: &mut Config, parents: &mut Vec<String>) -> (r: Result<
    (),
    RunError,
>)
    ensures
        names_view(final(parents)@) == names_view(old(parents)@),
        final(config)@ == walked_config(*feeder, old(config)@, names_view(old(parents)@)),
        match populate_config(*feeder, old(config)@, names_view(old(parents)@)) {
            Ok(c) => r is Ok && final(config)@ == c,
            Err(e) => r matches Err(x) && x@ == e,
        },
    decreases *old(config),
{
    let ghost c0 = config@;
    let ghost cfg0 = *config;
    let ghost ps = names_view(parents@);
    match feeder.process_matches(&mut config.values) {
        Ok(()) => {},
        Err(e) => {
            return Err(e.locate(&config.name, parents));
        },
    }
    let ghost resolved = config@;
    parents.push(config.name.clone());
    proof {
        assert(names_view(parents@) =~= ps.push(c0.name));
    }
    let ghost inner = names_view(parents@);
    let ghost es0 = config.elements@;
    proof {
        lemma_elements_view(es0);
        lemma_elements_view(config.elements@);
        assert(c0.elements.subrange(0, 0) =~= seq![]);
        assert(c0.elements == elements_view(es0));
    }
    let n = config.elements.len();
    let mut i: usize = 0;
    while i < n
        invariant
            i <= n,
            n == es0.len(),
            config.elements@.len() == n,
            elements_view(config.elements@).len() == n,
            config@.name == c0.name,
            config@.description == c0.description,
            config@.groups == c0.groups,
            config@.node == resolved.node,
            names_view(parents@) == inner,
            inner == ps.push(c0.name),
            es0.len() == c0.elements.len(),
            c0.elements == elements_view(es0),
            es0 == cfg0.elements@,
            cfg0 == *old(config),
            c0 == old(config)@,
            ps == names_view(old(parents)@),
            feeder.spec_resolve(c0.node) matches Ok(added) && resolved.node == c0.node.appended(
                added,
            ),
            forall|k: int| i <= k < n ==> #[trigger] config.elements@[k] == es0[k],
            forall|k: int| 0 <= k < n ==> #[trigger] elements_view(es0)[k] == element_view(es0[k]),
            populate_elements(*feeder, c0.elements.subrange(0, i as int), inner) == Ok::<
                Seq<ElementView>,
                RunErrorView,
            >(elements_view(config.elements@).subrange(0, i as int)),
            walked_elements(*feeder, c0.elements.subrange(0, i as int), inner) == elements_view(
                config.elements@,
            ).subrange(0, i as int),
        decreases n - i,
    {
        let ghost before = config.elements@;
        proof {
            lemma_elements_view(before);
        }
        let r = match &mut config.elements[i] {
            Element::Config(sub) => {
                proof {
                    assert(c0.elements[i as int] == ElementView::Config(sub@));
                    assert(decreases_to!(cfg0.elements => cfg0.elements[i as int]));
                    assert(decreases_to!(cfg0.elements[i as int] => cfg0.elements[i as int]->Config_0));
                }
                let res = dfs(feeder, sub, parents);
                proof {
                    assert(walked_element(*feeder, c0.elements[i as int], inner)
                        == ElementView::Config(sub@));
                    assert(res matches Err(x) ==> populate_element(*feeder, c0.elements[i as int], inner) == Err::<
                        ElementView,
                        RunErrorView,
                    >(x@));
                }
                res
            },
            Element::Field(field) => {
                let res = match feeder.process_matches(&mut field.values) {
                    Ok(()) => Ok(()),
                    Err(e) => Err(e.locate(&field.name, parents)),
                };
                proof {
                    assert(walked_element(*feeder, c0.elements[i as int], inner)
                        == ElementView::Field(field@));
                    assert(res matches Err(x) ==> populate_element(*feeder, c0.elements[i as int], inner) == Err::<
                        ElementView,
                        RunErrorView,
                    >(x@));
                }
                res
            },
        };
        proof {
            let s = c0.elements.subrange(0, i + 1);
            assert(s.subrange(0, i as int) =~= c0.elements.subrange(0, i as int));
            assert(s[i as int] == c0.elements[i as int]);
            lemma_elements_view_update(before, i as int, config.elements@[i as int]);
            assert(before.update(i as int, config.elements@[i as int]) =~= config.elements@);
        }
        match r {
            Ok(()) => {
                proof {
                    assert(elements_view(config.elements@).subrange(0, i + 1) =~= elements_view(
                        before,
                    ).subrange(0, i as int).push(element_view(config.elements@[i as int])));
                }
            },
            Err(e) => {
                proof {
                    lemma_populate_prefix_err(*feeder, c0.elements, i + 1, inner);
                    lemma_walked_prefix_err(*feeder, c0.elements, i + 1, inner);
                    lemma_elements_view(config.elements@);
                    let s = c0.elements.subrange(0, i + 1);
                    assert(s.subrange(0, i as int) =~= c0.elements.subrange(0, i as int));
                    assert(forall|k: int| i < k < n ==> #[trigger] config.elements@[k] == es0[k]);
                    assert(s[i as int] == c0.elements[i as int]);
                    assert(walked_elements(*feeder, s, inner) == walked_elements(
                        *feeder,
                        c0.elements.subrange(0, i as int),
                        inner,
                    ).push(walked_element(*feeder, c0.elements[i as int], inner)));
                    assert(element_view(config.elements@[i as int]) == walked_element(
                        *feeder,
                        c0.elements[i as int],
                        inner,
                    ));
                    assert(elements_view(config.elements@) =~= walked_elements(*feeder, s, inner)
                        + c0.elements.subrange(i + 1, n as int));
                }
                let ghost full = parents@;
                assert(names_view(full).len() == full.len());
                parents.pop();
                proof {
                    lemma_names_drop_last(full);
                    assert(inner.drop_last() =~= ps);
                }
                return Err(e);
            },
        }
        i += 1;
    }
    proof {
        lemma_elements_view(config.elements@);
        assert(c0.elements.subrange(0, n as int) =~= c0.elements);
        assert(elements_view(config.elements@).subrange(0, n as int) =~= elements_view(
            config.elements@,
        ));
    }
    let ghost full = parents@;
    parents.pop();
    proof {
        lemma_names_drop_last(full);
        assert(inner.drop_last() =~= ps);
    }
    Ok(())
}

} // verus!
