//! Properties of the population that relate several nodes or several calls.
use vstd::prelude::*;
use crate::builder::{has_feeder_named, populate_all};
use crate::error::RunErrorView;
use crate::feeder::{
    Feeder, MatchView, populate_config, populate_element, populate_elements, walked_config,
    walked_element, walked_elements,
};
use crate::tree::{ConfigView, ElementView};
use crate::values::{NodeView, lookup};

verus! {

/// The node reached from `c` by following child positions `path`: the
/// config itself for the empty path.
pub open spec fn node_at(c: ConfigView, path: Seq<int>) -> Option<ElementView>
    decreases path.len(),
{
    if path.len() == 0 {
        Some(ElementView::Config(c))
    } else if 0 <= path[0] < c.elements.len() {
        match c.elements[path[0]] {
            ElementView::Config(sub) => node_at(sub, path.drop_first()),
            ElementView::Field(f) => if path.len() == 1 {
                Some(ElementView::Field(f))
            } else {
                None
            },
        }
    } else {
        None
    }
}

/// Names of the configs from `c` down to the parent of the node at `path`.
pub open spec fn ancestors_at(c: ConfigView, path: Seq<int>) -> Seq<Seq<char>>
    decreases path.len(),
{
    if path.len() == 0 || !(0 <= path[0] < c.elements.len()) {
        seq![]
    } else {
        seq![c.name] + match c.elements[path[0]] {
            ElementView::Config(sub) => ancestors_at(sub, path.drop_first()),
            ElementView::Field(_) => seq![],
        }
    }
}

/// A successful walk over siblings walks each of them.
pub proof fn lemma_populate_elements_each<F: Feeder>(
    f: F,
    es: Seq<ElementView>,
    parents: Seq<Seq<char>>,
)
    requires
        populate_elements(f, es, parents) is Ok,
    ensures
        populate_elements(f, es, parents)->Ok_0.len() == es.len(),
        forall|i: int|
            0 <= i < es.len() ==> #[trigger] populate_element(f, es[i], parents) == Ok::<
                ElementView,
                RunErrorView,
            >(populate_elements(f, es, parents)->Ok_0[i]),
    decreases es.len(),
{
    if es.len() > 0 {
        let init = es.subrange(0, es.len() - 1);
        lemma_populate_elements_each(f, init, parents);
        assert forall|i: int| 0 <= i < es.len() implies #[trigger] populate_element(
            f,
            es[i],
            parents,
        ) == Ok::<ElementView, RunErrorView>(populate_elements(f, es, parents)->Ok_0[i]) by {
            if i < es.len() - 1 {
                assert(init[i] == es[i]);
            }
        }
    }
}

/// A failed walk over siblings failed on one of them, and on none before it:
/// the siblings after it are never walked.
pub proof fn lemma_populate_elements_fails_at<F: Feeder>(
    f: F,
    es: Seq<ElementView>,
    parents: Seq<Seq<char>>,
) -> (i: int)
    requires
        populate_elements(f, es, parents) is Err,
    ensures
        0 <= i < es.len(),
        populate_element(f, es[i], parents) == Err::<ElementView, RunErrorView>(
            populate_elements(f, es, parents)->Err_0,
        ),
        forall|j: int| 0 <= j < i ==> #[trigger] populate_element(f, es[j], parents) is Ok,
    decreases es.len(),
{
    let init = es.subrange(0, es.len() - 1);
    if populate_elements(f, init, parents) is Err {
        let i = lemma_populate_elements_fails_at(f, init, parents);
        assert(init[i] == es[i]);
        assert forall|j: int| 0 <= j < i implies #[trigger] populate_element(f, es[j], parents) is Ok by {
            assert(init[j] == es[j]);
        }
        i
    } else {
        lemma_populate_elements_each(f, init, parents);
        assert forall|j: int| 0 <= j < es.len() - 1 implies #[trigger] populate_element(
            f,
            es[j],
            parents,
        ) is Ok by {
            assert(init[j] == es[j]);
        }
        es.len() - 1
    }
}

/// Each node is resolved exactly once per feeder walk: a successful walk
/// keeps the shape of the tree, its names and its groups, and every config and
/// field it reaches ends with its old values followed by one resolution's
/// values, and nothing more.
pub proof fn lemma_each_node_resolved_once<F: Feeder>(
    f: F,
    c: ConfigView,
    parents: Seq<Seq<char>>,
    path: Seq<int>,
)
    requires
        populate_config(f, c, parents) is Ok,
    ensures
        ({
            let d = populate_config(f, c, parents)->Ok_0;
            &&& node_at(c, path) is Some <==> node_at(d, path) is Some
            &&& node_at(c, path) matches Some(before) ==> {
                let after = node_at(d, path)->Some_0;
                &&& after.name() == before.name()
                &&& (before is Config <==> after is Config)
                &&& (before matches ElementView::Config(bc) ==> after->Config_0.groups == bc.groups
                    && after->Config_0.elements.len() == bc.elements.len())
                &&& f.spec_resolve(before.node()) matches Ok(added)
                &&& after.node() == before.node().appended(added)
            }
        }),
    decreases path.len(),
{
    let d = populate_config(f, c, parents)->Ok_0;
    let inner = parents.push(c.name);
    lemma_populate_elements_each(f, c.elements, inner);
    if path.len() > 0 && 0 <= path[0] < c.elements.len() {
        let i = path[0];
        assert(populate_element(f, c.elements[i], inner) == Ok::<ElementView, RunErrorView>(
            d.elements[i],
        ));
        match c.elements[i] {
            ElementView::Config(sub) => {
                lemma_each_node_resolved_once(f, sub, inner, path.drop_first());
            },
            ElementView::Field(_) => {},
        }
    }
}

/// A failed walk reports the failure of one node, placed at that node with
/// the names of its ancestors from the root down to its parent.
pub proof fn lemma_failure_located<F: Feeder>(f: F, c: ConfigView, parents: Seq<Seq<char>>) -> (path:
    Seq<int>)
    requires
        populate_config(f, c, parents) is Err,
    ensures
        node_at(c, path) matches Some(x) && f.spec_resolve(x.node()) matches Err(e) && populate_config(
            f,
            c,
            parents,
        )->Err_0 == e.located(x.name(), parents + ancestors_at(c, path)),
    decreases c,
{
    if f.spec_resolve(c.node) is Err {
        let path = Seq::<int>::empty();
        assert(parents + ancestors_at(c, path) =~= parents);
        path
    } else {
        let inner = parents.push(c.name);
        let i = lemma_populate_elements_fails_at(f, c.elements, inner);
        match c.elements[i] {
            ElementView::Config(sub) => {
                assert(decreases_to!(c => c.elements));
                assert(decreases_to!(c.elements => c.elements[i]));
                assert(decreases_to!(c.elements[i] => c.elements[i]->Config_0));
                let q = lemma_failure_located(f, sub, inner);
                let path = seq![i] + q;
                assert(path.drop_first() =~= q);
                assert(parents + ancestors_at(c, path) =~= inner + ancestors_at(sub, q));
                path
            },
            ElementView::Field(_) => {
                let path = seq![i];
                assert(parents + ancestors_at(c, path) =~= inner);
                path
            },
        }
    }
}

/// Looking up a name that only the last binding has finds that binding.
pub proof fn lemma_lookup_last(
    bindings: Seq<(Seq<char>, Seq<MatchView>)>,
    name: Seq<char>,
    ms: Seq<MatchView>,
)
    requires
        forall|i: int| 0 <= i < bindings.len() ==> #[trigger] bindings[i].0 != name,
    ensures
        lookup(bindings.push((name, ms)), name) == Some(ms),
    decreases bindings.len(),
{
    let all = bindings.push((name, ms));
    if bindings.len() > 0 {
        let rest = bindings.subrange(1, bindings.len() as int);
        assert(all.subrange(1, all.len() as int) =~= rest.push((name, ms)));
        assert(bindings[0].0 != name);
        lemma_lookup_last(rest, name, ms);
    }
}

/// After matches are bound to a node under a name it did not bind, the name
/// is bound, so any later binding under it is refused, and the matches found
/// under it are the first ones. Names stay unique.
pub proof fn lemma_first_binding_kept(node: NodeView, name: Seq<char>, first: Seq<MatchView>)
    requires
        !node.has_binding(name),
    ensures
        ({
            let after = NodeView { values: node.values, bindings: node.bindings.push((name, first)) };
            &&& after.has_binding(name)
            &&& after.matches_for(name) == Some(first)
            &&& node.unique_bindings() ==> after.unique_bindings()
        }),
{
    let after = NodeView { values: node.values, bindings: node.bindings.push((name, first)) };
    assert(after.bindings[node.bindings.len() as int].0 == name);
    lemma_lookup_last(node.bindings, name, first);
    if node.unique_bindings() {
        assert forall|i: int, j: int|
            0 <= i < after.bindings.len() && 0 <= j < after.bindings.len() && i != j implies #[trigger] after.bindings[i].0
            != #[trigger] after.bindings[j].0 by {
            if i < node.bindings.len() && j < node.bindings.len() {
                assert(node.bindings[i].0 != node.bindings[j].0);
            } else if i < node.bindings.len() {
                assert(node.bindings[i].0 != name);
            } else {
                assert(node.bindings[j].0 != name);
            }
        }
    }
}

/// No two of `fs` share a name.
pub open spec fn unique_feeder_names<F: Feeder>(fs: Seq<F>) -> bool {
    forall|i: int, j: int|
        0 <= i < fs.len() && 0 <= j < fs.len() && i != j ==> #[trigger] fs[i].spec_name()
            != #[trigger] fs[j].spec_name()
}

/// Once a feeder is registered, a second one of the same name is refused
/// (see `Builder::add_feeder`) and the first stays, last in line. Names stay
/// unique.
pub proof fn lemma_first_feeder_kept<F: Feeder>(fs: Seq<F>, first: F, second: F)
    requires
        !has_feeder_named(fs, first.spec_name()),
        second.spec_name() == first.spec_name(),
    ensures
        has_feeder_named(fs.push(first), second.spec_name()),
        fs.push(first).last() == first,
        unique_feeder_names(fs) ==> unique_feeder_names(fs.push(first)),
{
    let all = fs.push(first);
    assert(all[fs.len() as int].spec_name() == second.spec_name());
    if unique_feeder_names(fs) {
        assert forall|i: int, j: int|
            0 <= i < all.len() && 0 <= j < all.len() && i != j implies #[trigger] all[i].spec_name()
            != #[trigger] all[j].spec_name() by {
            if i < fs.len() && j < fs.len() {
                assert(fs[i].spec_name() != fs[j].spec_name());
            } else if i < fs.len() {
                assert(fs[i].spec_name() != first.spec_name());
            } else {
                assert(fs[j].spec_name() != first.spec_name());
            }
        }
    }
}

/// A node's values and bindings after each feeder of `fs`, in order, resolved
/// it once; `None` if one of them failed.
pub open spec fn resolved_by_each<F: Feeder>(fs: Seq<F>, node: NodeView) -> Option<NodeView>
    decreases fs.len(),
{
    if fs.len() == 0 {
        Some(node)
    } else {
        match resolved_by_each(fs.drop_last(), node) {
            None => None,
            Some(n) => match fs.last().spec_resolve(n) {
                Ok(added) => Some(n.appended(added)),
                Err(_) => None,
            },
        }
    }
}

/// A successful build keeps the shape and names of the tree, and every config
/// and field ends as if each feeder, in registration order, had resolved it
/// exactly once.
pub proof fn lemma_build_resolves_each_node_once<F: Feeder>(
    fs: Seq<F>,
    c: ConfigView,
    path: Seq<int>,
)
    requires
        populate_all(fs, c) is Ok,
    ensures
        ({
            let d = populate_all(fs, c)->Ok_0;
            &&& node_at(c, path) is Some <==> node_at(d, path) is Some
            &&& node_at(c, path) matches Some(before) ==> {
                let after = node_at(d, path)->Some_0;
                &&& after.name() == before.name()
                &&& resolved_by_each(fs, before.node()) == Some(after.node())
            }
        }),
    decreases fs.len(),
{
    if fs.len() > 0 {
        let init = fs.drop_last();
        lemma_build_resolves_each_node_once(init, c, path);
        let m = populate_all(init, c)->Ok_0;
        lemma_each_node_resolved_once(fs.last(), m, seq![], path);
    }
}

/// The node `after` is the node `before` with values appended: same kind,
/// name and bindings, and the old values are a prefix of the new ones.
pub open spec fn only_appended(before: ElementView, after: ElementView) -> bool {
    &&& after.name() == before.name()
    &&& (before is Config <==> after is Config)
    &&& after.node().bindings == before.node().bindings
    &&& before.node().values.len() <= after.node().values.len()
    &&& after.node().values.subrange(0, before.node().values.len() as int) == before.node().values
}

/// Each sibling is left either as it was or as its own walk leaves it.
pub proof fn lemma_walked_elements_each<F: Feeder>(
    f: F,
    es: Seq<ElementView>,
    parents: Seq<Seq<char>>,
)
    ensures
        walked_elements(f, es, parents).len() == es.len(),
        forall|i: int|
            0 <= i < es.len() ==> #[trigger] walked_elements(f, es, parents)[i] == es[i]
                || walked_elements(f, es, parents)[i] == walked_element(f, es[i], parents),
    decreases es.len(),
{
    if es.len() > 0 {
        let init = es.subrange(0, es.len() - 1);
        lemma_walked_elements_each(f, init, parents);
        assert forall|i: int| 0 <= i < es.len() implies #[trigger] walked_elements(f, es, parents)[i]
            == es[i] || walked_elements(f, es, parents)[i] == walked_element(f, es[i], parents) by {
            if i < es.len() - 1 {
                assert(init[i] == es[i]);
            }
        }
    }
}

/// A walk, whether or not it fails, keeps the shape of the tree and the names,
/// kinds and bindings of its nodes, and only appends to their values: values
/// appended before a failure are kept, and nothing is removed or changed in
/// place.
pub proof fn lemma_walk_only_appends<F: Feeder>(
    f: F,
    c: ConfigView,
    parents: Seq<Seq<char>>,
    path: Seq<int>,
)
    ensures
        node_at(c, path) is Some <==> node_at(walked_config(f, c, parents), path) is Some,
        node_at(c, path) matches Some(before) ==> only_appended(
            before,
            node_at(walked_config(f, c, parents), path)->Some_0,
        ),
    decreases path.len(),
{
    let w = walked_config(f, c, parents);
    let inner = parents.push(c.name);
    if f.spec_resolve(c.node) is Ok {
        lemma_walked_elements_each(f, c.elements, inner);
    }
    if path.len() == 0 {
        let added = f.spec_resolve(c.node);
        if added is Ok {
            assert(w.node.values.subrange(0, c.node.values.len() as int) =~= c.node.values);
        } else {
            assert(c.node.values.subrange(0, c.node.values.len() as int) =~= c.node.values);
        }
    } else if 0 <= path[0] < c.elements.len() && f.spec_resolve(c.node) is Ok {
        let i = path[0];
        let e = c.elements[i];
        if w.elements[i] == e {
            lemma_unchanged_only_appended(e, path.drop_first());
        } else {
            match e {
                ElementView::Config(sub) => {
                    lemma_walk_only_appends(f, sub, inner, path.drop_first());
                },
                ElementView::Field(fl) => {
                    if path.len() == 1 {
                        assert(w.elements[i].node().values.subrange(0, fl.node.values.len() as int)
                            =~= fl.node.values);
                    }
                },
            }
        }
    } else if 0 <= path[0] < c.elements.len() {
        lemma_unchanged_only_appended(ElementView::Config(c), path);
    }
}

/// An untouched subtree trivially meets `only_appended` everywhere.
pub proof fn lemma_unchanged_only_appended(e: ElementView, path: Seq<int>)
    ensures
        match e {
            ElementView::Config(c) => node_at(c, path) matches Some(x) ==> only_appended(x, x),
            ElementView::Field(_) => only_appended(e, e),
        },
{
    match e {
        ElementView::Config(c) => {
            if node_at(c, path) is Some {
                let x = node_at(c, path)->Some_0;
                assert(x.node().values.subrange(0, x.node().values.len() as int) =~= x.node().values);
            }
        },
        ElementView::Field(_) => {
            assert(e.node().values.subrange(0, e.node().values.len() as int) =~= e.node().values);
        },
    }
}

} // verus!
