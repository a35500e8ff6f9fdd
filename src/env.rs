//! A feeder over a table of named variables, as a process environment
//! provides them.
use vstd::prelude::*;
use crate::common::Values;
use crate::error::{RunError, RunErrorView};
use crate::feeder::{Feeder, Match, MatchView, Matches, join_labels};
use crate::text::text_eq;
use crate::values::{NodeView, ValueView, NodeValues};

verus! {

/// What to do with a match whose variable is not in the table.
#[derive(Debug, Clone, Copy, PartialEq, Eq, Structural)]
pub enum MissingPolicy {
    /// Contribute nothing for it.
    Skip,
    /// Fail the resolution of the node.
    Fail,
}

/// The value of the last variable named `key`, as a map built from the
/// variables in order would hold it.
pub open spec fn var_value(vars: Seq<(Seq<char>, Seq<char>)>, key: Seq<char>) -> Option<Seq<char>>
    decreases vars.len(),
{
    if vars.len() == 0 {
        None
    } else if vars.last().0 == key {
        Some(vars.last().1)
    } else {
        var_value(vars.drop_last(), key)
    }
}

/// The value behind the match with index `id`: none for an index this feeder
/// never handed out.
pub open spec fn match_value(
    vars: Seq<(Seq<char>, Seq<char>)>,
    keys: Seq<Seq<char>>,
    id: usize,
) -> Option<Seq<char>> {
    if id < keys.len() {
        var_value(vars, keys[id as int])
    } else {
        None
    }
}

/// The message of the failure for a match labelled `label` without a value.
pub open spec fn missing_msg(label: Seq<char>) -> Seq<char> {
    "no value for "@ + label
}

/// Resolving the matches `ms` in order: one value for each match that has
/// one, and for one that has none, nothing or a failure as `policy` says.
pub open spec fn resolve_matches(
    name: Seq<char>,
    vars: Seq<(Seq<char>, Seq<char>)>,
    keys: Seq<Seq<char>>,
    policy: MissingPolicy,
    ms: Seq<MatchView>,
) -> Result<Seq<ValueView>, RunErrorView>
    decreases ms.len(),
{
    if ms.len() == 0 {
        Ok(seq![])
    } else {
        match resolve_matches(name, vars, keys, policy, ms.drop_last()) {
            Err(e) => Err(e),
            Ok(found) => match match_value(vars, keys, ms.last().0) {
                Some(v) => Ok(found.push((name, v))),
                None => match policy {
                    MissingPolicy::Skip => Ok(found),
                    MissingPolicy::Fail => Err(
                        RunErrorView {
                            node: None,
                            parents: seq![],
                            msg: Some(missing_msg(ms.last().1)),
                        },
                    ),
                },
            },
        }
    }
}

pub open spec fn vars_view(v: Seq<(String, String)>) -> Seq<(Seq<char>, Seq<char>)> {
    v.map_values(|p: (String, String)| (p.0@, p.1@))
}

pub open spec fn keys_view(v: Seq<String>) -> Seq<Seq<char>> {
    v.map_values(|s: String| s@)
}

/// A feeder that resolves each of its matches to the value of one variable.
#[derive(Debug)]
pub struct EnvFeeder {
    name: String,
    vars: Vec<(String, String)>,
    keys: Vec<String>,
    policy: MissingPolicy,
}

impl EnvFeeder {
    /// The variables, in the order given.
    pub closed spec fn spec_vars(&self) -> Seq<(Seq<char>, Seq<char>)> {
        vars_view(self.vars@)
    }

    /// The variable named by each match handed out, by match index.
    pub closed spec fn spec_keys(&self) -> Seq<Seq<char>> {
        keys_view(self.keys@)
    }

    pub closed spec fn spec_policy(&self) -> MissingPolicy {
        self.policy
    }

    pub closed spec fn spec_feeder_name(&self) -> Seq<char> {
        self.name@
    }

    /// A feeder named `name` over the variables `vars` (of equal names,
    /// the last counts), with no matches yet, that skips missing variables.
    pub fn new(name: &str, vars: Vec<(String, String)>) -> (r: EnvFeeder)
        ensures
            r.spec_feeder_name() == name@,
            r.spec_vars() == vars_view(vars@),
            r.spec_keys().len() == 0,
            r.spec_policy() == MissingPolicy::Skip,
    {
        let r = EnvFeeder { name: name.to_string(), vars, keys: Vec::new(), policy: MissingPolicy::Skip };
        proof {
            assert(keys_view(r.keys@) =~= seq![]);
        }
        r
    }

    /// The same feeder, with another policy for missing variables.
    pub fn with_missing_policy(self, policy: MissingPolicy) -> (r: EnvFeeder)
        ensures
            r.spec_feeder_name() == self.spec_feeder_name(),
            r.spec_vars() == self.spec_vars(),
            r.spec_keys() == self.spec_keys(),
            r.spec_policy() == policy,
    {
        EnvFeeder { policy, ..self }
    }

    /// Mints a match for the variable `env_variable_name`, to be bound to a
    /// node under this feeder's name.
    pub fn add_match(&mut self, env_variable_name: &str) -> (r: Match)
        ensures
            r@ == (old(self).spec_keys().len() as usize, env_variable_name@),
            final(self).spec_keys() == old(self).spec_keys().push(env_variable_name@),
            final(self).spec_feeder_name() == old(self).spec_feeder_name(),
            final(self).spec_vars() == old(self).spec_vars(),
            final(self).spec_policy() == old(self).spec_policy(),
    {
        let id = self.keys.len();
        self.keys.push(env_variable_name.to_string());
        proof {
            assert(keys_view(self.keys@) =~= keys_view(old(self).keys@).push(env_variable_name@));
        }
        Match::new(id, env_variable_name.to_string())
    }

    /// The hint shown in help text for matches of this kind of feeder: their
    /// labels, separated by `", "`, framed as `[env ...]`.
    pub fn matches_repr(ms: &Matches) -> (r: String)
        ensures
            r@ == "[env "@ + join_labels(ms@) + "]"@,
    {
        let mut r = String::from_str("[env ");
        let labels = ms.repr();
        r.append(labels.as_str());
        r.append("]");
        r
    }

    /// The value of the last variable named `key`.
    fn lookup(&self, key: &str) -> (r: Option<&String>)
        ensures
            match var_value(self.spec_vars(), key@) {
                Some(v) => r matches Some(x) && x@ == v,
                None => r is None,
            },
    {
        let mut i: usize = self.vars.len();
        assert(self.spec_vars().subrange(0, self.vars@.len() as int) =~= self.spec_vars());
        while i > 0
            invariant
                i <= self.vars@.len(),
                var_value(self.spec_vars(), key@) == var_value(
                    self.spec_vars().subrange(0, i as int),
                    key@,
                ),
            decreases i,
        {
            let ghost pre = self.spec_vars().subrange(0, i as int);
            assert(pre.last() == self.spec_vars()[i - 1]);
            assert(pre.drop_last() =~= self.spec_vars().subrange(0, i - 1));
            if text_eq(self.vars[i - 1].0.as_str(), key) {
                return Some(&self.vars[i - 1].1);
            }
            i -= 1;
        }
        None
    }

    /// The values found for the matches `ms`, in order.
    fn resolve_all(&self, ms: &Matches) -> (r: Result<Vec<String>, RunError>)
        ensures
            match resolve_matches(self.name@, self.spec_vars(), self.spec_keys(), self.policy, ms@) {
                Ok(vs) => r matches Ok(x) && vs == keys_view(x@).map_values(
                    |v: Seq<char>| (self.name@, v),
                ),
                Err(e) => r matches Err(x) && x@ == e,
            },
    {
        let mut found: Vec<String> = Vec::new();
        let mut i: usize = 0;
        let n = ms.len();
        proof {
            assert(ms@.subrange(0, 0) =~= seq![]);
            assert(keys_view(found@).map_values(|v: Seq<char>| (self.name@, v)) =~= seq![]);
        }
        while i < n
            invariant
                i <= n,
                n == ms@.len(),
                resolve_matches(
                    self.name@,
                    self.spec_vars(),
                    self.spec_keys(),
                    self.policy,
                    ms@.subrange(0, i as int),
                ) == Ok::<Seq<ValueView>, RunErrorView>(
                    keys_view(found@).map_values(|v: Seq<char>| (self.name@, v)),
                ),
            decreases n - i,
        {
            let m = ms.get(i);
            let id = m.id_in_feeder();
            let ghost pre = ms@.subrange(0, i + 1);
            proof {
                assert(pre.drop_last() =~= ms@.subrange(0, i as int));
                assert(pre.last() == ms@[i as int]);
            }
            let value = if id < self.keys.len() {
                assert(self.spec_keys()[id as int] == self.keys@[id as int]@);
                self.lookup(self.keys[id].as_str())
            } else {
                None
            };
            match value {
                Some(v) => {
                    let ghost old_found = found@;
                    found.push(v.clone());
                    proof {
                        assert(keys_view(found@).map_values(|v: Seq<char>| (self.name@, v))
                            =~= keys_view(old_found).map_values(|v: Seq<char>| (self.name@, v)).push(
                            (self.name@, v@),
                        ));
                    }
                },
                None => {
                    match self.policy {
                        MissingPolicy::Skip => {},
                        MissingPolicy::Fail => {
                            let mut msg = String::from_str("no value for ");
                            msg.append(m.repr().as_str());
                            let e = RunError::new(Some(msg));
                            proof {
                                lemma_resolve_prefix_err(
                                    self.name@,
                                    self.spec_vars(),
                                    self.spec_keys(),
                                    self.policy,
                                    ms@,
                                    i + 1,
                                );
                                assert(ms@.subrange(0, n as int) =~= ms@);
                            }
                            return Err(e);
                        },
                    }
                },
            }
            i += 1;
        }
        proof {
            assert(ms@.subrange(0, n as int) =~= ms@);
        }
        Ok(found)
    }
}

/// A failure on one of the first `k` matches is the failure of them all.
pub proof fn lemma_resolve_prefix_err(
    name: Seq<char>,
    vars: Seq<(Seq<char>, Seq<char>)>,
    keys: Seq<Seq<char>>,
    policy: MissingPolicy,
    ms: Seq<MatchView>,
    k: int,
)
    requires
        0 <= k <= ms.len(),
        resolve_matches(name, vars, keys, policy, ms.subrange(0, k)) is Err,
    ensures
        resolve_matches(name, vars, keys, policy, ms) == resolve_matches(
            name,
            vars,
            keys,
            policy,
            ms.subrange(0, k),
        ),
    decreases ms.len(),
{
    if k == ms.len() {
        assert(ms.subrange(0, k) =~= ms);
    } else {
        let init = ms.drop_last();
        assert(init.subrange(0, k) =~= ms.subrange(0, k));
        lemma_resolve_prefix_err(name, vars, keys, policy, init, k);
    }
}

/// Every value found for matches carries the feeder's name.
pub proof fn lemma_resolve_matches_named(
    name: Seq<char>,
    vars: Seq<(Seq<char>, Seq<char>)>,
    keys: Seq<Seq<char>>,
    policy: MissingPolicy,
    ms: Seq<MatchView>,
)
    ensures
        resolve_matches(name, vars, keys, policy, ms) matches Ok(found) ==> forall|k: int|
            0 <= k < found.len() ==> #[trigger] found[k].0 == name,
    decreases ms.len(),
{
    if ms.len() > 0 {
        lemma_resolve_matches_named(name, vars, keys, policy, ms.drop_last());
    }
}

/// The value, under `name`, that a match contributes when it has one.
pub open spec fn hit_value(
    name: Seq<char>,
    vars: Seq<(Seq<char>, Seq<char>)>,
    keys: Seq<Seq<char>>,
) -> spec_fn(MatchView) -> Option<ValueView> {
    |m: MatchView|
        match match_value(vars, keys, m.0) {
            Some(v) => Some((name, v)),
            None => None,
        }
}

/// Skipping missing variables, the values found are those of the matches
/// that have one, in the order of the matches.
pub proof fn lemma_skip_keeps_hits_in_order(
    name: Seq<char>,
    vars: Seq<(Seq<char>, Seq<char>)>,
    keys: Seq<Seq<char>>,
    ms: Seq<MatchView>,
)
    ensures
        resolve_matches(name, vars, keys, MissingPolicy::Skip, ms) == Ok::<
            Seq<ValueView>,
            RunErrorView,
        >(ms.filter_map(hit_value(name, vars, keys))),
    decreases ms.len(),
{
    if ms.len() > 0 {
        let rest = ms.drop_last();
        lemma_skip_keeps_hits_in_order(name, vars, keys, rest);
        let done = rest.filter_map(hit_value(name, vars, keys));
        if let Some(v) = match_value(vars, keys, ms.last().0) {
            assert(done.push((name, v)) =~= done + seq![(name, v)]);
        }
    }
}

impl Feeder for EnvFeeder {
    open spec fn spec_name(&self) -> Seq<char> {
        self.spec_feeder_name()
    }

    open spec fn spec_resolve(&self, node: NodeView) -> Result<Seq<ValueView>, RunErrorView> {
        match node.matches_for(self.spec_feeder_name()) {
            None => Ok(seq![]),
            Some(ms) => resolve_matches(
                self.spec_feeder_name(),
                self.spec_vars(),
                self.spec_keys(),
                self.spec_policy(),
                ms,
            ),
        }
    }

    proof fn lemma_resolve_rules(&self, node: NodeView) {
        if let Some(ms) = node.matches_for(self.spec_feeder_name()) {
            lemma_resolve_matches_named(
                self.spec_feeder_name(),
                self.spec_vars(),
                self.spec_keys(),
                self.spec_policy(),
                ms,
            );
        }
    }

    fn name(&self) -> (r: &str) {
        self.name.as_str()
    }

    fn process_matches(&self, element: &mut NodeValues) -> (r: Result<(), RunError>) {
        let found = match element.get_feeder_matches(self.name.as_str()) {
            None => {
                proof {
                    assert(element@.values + seq![] =~= element@.values);
                }
                return Ok(());
            },
            Some(ms) => self.resolve_all(ms),
        };
        let found = match found {
            Ok(f) => f,
            Err(e) => {
                return Err(e);
            },
        };
        let ghost start = element@;
        let ghost added = keys_view(found@).map_values(|v: Seq<char>| (self.name@, v));
        let mut i: usize = 0;
        while i < found.len()
            invariant
                i <= found@.len(),
                added == keys_view(found@).map_values(|v: Seq<char>| (self.name@, v)),
                element@.bindings == start.bindings,
                element@.values == start.values + added.subrange(0, i as int),
            decreases found.len() - i,
        {
            element.append(self.name.as_str(), found[i].clone());
            proof {
                assert(start.values + added.subrange(0, i + 1) =~= start.values + added.subrange(
                    0,
                    i as int,
                ) + seq![(self.name@, found@[i as int]@)]);
            }
            i += 1;
        }
        proof {
            assert(added.subrange(0, found@.len() as int) =~= added);
        }
        Ok(())
    }
}

} // verus!
