//! The error kinds: setup errors found while the tree and the builder are
//! assembled, and run errors raised by a feeder during population.
use vstd::prelude::*;
use crate::text::{copy_names, join, names_view, opt_view, push_joined};

verus! {

/// A mistake in how the tree or the builder was assembled, found before any
/// feeder runs.
#[derive(Debug)]
pub enum SetupError {
    /// A feeder of this name is already registered with the builder.
    DuplicateFeederName(String),
    /// The node already holds matches under this feeder name.
    DuplicateFeederBinding(String),
    /// A group names a member index that its config does not have.
    UnknownGroupMember(usize),
    /// The builder was asked to build without a root config.
    NoRoot,
}

/// What a run error holds: the failing node, the names of its ancestors from
/// the root down to its parent, and the feeder's message.
pub struct RunErrorView {
    pub node: Option<Seq<char>>,
    pub parents: Seq<Seq<char>>,
    pub msg: Option<Seq<char>>,
}

impl RunErrorView {
    /// The names from the root down to the failing node.
    pub open spec fn path(self) -> Seq<Seq<char>> {
        match self.node {
            Some(n) => self.parents.push(n),
            None => self.parents,
        }
    }

    /// The diagnostic: the message, if any, on a line of its own, then the
    /// path from the root to the failing node, joined by `" > "`.
    pub open spec fn describe(self) -> Seq<char> {
        match self.msg {
            Some(m) => m + seq!['\n'] + join(self.path(), " > "@),
            None => join(self.path(), " > "@),
        }
    }

    /// The error placed at a node whose ancestors are `parents`.
    pub open spec fn located(self, node: Seq<char>, parents: Seq<Seq<char>>) -> RunErrorView {
        RunErrorView { node: Some(node), parents, msg: self.msg }
    }
}

/// A failure raised by a feeder while it resolved a node.
#[derive(Debug)]
pub struct RunError {
    node: Option<String>,
    parents: Vec<String>,
    msg: Option<String>,
}

impl View for RunError {
    type V = RunErrorView;

    closed spec fn view(&self) -> RunErrorView {
        RunErrorView {
            node: opt_view(self.node),
            parents: names_view(self.parents@),
            msg: opt_view(self.msg),
        }
    }
}

impl RunError {
    /// A failure not yet tied to a node; the traversal places it.
    pub fn new(msg: Option<String>) -> (r: RunError)
        ensures
            r@ == (RunErrorView { node: None, parents: seq![], msg: opt_view(msg) }),
    {
        let r = RunError { node: None, parents: Vec::new(), msg };
        proof {
            assert(names_view(r.parents@) =~= seq![]);
        }
        r
    }

    /// Places the error at the node named `node`, under the ancestors `parents`.
    pub fn locate(self, node: &String, parents: &Vec<String>) -> (r: RunError)
        ensures
            r@ == self@.located(node@, names_view(parents@)),
    {
        RunError { node: Some(node.clone()), parents: copy_names(parents), msg: self.msg }
    }

    /// Name of the node whose resolution failed, if known.
    pub fn node(&self) -> (r: Option<&String>)
        ensures
            r matches Some(n) ==> self@.node == Some(n@),
            r is None ==> self@.node is None,
    {
        match &self.node {
            Some(n) => Some(n),
            None => None,
        }
    }

    /// Names of the failing node's ancestors, from the root down to its parent.
    pub fn parents(&self) -> (r: &Vec<String>)
        ensures
            names_view(r@) == self@.parents,
    {
        &self.parents
    }

    /// The diagnostic text for this error.
    pub fn describe(&self) -> (r: String)
        ensures
            r@ == self@.describe(),
    {
        let mut out = String::new();
        match &self.msg {
            Some(m) => {
                out.append(m.as_str());
                out.append("\n");
            },
            None => {},
        }
        let ghost head = out@;
        let mut path = copy_names(&self.parents);
        match &self.node {
            Some(n) => path.push(n.clone()),
            None => {},
        }
        proof {
            assert(names_view(path@) =~= self@.path());
        }
        push_joined(&mut out, &path, " > ");
        proof {
            reveal_strlit("\n");
            if self.msg is Some {
                assert(head =~= self.msg->Some_0@ + seq!['\n']);
            } else {
                assert(head =~= seq![]);
            }
        }
        out
    }

    /// The feeder's message, if it gave one.
    pub fn msg(&self) -> (r: Option<&String>)
        ensures
            r matches Some(m) ==> self@.msg == Some(m@),
            r is None ==> self@.msg is None,
    {
        match &self.msg {
            Some(m) => Some(m),
            None => None,
        }
    }
}

/// Why a build did not produce a configuration.
#[derive(Debug)]
pub enum Error {
    Setup(SetupError),
    Run(RunError),
}

} // verus!
