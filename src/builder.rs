//! Assembling feeders and a root config, and running the population.
use vstd::prelude::*;
use crate::error::{Error, RunErrorView, SetupError};
use crate::feeder::{Feeder, populate, populate_config};
use crate::text::text_eq;
use crate::tree::{Config, ConfigView};

verus! {

/// The tree after each feeder of `fs`, in order, has walked it once, or the
/// first failure.
pub open spec fn populate_all<F: Feeder>(fs: Seq<F>, c: ConfigView) -> Result<
    ConfigView,
    RunErrorView,
>
    decreases fs.len(),
{
    if fs.len() == 0 {
        Ok(c)
    } else {
        match populate_all(fs.drop_last(), c) {
            Err(e) => Err(e),
            Ok(done) => populate_config(fs.last(), done, seq![]),
        }
    }
}

/// Whether one of `fs` is named `name`.
pub open spec fn has_feeder_named<F: Feeder>(fs: Seq<F>, name: Seq<char>) -> bool {
    exists|i: int| 0 <= i < fs.len() && #[trigger] fs[i].spec_name() == name
}

/// Feeders, in registration order, and the root config, before population.
pub struct Builder<F> {
    feeders: Vec<F>,
    root: Option<Config>,
}

/// A populated tree.
pub struct Configuration {
    pub root: Config,
}

impl Configuration {
    /// An empty builder.
    pub fn builder<F: Feeder>() -> (r: Builder<F>)
        ensures
            r.spec_feeders().len() == 0,
            r.spec_root() is None,
    {
        Builder::new()
    }
}

impl<F: Feeder> Builder<F> {
    /// The registered feeders, in registration order.
    pub closed spec fn spec_feeders(&self) -> Seq<F> {
        self.feeders@
    }

    pub closed spec fn spec_root(&self) -> Option<ConfigView> {
        match self.root {
            Some(c) => Some(c@),
            None => None,
        }
    }

    /// No feeders and no root.
    pub fn new() -> (r: Builder<F>)
        ensures
            r.spec_feeders().len() == 0,
            r.spec_root() is None,
    {
        Builder { feeders: Vec::new(), root: None }
    }

    /// Registers a feeder after the others. Fails, changing nothing, when a
    /// feeder of the same name is registered.
    pub fn add_feeder(&mut self, feeder: F) -> (r: Result<(), SetupError>)
        ensures
            has_feeder_named(old(self).spec_feeders(), feeder.spec_name()) ==> (r matches Err(
                SetupError::DuplicateFeederName(n),
            ) && n@ == feeder.spec_name() && final(self).spec_feeders() == old(
                self,
            ).spec_feeders()),
            !has_feeder_named(old(self).spec_feeders(), feeder.spec_name()) ==> (r is Ok
                && final(self).spec_feeders() == old(self).spec_feeders().push(feeder)),
            final(self).spec_root() == old(self).spec_root(),
    {
        let mut i: usize = 0;
        while i < self.feeders.len()
            invariant
                i <= self.feeders@.len(),
                forall|k: int| 0 <= k < i ==> #[trigger] self.feeders@[k].spec_name()
                    != feeder.spec_name(),
            decreases self.feeders.len() - i,
        {
            if text_eq(self.feeders[i].name(), feeder.name()) {
                return Err(SetupError::DuplicateFeederName(feeder.name().to_string()));
            }
            i += 1;
        }
        self.feeders.push(feeder);
        Ok(())
    }

    /// Sets the root config, in place of any earlier one.
    pub fn set_root(self, root: Config) -> (r: Builder<F>)
        ensures
            r.spec_feeders() == self.spec_feeders(),
            r.spec_root() == Some(root@),
    {
        Builder { feeders: self.feeders, root: Some(root) }
    }

    /// Lets each feeder, in registration order, walk the whole tree once.
    /// Fails without any walk when no root was set, and stops at the first
    /// failure of a feeder.
    pub fn build(self) -> (r: Result<Configuration, Error>)
        ensures
            match self.spec_root() {
                None => r matches Err(Error::Setup(SetupError::NoRoot)),
                Some(c) => match populate_all(self.spec_feeders(), c) {
                    Ok(done) => r matches Ok(conf) && conf.root@ == done,
                    Err(e) => r matches Err(Error::Run(x)) && x@ == e,
                },
            },
    {
        let mut root = match self.root {
            Some(c) => c,
            None => {
                return Err(Error::Setup(SetupError::NoRoot));
            },
        };
        let ghost c0 = root@;
        let ghost fs = self.feeders@;
        let mut i: usize = 0;
        proof {
            assert(fs.subrange(0, 0) =~= seq![]);
        }
        while i < self.feeders.len()
            invariant
                i <= fs.len(),
                fs == self.feeders@,
                self.spec_root() == Some(c0),
                populate_all(fs.subrange(0, i as int), c0) == Ok::<ConfigView, RunErrorView>(
                    root@,
                ),
            decreases self.feeders.len() - i,
        {
            let ghost pre = fs.subrange(0, i + 1);
            proof {
                assert(pre.drop_last() =~= fs.subrange(0, i as int));
                assert(pre.last() == fs[i as int]);
            }
            match populate(&self.feeders[i], &mut root) {
                Ok(()) => {},
                Err(e) => {
                    proof {
                        lemma_populate_all_prefix_err(fs, i + 1, c0);
                        assert(fs.subrange(0, fs.len() as int) =~= fs);
                    }
                    return Err(Error::Run(e));
                },
            }
            i += 1;
        }
        proof {
            assert(fs.subrange(0, fs.len() as int) =~= fs);
        }
        Ok(Configuration { root })
    }
}

/// A failure of one of the first `k` feeders is the failure of the build.
pub proof fn lemma_populate_all_prefix_err<F: Feeder>(fs: Seq<F>, k: int, c: ConfigView)
    requires
        0 <= k <= fs.len(),
        populate_all(fs.subrange(0, k), c) is Err,
    ensures
        populate_all(fs, c) == populate_all(fs.subrange(0, k), c),
    decreases fs.len(),
{
    if k == fs.len() {
        assert(fs.subrange(0, k) =~= fs);
    } else {
        let init = fs.drop_last();
        assert(init.subrange(0, k) =~= fs.subrange(0, k));
        lemma_populate_all_prefix_err(init, k, c);
    }
}

} // verus!
