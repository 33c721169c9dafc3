//! The middleware chain: which middleware a configuration installs, and in
//! what order the chain runs its steps around the request handler.
use vstd::prelude::*;

verus! {

/// A middleware the server can install.
#[derive(Clone, Copy, Debug, PartialEq, Eq, Structural)]
pub enum MiddlewareKind {
    /// Checks the Authorization header before the handler runs.
    BasicAuth,
    /// Adds the CORS headers to the response.
    Cors,
    /// Compresses the response body with gzip.
    Gzip,
    /// Logs the request and its response.
    Logger,
}

/// The middleware of a server: those that run on the request before the
/// handler, and those that run on the response after it, each in order.
pub struct Middleware {
    pub before: Vec<MiddlewareKind>,
    pub after: Vec<MiddlewareKind>,
}

/// The middleware that a configuration installs: basic authentication
/// before the handler when configured; after it CORS when configured, gzip
/// when enabled, and the logger always, in that order.
pub open spec fn planned_after(cors: bool, gzip: bool) -> Seq<MiddlewareKind> {
    (if cors {
        seq![MiddlewareKind::Cors]
    } else {
        seq![]
    }) + (if gzip {
        seq![MiddlewareKind::Gzip]
    } else {
        seq![]
    }) + seq![MiddlewareKind::Logger]
}

impl Middleware {
    /// A chain with no middleware.
    pub fn new() -> (res: Middleware)
        ensures
            res.before@.len() == 0,
            res.after@.len() == 0,
    {
        Middleware { before: Vec::new(), after: Vec::new() }
    }

    /// Appends a middleware to run on the request before the handler.
    pub fn before(&mut self, m: MiddlewareKind)
        ensures
            final(self).before@ == old(self).before@.push(m),
            final(self).after@ == old(self).after@,
    {
        self.before.push(m);
    }

    /// Appends a middleware to run on the response after the handler.
    pub fn after(&mut self, m: MiddlewareKind)
        ensures
            final(self).after@ == old(self).after@.push(m),
            final(self).before@ == old(self).before@,
    {
        self.after.push(m);
    }

    /// The middleware a configuration installs (see [`planned_after`]).
    pub fn from_config(basic_auth: bool, cors: bool, gzip: bool) -> (res: Middleware)
        ensures
            res.before@ == (if basic_auth {
                seq![MiddlewareKind::BasicAuth]
            } else {
                seq![]
            }),
            res.after@ == planned_after(cors, gzip),
            res.before@.contains(MiddlewareKind::BasicAuth) <==> basic_auth,
            res.after@.contains(MiddlewareKind::Cors) <==> cors,
            res.after@.contains(MiddlewareKind::Gzip) <==> gzip,
            res.after@.len() > 0 && res.after@.last() == MiddlewareKind::Logger,
    {
        let mut m = Middleware::new();
        if basic_auth {
            m.before(MiddlewareKind::BasicAuth);
        }
        if cors {
            m.after(MiddlewareKind::Cors);
        }
        if gzip {
            m.after(MiddlewareKind::Gzip);
        }
        m.after(MiddlewareKind::Logger);
        assert(m.before@ =~= (if basic_auth {
            seq![MiddlewareKind::BasicAuth]
        } else {
            seq![]
        }));
        assert(m.after@ =~= planned_after(cors, gzip));
        proof {
            lemma_planned_middleware(cors, gzip);
            if basic_auth {
                assert(m.before@[0] == MiddlewareKind::BasicAuth);
            }
        }
        m
    }

    /// The first step of the chain: the first middleware before the
    /// handler, or the handler when there is none.
    pub fn first_step(&self) -> (res: ChainStep)
        ensures
            res == stage_at(self.before@.len(), 0),
    {
        if self.before.len() > 0 {
            ChainStep::Before(0)
        } else {
            ChainStep::Handler
        }
    }

    /// The step after `done` has finished, `passed` telling whether it let
    /// the request through: a middleware that fails ends the chain with its
    /// own response; otherwise the next middleware before the handler, the
    /// handler, the next middleware after it, or the end with the response.
    pub fn next_step(&self, done: ChainStep, passed: bool) -> (res: ChainStep)
        requires
            step_in_range(self.before@.len(), self.after@.len(), done),
        ensures
            res == next_stage(self.before@.len(), self.after@.len(), done, passed),
    {
        let nb = self.before.len();
        let na = self.after.len();
        match done {
            ChainStep::Before(i) => {
                if !passed {
                    ChainStep::Failed
                } else if i + 1 < nb {
                    ChainStep::Before(i + 1)
                } else {
                    ChainStep::Handler
                }
            },
            ChainStep::Handler => {
                if na > 0 {
                    ChainStep::After(0)
                } else {
                    ChainStep::Respond
                }
            },
            ChainStep::After(i) => {
                if !passed {
                    ChainStep::Failed
                } else if i + 1 < na {
                    ChainStep::After(i + 1)
                } else {
                    ChainStep::Respond
                }
            },
            ChainStep::Respond => ChainStep::Respond,
            ChainStep::Failed => ChainStep::Failed,
        }
    }
}

/// A step of the chain.
#[derive(Clone, Copy, Debug, PartialEq, Eq, Structural)]
pub enum ChainStep {
    /// Run the middleware at this index before the handler.
    Before(usize),
    /// Run the handler.
    Handler,
    /// Run the middleware at this index after the handler.
    After(usize),
    /// Answer with the response the chain built.
    Respond,
    /// Answer with the response of the middleware that failed.
    Failed,
}

/// The step at position `k` of a chain that runs every step: the `nb`
/// middleware before the handler, the handler, then those after it.
pub open spec fn stage_at(nb: nat, k: nat) -> ChainStep {
    if k < nb {
        ChainStep::Before(k as usize)
    } else if k == nb {
        ChainStep::Handler
    } else {
        ChainStep::After((k - nb - 1) as usize)
    }
}

/// Whether the middleware that `done` names exists in a chain of `nb`
/// middleware before the handler and `na` after it.
pub open spec fn step_in_range(nb: nat, na: nat, done: ChainStep) -> bool {
    match done {
        ChainStep::Before(i) => i < nb,
        ChainStep::After(i) => i < na,
        _ => true,
    }
}

/// The step that follows `done` in a chain of `nb` middleware before the
/// handler and `na` after it.
pub open spec fn next_stage(nb: nat, na: nat, done: ChainStep, passed: bool) -> ChainStep {
    match done {
        ChainStep::Before(i) => if !passed {
            ChainStep::Failed
        } else if i + 1 < nb {
            ChainStep::Before((i + 1) as usize)
        } else {
            ChainStep::Handler
        },
        ChainStep::Handler => if na > 0 {
            ChainStep::After(0)
        } else {
            ChainStep::Respond
        },
        ChainStep::After(i) => if !passed {
            ChainStep::Failed
        } else if i + 1 < na {
            ChainStep::After((i + 1) as usize)
        } else {
            ChainStep::Respond
        },
        other => other,
    }
}

/// When every step lets the request through, the chain runs each
/// middleware before the handler in order, then the handler once, then each
/// middleware after it in order, and then answers with the response: the
/// step after position `k` is position `k + 1`, and after the last one the
/// chain responds.
pub proof fn lemma_chain_runs_in_order(nb: nat, na: nat, k: nat)
    requires
        k < nb + 1 + na,
        nb + 1 + na <= usize::MAX,
    ensures
        k + 1 < nb + 1 + na ==> next_stage(nb, na, stage_at(nb, k), true) == stage_at(nb, k + 1),
        k + 1 == nb + 1 + na ==> next_stage(nb, na, stage_at(nb, k), true) == ChainStep::Respond,
{
}

/// A middleware that fails ends the chain: nothing runs after it, the
/// handler included when it ran before the handler.
pub proof fn lemma_failure_ends_chain(nb: nat, na: nat, done: ChainStep)
    requires
        done is Before || done is After,
    ensures
        next_stage(nb, na, done, false) == ChainStep::Failed,
        next_stage(nb, na, ChainStep::Failed, true) == ChainStep::Failed,
{
}

/// Each optional middleware is installed exactly when it is configured,
/// independently of the others: CORS when CORS is configured, gzip when
/// compression is enabled; the logger always runs, last, and CORS runs
/// before gzip.
pub proof fn lemma_planned_middleware(cors: bool, gzip: bool)
    ensures
        planned_after(cors, gzip).contains(MiddlewareKind::Cors) <==> cors,
        planned_after(cors, gzip).contains(MiddlewareKind::Gzip) <==> gzip,
        planned_after(cors, gzip).contains(MiddlewareKind::Logger),
        planned_after(cors, gzip).len() > 0 && planned_after(cors, gzip).last()
            == MiddlewareKind::Logger,
        cors && gzip ==> planned_after(cors, gzip)[0] == MiddlewareKind::Cors
            && planned_after(cors, gzip)[1] == MiddlewareKind::Gzip,
{
    let a = planned_after(cors, gzip);
    let c = MiddlewareKind::Cors;
    let g = MiddlewareKind::Gzip;
    let l = MiddlewareKind::Logger;
    if cors && gzip {
        assert(a =~= seq![c, g, l]);
        assert(a[0] == c && a[1] == g && a[2] == l);
    } else if cors {
        assert(a =~= seq![c, l]);
        assert(a[0] == c && a[1] == l);
        assert(!a.contains(g));
    } else if gzip {
        assert(a =~= seq![g, l]);
        assert(a[0] == g && a[1] == l);
        assert(!a.contains(c));
    } else {
        assert(a =~= seq![l]);
        assert(a[0] == l);
        assert(!a.contains(c));
        assert(!a.contains(g));
    }
}

} // verus!
