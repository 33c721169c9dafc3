use http_server::middleware::{ChainStep, Middleware, MiddlewareKind};

#[test]
fn installs_middleware_from_config() {
    let m = Middleware::from_config(true, true, true);
    assert_eq!(m.before, vec![MiddlewareKind::BasicAuth]);
    assert_eq!(m.after, vec![MiddlewareKind::Cors, MiddlewareKind::Gzip, MiddlewareKind::Logger]);

    let plain = Middleware::from_config(false, false, false);
    assert!(plain.before.is_empty());
    assert_eq!(plain.after, vec![MiddlewareKind::Logger]);
}

#[test]
fn runs_the_chain_in_order() {
    let m = Middleware::from_config(true, true, false);
    let mut step = m.first_step();
    let mut seen = Vec::new();
    while step != ChainStep::Respond && step != ChainStep::Failed {
        seen.push(step);
        step = m.next_step(step, true);
    }
    assert_eq!(step, ChainStep::Respond);
    assert_eq!(
        seen,
        vec![ChainStep::Before(0), ChainStep::Handler, ChainStep::After(0), ChainStep::After(1)]
    );
}

#[test]
fn a_failing_middleware_ends_the_chain() {
    let m = Middleware::from_config(true, false, false);
    assert_eq!(m.next_step(ChainStep::Before(0), false), ChainStep::Failed);
    assert_eq!(m.next_step(ChainStep::After(0), false), ChainStep::Failed);
}

#[test]
fn an_empty_chain_runs_the_handler_alone() {
    let m = Middleware::new();
    assert_eq!(m.first_step(), ChainStep::Handler);
    assert_eq!(m.next_step(ChainStep::Handler, true), ChainStep::Respond);
}

#[test]
fn middleware_are_appended_in_order() {
    let mut m = Middleware::new();
    m.after(MiddlewareKind::Logger);
    m.before(MiddlewareKind::BasicAuth);
    m.after(MiddlewareKind::Cors);
    assert_eq!(m.before, vec![MiddlewareKind::BasicAuth]);
    assert_eq!(m.after, vec![MiddlewareKind::Logger, MiddlewareKind::Cors]);
}
