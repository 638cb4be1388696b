//! Applications and their dependencies.

use ambitious::application::{AppController, AppSpec, StartError, StartStep, StopError};
use ambitious::process::Pid;

fn spec(name: &str, deps: &[&str]) -> AppSpec {
    AppSpec {
        name: name.into(),
        dependencies: deps.iter().map(|d| d.to_string()).collect(),
    }
}

#[test]
fn dependencies_come_first() {
    let mut c = AppController::new();
    c.register(spec("web", &["db", "cache"]));
    c.register(spec("db", &["log"]));
    c.register(spec("cache", &["log"]));
    c.register(spec("log", &[]));
    let order = c.resolve_dependencies("web").ok().unwrap();
    assert_eq!(order, vec!["log", "db", "cache", "web"]);
    assert_eq!(c.list_registered().len(), 4);
}

#[test]
fn circles_and_gaps_are_refused() {
    let mut c = AppController::new();
    c.register(spec("a", &["b"]));
    c.register(spec("b", &["a"]));
    assert!(matches!(c.resolve_dependencies("a"), Err(StartError::CircularDependency(_))));
    c.register(spec("x", &["y"]));
    match c.start_with_config("x") {
        Err(StartError::NotFound(name)) => assert_eq!(name, "y"),
        _ => panic!("started"),
    }
    assert!(!c.is_running("x"));
}

#[test]
fn starting_and_stopping() {
    let mut c = AppController::new();
    c.register(spec("web", &["db"]));
    c.register(spec("db", &[]));
    let order = c.start_with_config("web").ok().unwrap();
    for name in &order {
        let expected =
            if name == "web" { StartStep::StartConfigured } else { StartStep::StartDefault };
        assert_eq!(c.start_step(name, "web"), expected);
        let pid = Pid::remote("a", 1, 0);
        assert!(c.started(name, Ok(Some(pid))).is_ok());
    }
    assert!(c.is_running("web") && c.is_running("db"));
    assert!(matches!(c.start_with_config("web"), Err(StartError::AlreadyRunning(_))));
    assert_eq!(c.start_step("db", "web"), StartStep::Skip);
    assert_eq!(c.list_running().len(), 2);
    let order = c.stop_all();
    assert_eq!(order, vec!["web", "db"]);
    assert!(c.stop("web").is_ok());
    assert!(matches!(c.stop("web"), Err(StopError::NotRunning(_))));
    assert!(matches!(
        c.started("web", Err("boom".into())),
        Err(StartError::StartFailed(_))
    ));
}

#[test]
fn everything_that_runs_is_stopped() {
    let mut c = AppController::new();
    c.register(spec("a", &["b"]));
    c.register(spec("b", &["a"]));
    c.register(spec("x", &["gone", "y"]));
    c.register(spec("y", &[]));
    for name in ["a", "b", "y", "x"] {
        assert!(c.started(name, Ok(None)).is_ok());
    }
    let order = c.stop_all();
    for name in ["a", "b", "y", "x"] {
        assert!(order.iter().any(|n| n == name));
    }
    let at = |name: &str| order.iter().position(|n| n == name).unwrap();
    assert!(at("x") < at("y"));
    for name in &order {
        let _ = c.stop(name);
    }
    assert!(c.list_running().is_empty());
}
