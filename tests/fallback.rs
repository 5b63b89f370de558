use async_postgres::host::{Config, Host, HostKind};
use async_postgres::resolve::{run_fallback, Attempt, ResolveError, Resolver, Target};
use std::io;
use std::time::Duration;

fn tcp(name: &str) -> Host {
    Host { kind: HostKind::Tcp, name: name.to_string() }
}

fn unix(dir: &str) -> Host {
    Host { kind: HostKind::Unix, name: dir.to_string() }
}

fn config(hosts: Vec<Host>, ports: Vec<u16>) -> Config {
    Config { hosts, ports }
}

fn refused(what: &str) -> io::Error {
    io::Error::new(io::ErrorKind::ConnectionRefused, what.to_string())
}

/// Drives the fallback the way a connecting caller does, with `connect` standing for the
/// transport; returns the index that connected and the attempts in the order made.
fn drive(
    config: Config,
    mut connect: impl FnMut(&Attempt) -> io::Result<()>,
) -> (Result<usize, ResolveError<io::Error>>, Vec<(usize, String)>) {
    let mut resolver: Resolver<io::Error> = Resolver::new(config);
    let mut made = Vec::new();
    loop {
        match resolver.next_attempt() {
            None => return (Err(resolver.into_error()), made),
            Some(a) => {
                let shown = match &a.target {
                    Target::Tcp { host, port } => format!("{}:{}", host, port),
                    Target::Unix { path } => path.clone(),
                };
                made.push((a.index, shown));
                match connect(&a) {
                    Ok(()) => return (Ok(a.index), made),
                    Err(e) => resolver.record_failure(e),
                }
            }
        }
    }
}

#[test]
fn falls_back_past_refusing_host() {
    let c = config(vec![tcp("badhost"), tcp("goodhost"), tcp("otherhost")], vec![5432, 5432]);
    let (r, made) = drive(c, |a| match &a.target {
        Target::Tcp { host, .. } if host == "goodhost" => Ok(()),
        _ => Err(refused("refused")),
    });
    assert!(matches!(r, Ok(1)));
    assert_eq!(
        made,
        vec![(0, "badhost:5432".to_string()), (1, "goodhost:5432".to_string())]
    );
}

#[test]
fn ports_pair_by_position_then_default() {
    let c = config(vec![tcp("a"), tcp("b"), tcp("c")], vec![6001]);
    let (r, made) = drive(c, |_| Err(refused("down")));
    assert!(matches!(r, Err(ResolveError::Failed(_))));
    assert_eq!(
        made,
        vec![
            (0, "a:6001".to_string()),
            (1, "b:5432".to_string()),
            (2, "c:5432".to_string()),
        ]
    );
}

#[test]
fn local_socket_candidate_path() {
    let c = config(vec![unix("/var/run/postgresql")], vec![5433]);
    let resolver: Resolver<io::Error> = Resolver::new(c);
    let a = resolver.next_attempt().unwrap();
    assert_eq!(a.index, 0);
    assert_eq!(a.tls_name, "/var/run/postgresql");
    match a.target {
        Target::Unix { path } => {
            assert_eq!(path, "/var/run/postgresql/.s.PGSQL.5433");
            assert!(path.ends_with(".s.PGSQL.5433"));
        }
        Target::Tcp { .. } => panic!("expected a local socket"),
    }
}

#[test]
fn single_reachable_candidate_anywhere() {
    for k in 0..4usize {
        let hosts = (0..4).map(|i| tcp(&format!("h{}", i))).collect();
        let (r, made) = drive(config(hosts, vec![]), |a| {
            if a.index == k { Ok(()) } else { Err(refused("no")) }
        });
        assert!(matches!(r, Ok(i) if i == k));
        assert_eq!(made.len(), k + 1);
    }
}

#[test]
fn none_reachable_reports_last_failure() {
    let c = config(vec![tcp("a"), tcp("b"), tcp("c")], vec![]);
    let (r, _) = drive(c, |a| match &a.target {
        Target::Tcp { host, .. } if host == "c" => {
            Err(io::Error::new(io::ErrorKind::TimedOut, "last"))
        }
        _ => Err(refused("earlier")),
    });
    match r {
        Err(ResolveError::Failed(e)) => {
            assert_eq!(e.kind(), io::ErrorKind::TimedOut);
            assert_eq!(e.to_string(), "last");
        }
        other => panic!("unexpected {:?}", other),
    }
}

#[test]
fn empty_candidates_fail_without_attempt() {
    let resolver: Resolver<io::Error> = Resolver::new(config(vec![], vec![5432]));
    assert!(resolver.is_exhausted());
    assert!(resolver.next_attempt().is_none());
    assert!(matches!(resolver.into_error(), ResolveError::HostMissing));
    let (r, made) = drive(config(vec![], vec![]), |_| Ok(()));
    assert!(matches!(r, Err(ResolveError::HostMissing)));
    assert!(made.is_empty());
}

#[test]
fn timed_out_attempt_moves_on() {
    let c = config(vec![tcp("slow"), tcp("fast")], vec![]);
    let (r, made) = drive(c, |a| {
        if a.index == 0 {
            async_std::task::block_on(async_std::io::timeout(
                Duration::from_millis(20),
                std::future::pending::<io::Result<()>>(),
            ))
        } else {
            Ok(())
        }
    });
    assert!(matches!(r, Ok(1)));
    assert_eq!(made.len(), 2);
    let (r, _) = drive(config(vec![tcp("slow")], vec![]), |_| {
        async_std::task::block_on(async_std::io::timeout(
            Duration::from_millis(20),
            std::future::pending::<io::Result<()>>(),
        ))
    });
    match r {
        Err(ResolveError::Failed(e)) => assert_eq!(e.kind(), io::ErrorKind::TimedOut),
        other => panic!("unexpected {:?}", other),
    }
}

#[test]
fn run_fallback_stops_at_first_success() {
    let c = config(vec![tcp("a"), tcp("b"), tcp("c")], vec![]);
    let outcomes: Vec<Result<(), &str>> = vec![Err("a down"), Ok(()), Err("c down")];
    let (r, n) = run_fallback(c, outcomes);
    assert!(matches!(r, Ok(1)));
    assert_eq!(n, 2);
}

#[test]
fn run_fallback_reports_last_error() {
    let c = config(vec![tcp("a"), tcp("b")], vec![]);
    let outcomes: Vec<Result<(), &str>> = vec![Err("first"), Err("second")];
    let (r, n) = run_fallback(c, outcomes);
    assert!(matches!(r, Err(ResolveError::Failed("second"))));
    assert_eq!(n, 2);
    let (r, n) = run_fallback::<&str>(config(vec![], vec![]), vec![]);
    assert!(matches!(r, Err(ResolveError::HostMissing)));
    assert_eq!(n, 0);
}

#[test]
fn network_host_after_local_socket_takes_its_own_port() {
    let c = config(vec![unix("/tmp"), tcp("db")], vec![6000, 7000]);
    let (r, made) = drive(c, |a| match &a.target {
        Target::Tcp { .. } => Ok(()),
        Target::Unix { .. } => Err(refused("no socket")),
    });
    assert!(matches!(r, Ok(1)));
    assert_eq!(
        made,
        vec![(0, "/tmp/.s.PGSQL.6000".to_string()), (1, "db:7000".to_string())]
    );
}

#[test]
fn encrypted_path_names_the_host_that_connected() {
    let c = config(vec![tcp("down.example.com"), tcp("up.example.com")], vec![]);
    let mut resolver: Resolver<io::Error> = Resolver::new(c);
    let first = resolver.next_attempt().unwrap();
    resolver.record_failure(refused("down"));
    let second = resolver.next_attempt().unwrap();
    assert_eq!(first.tls_name, "down.example.com");
    assert_eq!(second.index, 1);
    assert_eq!(
        async_postgres::host::server_name(&second.tls_name),
        Ok("up.example.com".to_string())
    );
}
