use async_postgres::host::{
    checked_server_name, push_decimal, server_name, socket_name, socket_path,
    try_tcp_host, Config, Host, HostError, HostKind, DEFAULT_PORT,
};

fn tcp(name: &str) -> Host {
    Host { kind: HostKind::Tcp, name: name.to_string() }
}

fn unix(dir: &str) -> Host {
    Host { kind: HostKind::Unix, name: dir.to_string() }
}

#[test]
fn socket_name_for_port_5433() {
    assert_eq!(socket_name(5433), ".s.PGSQL.5433");
}

#[test]
fn socket_name_for_extreme_ports() {
    assert_eq!(socket_name(0), ".s.PGSQL.0");
    assert_eq!(socket_name(65535), ".s.PGSQL.65535");
    assert_eq!(socket_name(DEFAULT_PORT), ".s.PGSQL.5432");
}

#[test]
fn decimal_digits_are_appended() {
    let mut s = String::from("port ");
    push_decimal(&mut s, 907);
    assert_eq!(s, "port 907");
}

#[test]
fn socket_path_under_directory() {
    assert_eq!(socket_path("/var/run/postgresql", 5433), "/var/run/postgresql/.s.PGSQL.5433");
    assert_eq!(socket_path("/tmp/", 5432), "/tmp/.s.PGSQL.5432");
    assert_eq!(socket_path("", 5432), ".s.PGSQL.5432");
}

#[test]
fn first_tcp_host_is_chosen() {
    let config = Config { hosts: vec![unix("/tmp"), tcp("db1"), tcp("db2")], ports: vec![] };
    assert_eq!(try_tcp_host(&config), Ok("db1".to_string()));
}

#[test]
fn no_tcp_host_is_an_error() {
    let config = Config { hosts: vec![unix("/tmp")], ports: vec![5433] };
    assert_eq!(try_tcp_host(&config), Err(HostError::NoTcpHost));
    let empty = Config { hosts: vec![], ports: vec![] };
    assert_eq!(try_tcp_host(&empty), Err(HostError::NoTcpHost));
}

#[test]
fn server_name_accepts_dns_names() {
    assert_eq!(server_name("db.example.com"), Ok("db.example.com".to_string()));
    assert_eq!(server_name("localhost"), Ok("localhost".to_string()));
}

#[test]
fn server_name_rejects_invalid_names() {
    assert_eq!(server_name("bad host!"), Err(HostError::InvalidDnsName));
    assert_eq!(server_name(""), Err(HostError::InvalidDnsName));
    assert_eq!(server_name("127.0.0.1"), Err(HostError::InvalidDnsName));
    assert_eq!(server_name("/var/run/postgresql"), Err(HostError::InvalidDnsName));
}

#[test]
fn checked_server_name_follows_validity() {
    assert_eq!(checked_server_name("db".to_string(), true), Ok("db".to_string()));
    assert_eq!(checked_server_name("db".to_string(), false), Err(HostError::InvalidDnsName));
}
