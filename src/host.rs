use vstd::prelude::*;

verus! {

/// The port a server listens on when the configuration names none.
pub const DEFAULT_PORT: u16 = 5432;

/// Where a server may be reached.
#[derive(Debug, Clone, Copy, PartialEq, Eq, Structural)]
pub enum HostKind {
    /// A network host name or address.
    Tcp,
    /// A directory holding the server's local socket.
    Unix,
}

/// One candidate address: a network host name, or the directory of a local socket.
#[derive(Debug)]
pub struct Host {
    pub kind: HostKind,
    pub name: String,
}

/// The parts of a connection configuration that decide where to connect.
#[derive(Debug)]
pub struct Config {
    pub hosts: Vec<Host>,
    pub ports: Vec<u16>,
}

/// Errors of choosing a host for an encrypted connection.
#[derive(Debug, Clone, Copy, PartialEq, Eq, Structural)]
pub enum HostError {
    /// No network host name is configured.
    NoTcpHost,
    /// The first network host name is not a syntactically valid DNS name.
    InvalidDnsName,
}

/// The port paired with the candidate at `i`: the `i`-th configured port, or the default
/// once the list of ports is used up.
pub open spec fn port_at(ports: Seq<u16>, i: int) -> u16 {
    if 0 <= i < ports.len() {
        ports[i]
    } else {
        DEFAULT_PORT
    }
}

pub open spec fn digit_char(d: nat) -> char {
    if d == 0 {
        '0'
    } else if d == 1 {
        '1'
    } else if d == 2 {
        '2'
    } else if d == 3 {
        '3'
    } else if d == 4 {
        '4'
    } else if d == 5 {
        '5'
    } else if d == 6 {
        '6'
    } else if d == 7 {
        '7'
    } else if d == 8 {
        '8'
    } else {
        '9'
    }
}

/// The decimal digits of `n`, most significant first, without leading zeros.
pub open spec fn decimal(n: nat) -> Seq<char>
    decreases n,
{
    if n < 10 {
        seq![digit_char(n)]
    } else {
        decimal(n / 10) + seq![digit_char(n % 10)]
    }
}

pub open spec fn socket_prefix() -> Seq<char> {
    seq!['.', 's', '.', 'P', 'G', 'S', 'Q', 'L', '.']
}

/// The file name of the server's local socket for a port: `.s.PGSQL.` and the port in decimal.
pub open spec fn socket_file_name(port: u16) -> Seq<char> {
    socket_prefix() + decimal(port as nat)
}

/// A relative name joined under a directory, with one `/` between them unless the
/// directory is empty or already ends in `/`.
pub open spec fn joined(dir: Seq<char>, name: Seq<char>) -> Seq<char> {
    if dir.len() == 0 || dir.last() == '/' {
        dir + name
    } else {
        dir + seq!['/'] + name
    }
}

/// The path of the local socket in `dir` for `port`.
pub open spec fn socket_path_of(dir: Seq<char>, port: u16) -> Seq<char> {
    joined(dir, socket_file_name(port))
}

fn digit_str(d: u16) -> (r: &'static str)
    requires
        d < 10,
    ensures
        r@ == seq![digit_char(d as nat)],
{
    proof {
        reveal_strlit("0");
        reveal_strlit("1");
        reveal_strlit("2");
        reveal_strlit("3");
        reveal_strlit("4");
        reveal_strlit("5");
        reveal_strlit("6");
        reveal_strlit("7");
        reveal_strlit("8");
        reveal_strlit("9");
    }
    let r = if d == 0 {
        "0"
    } else if d == 1 {
        "1"
    } else if d == 2 {
        "2"
    } else if d == 3 {
        "3"
    } else if d == 4 {
        "4"
    } else if d == 5 {
        "5"
    } else if d == 6 {
        "6"
    } else if d == 7 {
        "7"
    } else if d == 8 {
        "8"
    } else {
        "9"
    };
    assert(r@ =~= seq![digit_char(d as nat)]);
    r
}

/// Appends the decimal digits of `n` to `out`.
pub fn push_decimal(out: &mut String, n: u16)
    ensures
        final(out)@ == old(out)@ + decimal(n as nat),
    decreases n,
{
    if n >= 10 {
        push_decimal(out, n / 10);
    }
    out.append(digit_str(n % 10));
    proof {
        assert(final(out)@ =~= old(out)@ + decimal(n as nat));
    }
}

/// The file name of the server's local socket for `port`.
pub fn socket_name(port: u16) -> (r: String)
    ensures
        r@ == socket_file_name(port),
{
    proof {
        reveal_strlit(".s.PGSQL.");
    }
    let mut r = String::from_str(".s.PGSQL.");
    assert(r@ =~= socket_prefix());
    push_decimal(&mut r, port);
    r
}

/// The path of the server's local socket under the directory `dir` for `port`.
pub fn socket_path(dir: &str, port: u16) -> (r: String)
    ensures
        r@ == socket_path_of(dir@, port),
{
    let name = socket_name(port);
    let n = dir.unicode_len();
    let mut r = String::from_str(dir);
    if n > 0 && dir.get_char(n - 1) != '/' {
        proof {
            reveal_strlit("/");
        }
        r.append("/");
    }
    r.append(name.as_str());
    assert(r@ =~= socket_path_of(dir@, port));
    r
}

/// The index of the first network host at or after `i`, or the length of `hosts` if none.
pub open spec fn first_tcp_from(hosts: Seq<Host>, i: int) -> int
    decreases hosts.len() - i,
{
    if i < 0 || i >= hosts.len() {
        hosts.len() as int
    } else if hosts[i].kind == HostKind::Tcp {
        i
    } else {
        first_tcp_from(hosts, i + 1)
    }
}

/// The index of the first network host, or the length of `hosts` if none.
pub open spec fn first_tcp(hosts: Seq<Host>) -> int {
    first_tcp_from(hosts, 0)
}

/// The name of the first network host of the configuration.
pub fn try_tcp_host(config: &Config) -> (r: Result<String, HostError>)
    ensures
        first_tcp(config.hosts@) < config.hosts@.len() ==> (r matches Ok(s) && s@
            == config.hosts@[first_tcp(config.hosts@)].name@),
        first_tcp(config.hosts@) >= config.hosts@.len() ==> r == Err::<String, HostError>(
            HostError::NoTcpHost,
        ),
{
    let n = config.hosts.len();
    let mut i: usize = 0;
    while i < n
        invariant
            n == config.hosts@.len(),
            i <= n,
            first_tcp_from(config.hosts@, i as int) == first_tcp(config.hosts@),
        decreases n - i,
    {
        let h = &config.hosts[i];
        if h.kind == HostKind::Tcp {
            return Ok(h.name.clone());
        }
        i = i + 1;
    }
    Err(HostError::NoTcpHost)
}

/// Whether a text is a syntactically valid DNS name, as the TLS layer judges it.
pub uninterp spec fn is_dns_name(s: Seq<char>) -> bool;

/// Relies on webpki::DNSNameRef::try_from_ascii_str: it accepts exactly the syntactically
/// valid DNS names, and never the empty text.
#[verifier::external_body]
fn dns_name_valid(name: &str) -> (r: bool)
    ensures
        r == is_dns_name(name@),
        name@.len() == 0 ==> !r,
{
    webpki::DNSNameRef::try_from_ascii_str(name).is_ok()
}

/// The server name for certificate checks, given the host name and whether it is a valid
/// DNS name.
pub fn checked_server_name(host: String, valid: bool) -> (r: Result<String, HostError>)
    ensures
        valid ==> (r matches Ok(s) && s@ == host@),
        !valid ==> r == Err::<String, HostError>(HostError::InvalidDnsName),
{
    if valid {
        Ok(host)
    } else {
        Err(HostError::InvalidDnsName)
    }
}

/// The name an encrypted connection checks the server's certificate against: the host
/// name of the candidate that connected, which must be a valid DNS name.
pub fn server_name(name: &str) -> (r: Result<String, HostError>)
    ensures
        is_dns_name(name@) ==> (r matches Ok(s) && s@ == name@),
        !is_dns_name(name@) ==> r == Err::<String, HostError>(HostError::InvalidDnsName),
{
    let valid = dns_name_valid(name);
    checked_server_name(String::from_str(name), valid)
}

} // verus!
