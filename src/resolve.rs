use vstd::prelude::*;

use crate::host::{port_at, socket_path, socket_path_of, Config, Host, HostKind, DEFAULT_PORT};

verus! {

/// What to open for one candidate.
#[derive(Debug)]
pub enum Target {
    /// A network connection to `host` on `port`.
    Tcp { host: String, port: u16 },
    /// A connection to the local socket at `path`.
    Unix { path: String },
}

/// One connection attempt that the fallback asks for.
#[derive(Debug)]
pub struct Attempt {
    /// The position of the candidate in the configured order.
    pub index: usize,
    /// The transport to open.
    pub target: Target,
    /// The host name handed to the TLS layer for this candidate.
    pub tls_name: String,
}

/// Why no connection could be made.
#[derive(Debug)]
pub enum ResolveError<E> {
    /// No candidate host was configured; nothing was tried.
    HostMissing,
    /// Every candidate failed; this is the failure of the last one.
    Failed(E),
}

/// `target` opens candidate `h` with `port`.
pub open spec fn aims_at(target: Target, h: Host, port: u16) -> bool {
    match target {
        Target::Tcp { host, port: p } => h.kind == HostKind::Tcp && host@ == h.name@ && p == port,
        Target::Unix { path } => h.kind == HostKind::Unix && path@ == socket_path_of(h.name@, port),
    }
}

/// The outcome of trying the candidates from `i` on, in order, where the attempt on
/// candidate `j` ends as `results[j]` and `last` is the error to report if none succeeds.
pub open spec fn resolve_from<E>(
    results: Seq<Result<(), E>>,
    i: int,
    last: ResolveError<E>,
) -> Result<int, ResolveError<E>>
    decreases results.len() - i,
{
    if i < 0 || i >= results.len() {
        Err(last)
    } else {
        match results[i] {
            Ok(_) => Ok(i),
            Err(e) => resolve_from(results, i + 1, ResolveError::Failed(e)),
        }
    }
}

/// The outcome of the whole fallback: the index of the first candidate whose attempt
/// succeeds, or the last failure, or `HostMissing` when there is no candidate.
pub open spec fn resolution<E>(results: Seq<Result<(), E>>) -> Result<int, ResolveError<E>> {
    resolve_from(results, 0, ResolveError::HostMissing)
}

/// The sequential fallback over the configured candidates: the caller asks for the next
/// attempt, performs it, and reports a failure back; the first success ends the search.
pub struct Resolver<E> {
    hosts: Vec<Host>,
    ports: Vec<u16>,
    tried: usize,
    last: Option<E>,
}

impl<E> Resolver<E> {
    /// The candidates, in the order they are tried.
    pub closed spec fn candidates(&self) -> Seq<Host> {
        self.hosts@
    }

    /// The configured ports, paired with the candidates by position.
    pub closed spec fn ports(&self) -> Seq<u16> {
        self.ports@
    }

    /// How many candidates have failed so far.
    pub closed spec fn tried(&self) -> nat {
        self.tried as nat
    }

    /// The failure of the last candidate tried, if any was.
    pub closed spec fn last_error(&self) -> Option<E> {
        self.last
    }

    pub closed spec fn wf(&self) -> bool {
        &&& self.tried <= self.hosts.len()
        &&& (self.tried == 0 <==> self.last is None)
    }

    /// The error to report if the candidates from the current one on all fail.
    pub open spec fn pending_error(&self) -> ResolveError<E> {
        match self.last_error() {
            Some(e) => ResolveError::Failed(e),
            None => ResolveError::HostMissing,
        }
    }

    /// Starts the fallback over the hosts and ports of `config`.
    pub fn new(config: Config) -> (r: Self)
        ensures
            r.wf(),
            r.candidates() == config.hosts@,
            r.ports() == config.ports@,
            r.tried() == 0,
            r.last_error() is None,
    {
        Resolver { hosts: config.hosts, ports: config.ports, tried: 0, last: None }
    }

    /// Whether every candidate has been tried.
    pub fn is_exhausted(&self) -> (r: bool)
        requires
            self.wf(),
        ensures
            r == (self.tried() == self.candidates().len()),
    {
        self.tried == self.hosts.len()
    }

    /// The attempt on the next untried candidate, paired with its port; `None` once every
    /// candidate has been tried.
    pub fn next_attempt(&self) -> (r: Option<Attempt>)
        requires
            self.wf(),
        ensures
            r is None <==> self.tried() == self.candidates().len(),
            r matches Some(a) ==> {
                let h = self.candidates()[self.tried() as int];
                &&& a.index == self.tried()
                &&& aims_at(a.target, h, port_at(self.ports(), self.tried() as int))
                &&& a.tls_name@ == h.name@
            },
    {
        if self.tried == self.hosts.len() {
            return None;
        }
        let i = self.tried;
        let port = if i < self.ports.len() {
            self.ports[i]
        } else {
            DEFAULT_PORT
        };
        let h = &self.hosts[i];
        let target = match h.kind {
            HostKind::Tcp => Target::Tcp { host: h.name.clone(), port },
            HostKind::Unix => Target::Unix { path: socket_path(h.name.as_str(), port) },
        };
        Some(Attempt { index: i, target, tls_name: h.name.clone() })
    }

    /// Records that the attempt on the current candidate failed with `err`, and moves on
    /// to the next candidate.
    pub fn record_failure(&mut self, err: E)
        requires
            old(self).wf(),
            old(self).tried() < old(self).candidates().len(),
        ensures
            final(self).wf(),
            final(self).candidates() == old(self).candidates(),
            final(self).ports() == old(self).ports(),
            final(self).tried() == old(self).tried() + 1,
            final(self).last_error() == Some(err),
    {
        self.tried = self.tried + 1;
        self.last = Some(err);
    }

    /// The error that ends a fallback in which every candidate failed: the failure of the
    /// last candidate, or `HostMissing` when there was none.
    pub fn into_error(self) -> (r: ResolveError<E>)
        requires
            self.wf(),
            self.tried() == self.candidates().len(),
        ensures
            r == self.pending_error(),
            self.candidates().len() == 0 ==> r == ResolveError::<E>::HostMissing,
    {
        match self.last {
            Some(e) => ResolveError::Failed(e),
            None => ResolveError::HostMissing,
        }
    }
}

/// Runs the fallback over the candidates of `config`, where the attempt on candidate `i`
/// ends as `outcomes[i]`. Returns the index of the candidate that connected, or the error,
/// together with the number of attempts made; no outcome after the first success is read.
pub fn run_fallback<E>(config: Config, outcomes: Vec<Result<(), E>>) -> (r: (
    Result<usize, ResolveError<E>>,
    usize,
))
    requires
        outcomes@.len() == config.hosts@.len(),
    ensures
        match r.0 {
            Ok(i) => resolution(outcomes@) == Ok::<int, ResolveError<E>>(i as int) && r.1 == i + 1,
            Err(e) => resolution(outcomes@) == Err::<int, ResolveError<E>>(e) && r.1
                == outcomes@.len(),
        },
{
    let ghost all = outcomes@;
    let mut pending = outcomes;
    let mut resolver: Resolver<E> = Resolver::new(config);
    loop
        invariant
            resolver.wf(),
            resolver.candidates().len() == all.len(),
            pending@ == all.subrange(resolver.tried() as int, all.len() as int),
            all == outcomes@,
            resolve_from(all, resolver.tried() as int, resolver.pending_error()) == resolution(all),
        decreases all.len() - resolver.tried(),
    {
        match resolver.next_attempt() {
            None => {
                let n = resolver.tried;
                let err = resolver.into_error();
                assert(resolve_from(all, n as int, err) == Err::<int, ResolveError<E>>(err));
                return (Err(err), n);
            },
            Some(a) => {
                let ghost t = resolver.tried() as int;
                let o = pending.remove(0);
                assert(o == all[t]);
                match o {
                    Ok(()) => {
                        assert(resolve_from(all, t, resolver.pending_error()) == Ok::<
                            int,
                            ResolveError<E>,
                        >(t));
                        return (Ok(a.index), a.index + 1);
                    },
                    Err(e) => {
                        resolver.record_failure(e);
                        assert(pending@ =~= all.subrange(resolver.tried() as int, all.len() as int));
                    },
                }
            },
        }
    }
}

proof fn lemma_reaches<E>(results: Seq<Result<(), E>>, k: int, i: int, last: ResolveError<E>)
    requires
        0 <= i <= k < results.len(),
        results[k] is Ok,
        forall|j: int| i <= j < k ==> #[trigger] results[j] is Err,
    ensures
        resolve_from(results, i, last) == Ok::<int, ResolveError<E>>(k),
    decreases k - i,
{
    if i < k {
        let e = results[i]->Err_0;
        lemma_reaches(results, k, i + 1, ResolveError::Failed(e));
    }
}

proof fn lemma_falls_through<E>(results: Seq<Result<(), E>>, i: int, last: ResolveError<E>)
    requires
        0 <= i < results.len(),
        forall|j: int| i <= j < results.len() ==> #[trigger] results[j] is Err,
    ensures
        resolve_from(results, i, last) == Err::<int, ResolveError<E>>(
            ResolveError::Failed(results.last()->Err_0),
        ),
    decreases results.len() - i,
{
    if i + 1 < results.len() {
        lemma_falls_through(results, i + 1, ResolveError::Failed(results[i]->Err_0));
    } else {
        let e = results[i]->Err_0;
        assert(resolve_from(results, i + 1, ResolveError::Failed(e)) == Err::<int, ResolveError<E>>(
            ResolveError::Failed(e),
        ));
    }
}

/// When exactly one candidate is reachable, the fallback connects to that candidate,
/// wherever it stands in the list.
pub proof fn lemma_single_reachable<E>(results: Seq<Result<(), E>>, k: int)
    requires
        0 <= k < results.len(),
        results[k] is Ok,
        forall|j: int| 0 <= j < results.len() && j != k ==> #[trigger] results[j] is Err,
    ensures
        resolution(results) == Ok::<int, ResolveError<E>>(k),
{
    lemma_reaches(results, k, 0, ResolveError::HostMissing);
}

/// When no candidate is reachable, the fallback fails with the failure of the last
/// candidate tried, not an earlier one.
pub proof fn lemma_none_reachable<E>(results: Seq<Result<(), E>>)
    requires
        results.len() > 0,
        forall|j: int| 0 <= j < results.len() ==> #[trigger] results[j] is Err,
    ensures
        resolution(results) == Err::<int, ResolveError<E>>(
            ResolveError::Failed(results.last()->Err_0),
        ),
{
    lemma_falls_through(results, 0, ResolveError::HostMissing);
}

/// With no candidate the fallback fails with `HostMissing`, and the resolver asks for no
/// attempt at all.
pub proof fn lemma_no_candidates<E>(results: Seq<Result<(), E>>, resolver: Resolver<E>)
    requires
        results.len() == 0,
        resolver.wf(),
        resolver.candidates().len() == 0,
    ensures
        resolution(results) == Err::<int, ResolveError<E>>(ResolveError::HostMissing),
        resolver.tried() == resolver.candidates().len(),
        resolver.pending_error() == ResolveError::<E>::HostMissing,
{
}

/// A failed attempt (one cut short by the connect timeout among them) never ends the
/// search: the outcome is that of the later candidates, with this failure as the error
/// reported if none of them connects.
pub proof fn lemma_failure_moves_on<E>(
    results: Seq<Result<(), E>>,
    i: int,
    last: ResolveError<E>,
)
    requires
        0 <= i < results.len(),
        results[i] is Err,
    ensures
        resolve_from(results, i, last) == resolve_from(
            results,
            i + 1,
            ResolveError::Failed(results[i]->Err_0),
        ),
{
}

} // verus!
