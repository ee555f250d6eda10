//! Server options: the endpoints to listen on, default response headers,
//! and the application to serve.

use vstd::prelude::*;
use vstd::string::*;
use crate::asgi::scope::SocketAddress;
use crate::headers::HeaderPairs;
use crate::text::{
    find_char, join, lemma_join_split, lemma_split_once_at, lemma_split_once_parts, split, split_once,
    split_str,
};

verus! {

/// How the server is configured.
#[derive(Debug, PartialEq, Eq)]
pub struct Options {
    /// Endpoints to listen on.
    pub addrs: Vec<SocketAddress>,
    /// A UNIX socket to listen on instead.
    pub uds: Option<String>,
    /// An already open listening socket.
    pub fd: Option<i32>,
    /// A PKCS #12 archive holding the TLS identity.
    pub pkcs12: Option<String>,
    /// Headers added to every response, names normalised.
    pub headers: HeaderPairs,
    pub workers: Option<usize>,
    /// The ASGI `root_path` of the application.
    pub root_path: String,
    pub verbose: usize,
    pub access_log: bool,
}

/// The endpoints with every port replaced by `port`.
pub open spec fn with_port(addrs: Seq<(Seq<char>, u16)>, port: u16) -> Seq<(Seq<char>, u16)> {
    addrs.map_values(|a: (Seq<char>, u16)| (a.0, port))
}

/// A source of connections the server listens on.
#[derive(Debug, PartialEq, Eq)]
pub enum Listen {
    /// The already open socket, registered under the first endpoint.
    Fd(i32, SocketAddress),
    /// A socket bound to the endpoint.
    Tcp(SocketAddress),
}

pub enum ListenView {
    Fd(i32, (Seq<char>, u16)),
    Tcp((Seq<char>, u16)),
}

impl DeepView for Listen {
    type V = ListenView;

    open spec fn deep_view(&self) -> ListenView {
        match self {
            Listen::Fd(fd, a) => ListenView::Fd(*fd, a@),
            Listen::Tcp(a) => ListenView::Tcp(a@),
        }
    }
}

/// The listeners to open, in order: the open socket if one is given, under
/// the first endpoint, then a socket bound to every endpoint.
pub open spec fn listen_plan(fd: Option<i32>, addrs: Seq<(Seq<char>, u16)>) -> Seq<ListenView> {
    let tcp = addrs.map_values(|a: (Seq<char>, u16)| ListenView::Tcp(a));
    match fd {
        Some(fd) => seq![ListenView::Fd(fd, addrs[0])] + tcp,
        None => tcp,
    }
}

fn copy_address(a: &SocketAddress) -> (r: SocketAddress)
    ensures
        r@ == a@,
{
    SocketAddress { ip: a.ip.clone(), port: a.port }
}

impl Options {
    /// Sets the port of every endpoint; nothing else changes.
    pub fn set_port(&mut self, port: u16)
        ensures
            final(self).addrs.deep_view() == with_port(old(self).addrs.deep_view(), port),
            final(self).uds == old(self).uds,
            final(self).fd == old(self).fd,
            final(self).pkcs12 == old(self).pkcs12,
            final(self).headers == old(self).headers,
            final(self).workers == old(self).workers,
            final(self).root_path == old(self).root_path,
            final(self).verbose == old(self).verbose,
            final(self).access_log == old(self).access_log,
    {
        let ghost before = self.addrs.deep_view();
        let mut i: usize = 0;
        while i < self.addrs.len()
            invariant
                i <= self.addrs.len(),
                self.addrs.len() == before.len(),
                forall|j: int| 0 <= j < i ==> #[trigger] self.addrs@[j].deep_view() == (before[j].0, port),
                forall|j: int| i <= j < before.len() ==> #[trigger] self.addrs@[j].deep_view() == before[j],
                self.uds == old(self).uds,
                self.fd == old(self).fd,
                self.pkcs12 == old(self).pkcs12,
                self.headers == old(self).headers,
                self.workers == old(self).workers,
                self.root_path == old(self).root_path,
                self.verbose == old(self).verbose,
                self.access_log == old(self).access_log,
            decreases self.addrs.len() - i,
        {
            let ghost prev = self.addrs@;
            assert(prev[i as int].deep_view() == before[i as int]);
            let ip = self.addrs[i].ip.clone();
            assert(ip@ == prev[i as int].ip@);
            self.addrs.set(i, SocketAddress { ip, port });
            assert(self.addrs@ == prev.update(i as int, SocketAddress { ip, port }));
            assert(self.addrs@[i as int].deep_view() == (before[i as int].0, port));
            i = i + 1;
        }
        assert(self.addrs.deep_view() =~= with_port(before, port));
    }

    /// The listeners to open.
    pub fn listen_plan(&self) -> (r: Vec<Listen>)
        requires
            self.addrs.len() > 0,
            self.uds is None,
        ensures
            r.deep_view() == listen_plan(self.fd, self.addrs.deep_view()),
    {
        let mut r: Vec<Listen> = Vec::new();
        if let Some(fd) = self.fd {
            r.push(Listen::Fd(fd, copy_address(&self.addrs[0])));
        }
        let ghost first = r.deep_view();
        let mut i: usize = 0;
        while i < self.addrs.len()
            invariant
                i <= self.addrs.len(),
                self.fd is Some ==> first == seq![ListenView::Fd(self.fd->0, self.addrs@[0]@)],
                self.fd is None ==> first == Seq::<ListenView>::empty(),
                r@.len() == first.len() + i,
                forall|j: int| 0 <= j < first.len() ==> #[trigger] r@[j].deep_view() == first[j],
                forall|j: int| 0 <= j < i ==> #[trigger] r@[first.len() + j].deep_view() == ListenView::Tcp(self.addrs@[j]@),
            decreases self.addrs.len() - i,
        {
            r.push(Listen::Tcp(copy_address(&self.addrs[i])));
            i = i + 1;
        }
        let ghost plan = listen_plan(self.fd, self.addrs.deep_view());
        assert forall|j: int| 0 <= j < plan.len() implies r.deep_view()[j] == plan[j] by {
            if j >= first.len() {
                assert(r@[first.len() + (j - first.len())].deep_view() == ListenView::Tcp(
                    self.addrs@[j - first.len()]@,
                ));
            }
        }
        assert(r.deep_view() =~= plan);
        r
    }
}

/// Setting the port twice is setting it once, to the second value.
pub proof fn lemma_set_port_last_wins(addrs: Seq<(Seq<char>, u16)>, p1: u16, p2: u16)
    ensures
        with_port(with_port(addrs, p1), p2) == with_port(addrs, p2),
{
    assert(with_port(with_port(addrs, p1), p2) =~= with_port(addrs, p2));
}

/// The application to serve: a module, and a dotted attribute path in it.
#[derive(Debug, PartialEq, Eq)]
pub struct AppTarget {
    pub module: String,
    pub attrs: Vec<String>,
}

/// Why an application path was refused.
#[derive(Clone, Copy, Debug, PartialEq, Eq, Structural)]
pub enum AppTargetError {
    /// The path is not of the form `<module>:<attribute>`.
    MissingColon,
}

/// The target an application path names: the module before the first `:`,
/// and the pieces of the rest between dots.
pub open spec fn app_target(s: Seq<char>) -> Result<(Seq<char>, Seq<Seq<char>>), AppTargetError> {
    match split_once(s, ':') {
        None => Err(AppTargetError::MissingColon),
        Some((module, attrs)) => Ok((module, split(attrs, '.'))),
    }
}

/// Reads an application path of the form `<module>:<attribute>`, where the
/// attribute may be a dotted path.
pub fn parse_app_target(s: &str) -> (r: Result<AppTarget, AppTargetError>)
    ensures
        match r {
            Ok(t) => app_target(s@) == Ok::<_, AppTargetError>((t.module@, t.attrs.deep_view())),
            Err(e) => app_target(s@) == Err::<(Seq<char>, Seq<Seq<char>>), _>(e),
        },
{
    let n = s.unicode_len();
    let i = find_char(s, ':');
    proof {
        lemma_split_once_at(s@, ':', i as int);
    }
    if i == n {
        return Err(AppTargetError::MissingColon);
    }
    let module = s.substring_char(0, i).to_owned();
    let rest = s.substring_char(i + 1, n);
    let attrs = split_str(rest, '.');
    assert(module@ =~= s@.take(i as int));
    assert(rest@ =~= s@.skip(i + 1));
    Ok(AppTarget { module, attrs })
}


/// An application path is read without loss: the module, a colon, and the
/// attribute names joined by dots give the path back; the module holds no
/// colon.
pub proof fn lemma_app_target_lossless(s: Seq<char>)
    ensures
        app_target(s) matches Ok((module, attrs)) ==> {
            &&& s == module + seq![':'] + join(attrs, '.')
            &&& forall|i: int| 0 <= i < module.len() ==> module[i] != ':'
        },
{
    lemma_split_once_parts(s, ':');
    if let Some((module, rest)) = split_once(s, ':') {
        lemma_join_split(rest, '.');
    }
}

} // verus!
