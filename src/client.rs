//! The management client: the request each command sends, and how the
//! server's reply is read.
use vstd::prelude::*;
use vstd::string::*;
use crate::management::{
    response_of, result_view, LogLevel, Request, RequestModel, LogLevelModel, Response,
    ResponseModel,
};
use crate::static_files::joined_path;
use crate::app_defaults::join_path;
use crate::state::{AppState, DiagnosticModel, ServiceConfigError, ServiceModel, ServiceType};
use crate::text::{append_str, chars_of, decimal, decimal_string, string_of};

verus! {

/// Log commands of the command line.
#[derive(Clone, Copy, Debug, PartialEq, Eq, Structural)]
pub enum LogCommand {
    Debug,
    Trace,
    Reset,
    Custom,
}

/// A management client; it always connects to loopback.
pub struct Client {
    pub port: u16,
}

impl Client {
    /// A client of the management endpoint on `port`.
    pub fn new(port: u16) -> (r: Client)
        ensures
            r.port == port,
    {
        Client { port }
    }

    /// What the server's reply line means, or why it could not be read.
    pub fn read_response(&self, reply: Result<String, String>) -> (r: Result<Response, String>)
        ensures
            match reply {
                Err(e) => r matches Err(m) && m@ == e@,
                Ok(line) => match response_of(line@) {
                    Ok(v) => r matches Ok(resp) && resp@ == v,
                    Err(e) => r matches Err(m) && m@ == "error response from server: "@ + e,
                },
            },
    {
        match reply {
            Err(e) => Err(e),
            Ok(line) => match Response::parse(line.as_str()) {
                Ok(resp) => Ok(resp),
                Err(e) => {
                    let mut m = String::from_str("error response from server: ");
                    append_str(&mut m, e.as_str());
                    Err(m)
                },
            },
        }
    }
}

/// What a command's exchange with the server comes to: an error reply is an
/// error, with the server's text.
pub open spec fn client_outcome(result: Result<ResponseModel, Seq<char>>) -> Result<(), Seq<char>> {
    match result {
        Ok(ResponseModel::Error(e)) => Err("Error from server: "@ + e),
        Ok(_) => Ok(()),
        Err(e) => Err(e),
    }
}

/// Turns the server's answer into the command's result.
pub fn process_client_response(result: Result<Response, String>) -> (r: Result<(), String>)
    ensures
        match r {
            Ok(_) => client_outcome(result_view(result)) is Ok,
            Err(m) => client_outcome(result_view(result)) == Err::<(), Seq<char>>(m@),
        },
{
    match result {
        Ok(Response::Error(err)) => {
            let mut m = String::from_str("Error from server: ");
            append_str(&mut m, err.as_str());
            Err(m)
        },
        Ok(_) => Ok(()),
        Err(e) => Err(e),
    }
}

/// The command line's view of the service: its management port and its
/// state directory.
pub struct DuwopClient {
    pub management_port: u16,
    pub state_dir: String,
}

/// The last component of a path without a trailing slash, if it has one.
pub open spec fn file_name_of(p: Seq<char>) -> Option<Seq<char>> {
    let s = crate::static_files::name_start(p);
    if s >= p.len() || p.skip(s as int) == ".."@ {
        None
    } else {
        Some(p.skip(s as int))
    }
}

/// The view of an optional string.
pub open spec fn opt_view(s: Option<String>) -> Option<Seq<char>> {
    match s {
        Some(v) => Some(v@),
        None => None,
    }
}

/// Where the link of a `link` command goes: under the state directory, named
/// `name` or after the served directory.
pub open spec fn link_of(state_dir: Seq<char>, name: Option<Seq<char>>, source_dir: Seq<char>) -> Option<Seq<char>> {
    match name {
        Some(n) => Some(joined_path(state_dir, n)),
        None => match file_name_of(source_dir) {
            Some(n) => Some(joined_path(state_dir, n)),
            None => None,
        },
    }
}

impl DuwopClient {
    /// A client for the service on `management_port` that keeps its state in
    /// `state_dir`.
    pub fn new(management_port: u16, state_dir: String) -> (r: DuwopClient)
        ensures
            r.management_port == management_port,
            r.state_dir@ == state_dir@,
    {
        DuwopClient { management_port, state_dir }
    }

    /// The request that reloads the server's registry.
    pub fn reload_server_configuration(&self) -> (r: Request)
        ensures
            r@ == RequestModel::ReloadState,
    {
        Request::ReloadState
    }

    /// The request that makes the server mint a new TLS leaf.
    pub fn reload_ssl(&self) -> (r: Request)
        ensures
            r@ == RequestModel::ReloadSsl,
    {
        Request::ReloadSsl
    }

    /// The request that probes the server.
    pub fn check_server_status(&self) -> (r: Request)
        ensures
            r@ == RequestModel::ServerStatus,
    {
        Request::ServerStatus
    }

    /// The request for a log command; `Custom` comes with its level.
    pub fn run_log_command(&self, cmd: LogCommand, custom_level: Option<String>) -> (r: Request)
        requires
            cmd == LogCommand::Custom ==> custom_level is Some,
        ensures
            r@ == match cmd {
                LogCommand::Debug => RequestModel::SetLogLevel(LogLevelModel::DebugLevel),
                LogCommand::Trace => RequestModel::SetLogLevel(LogLevelModel::TraceLevel),
                LogCommand::Reset => RequestModel::ResetLogLevel,
                LogCommand::Custom => RequestModel::SetLogLevel(
                    LogLevelModel::CustomLevel(custom_level->0@),
                ),
            },
    {
        match cmd {
            LogCommand::Debug => Request::SetLogLevel(LogLevel::DebugLevel),
            LogCommand::Trace => Request::SetLogLevel(LogLevel::TraceLevel),
            LogCommand::Custom => match custom_level {
                Some(level) => Request::SetLogLevel(LogLevel::CustomLevel(level)),
                None => Request::ResetLogLevel,
            },
            LogCommand::Reset => Request::ResetLogLevel,
        }
    }

    /// The listing of a loaded registry, one line per service in name order.
    pub fn print_services(&self, state: &AppState) -> (r: Vec<String>)
        requires
            state.wf(),
        ensures
            exists|ns: Seq<Seq<char>>| {
                &&& ascending(ns)
                &&& ns.len() == r@.len() == state.model().services.dom().len()
                &&& forall|k: Seq<char>| state.model().services.contains_key(k) <==> ns.contains(k)
                &&& forall|i: int| 0 <= i < ns.len() ==> r@[i]@ == listing_line(#[trigger] ns[i], state.model().services[ns[i]])
            },
    {
        let names = sorted_names(state);
        let ghost ns = names@.map_values(|s: String| s@);
        let mut r: Vec<String> = Vec::new();
        let mut i: usize = 0;
        while i < names.len()
            invariant
                state.wf(),
                ns == names@.map_values(|s: String| s@),
                forall|k: Seq<char>| state.model().services.contains_key(k) <==> ns.contains(k),
                i <= names@.len(),
                r@.len() == i,
                forall|j: int| 0 <= j < i ==> r@[j]@ == listing_line(#[trigger] ns[j], state.model().services[ns[j]]),
            decreases names@.len() - i,
        {
            let name = names[i].as_str();
            assert(ns.contains(ns[i as int]));
            let mut line = String::from_str("* ");
            append_str(&mut line, name);
            match state.get(name) {
                Some(ServiceType::StaticFiles(p)) => {
                    append_str(&mut line, " [Static Files Directory]: ");
                    append_str(&mut line, p.as_str());
                },
                Some(ServiceType::ReverseProxy(port)) => {
                    append_str(&mut line, " [Reverse Proxy]: http://127.0.0.1:");
                    let digits = decimal_string(*port as u64);
                    append_str(&mut line, digits.as_str());
                },
                Some(ServiceType::InvalidConfig(m)) => {
                    append_str(&mut line, " [Config Error]: ");
                    append_str(&mut line, m.as_str());
                },
                None => {},
            }
            r.push(line);
            i = i + 1;
        }
        r
    }

    /// Sorts the problems of a loaded registry.
    pub fn check_database_status(&self, state: &AppState) -> (r: DatabaseStatus)
        requires
            state.wf(),
        ensures
            forall|k: Seq<char>, m: Seq<char>| (exists|i: int| 0 <= i < r.invalid_configurations@.len()
                && r.invalid_configurations@[i].0@ == k && #[trigger] r.invalid_configurations@[i].1@ == m)
                <==> (state.model().services.contains_key(k) && state.model().services[k] == ServiceModel::InvalidConfig(m)),
            views(r.name_errors@) == name_errors_of(state.model().errors),
            views(r.io_errors@) == io_errors_of(state.model().errors),
    {
        let names = state.names();
        let mut invalid: Vec<(String, String)> = Vec::new();
        let mut i: usize = 0;
        while i < names.len()
            invariant
                state.wf(),
                i <= names@.len(),
                forall|k: Seq<char>| state.model().services.contains_key(k) <==> exists|j: int| 0 <= j < names@.len() && names@[j]@ == k,
                forall|a: int, b: int| 0 <= a < b < names@.len() ==> names@[a]@ != names@[b]@,
                forall|k: Seq<char>, m: Seq<char>| (exists|t: int| 0 <= t < invalid@.len()
                    && invalid@[t].0@ == k && #[trigger] invalid@[t].1@ == m)
                    <==> (exists|j: int| 0 <= j < i && names@[j]@ == k) && state.model().services[k] == ServiceModel::InvalidConfig(m),
            decreases names@.len() - i,
        {
            let name = names[i].as_str();
            assert(state.model().services.contains_key(names@[i as int]@));
            let ghost old_inv = invalid@;
            match state.get(name) {
                Some(ServiceType::InvalidConfig(m)) => {
                    invalid.push((names[i].clone(), m.clone()));
                    proof {
                        assert forall|k: Seq<char>, mm: Seq<char>| (exists|t: int| 0 <= t < invalid@.len()
                            && invalid@[t].0@ == k && #[trigger] invalid@[t].1@ == mm)
                            <==> (exists|j: int| 0 <= j < i + 1 && names@[j]@ == k) && state.model().services[k] == ServiceModel::InvalidConfig(mm) by {
                            if exists|t: int| 0 <= t < invalid@.len() && invalid@[t].0@ == k && #[trigger] invalid@[t].1@ == mm {
                                let t = choose|t: int| 0 <= t < invalid@.len() && invalid@[t].0@ == k && #[trigger] invalid@[t].1@ == mm;
                                if t < old_inv.len() {
                                    assert(invalid@[t] == old_inv[t]);
                                    let j = choose|j: int| 0 <= j < i && names@[j]@ == k;
                                }
                            }
                            if (exists|j: int| 0 <= j < i + 1 && names@[j]@ == k) && state.model().services[k] == ServiceModel::InvalidConfig(mm) {
                                let j = choose|j: int| 0 <= j < i + 1 && names@[j]@ == k;
                                if j < i {
                                    let t = choose|t: int| 0 <= t < old_inv.len() && old_inv[t].0@ == k && #[trigger] old_inv[t].1@ == mm;
                                    assert(invalid@[t] == old_inv[t]);
                                } else {
                                    assert(invalid@[old_inv.len() as int].1@ == mm);
                                }
                            }
                        }
                    }
                },
                _ => {
                    proof {
                        assert forall|k: Seq<char>, mm: Seq<char>| (exists|t: int| 0 <= t < invalid@.len()
                            && invalid@[t].0@ == k && #[trigger] invalid@[t].1@ == mm)
                            <==> (exists|j: int| 0 <= j < i + 1 && names@[j]@ == k) && state.model().services[k] == ServiceModel::InvalidConfig(mm) by {
                            if (exists|j: int| 0 <= j < i + 1 && names@[j]@ == k) && state.model().services[k] == ServiceModel::InvalidConfig(mm) {
                                let j = choose|j: int| 0 <= j < i + 1 && names@[j]@ == k;
                                if j == i {
                                    assert(false);
                                }
                            }
                        }
                    }
                },
            }
            i = i + 1;
        }
        let errors = state.errors();
        let ghost es = errors@.map_values(|e: ServiceConfigError| e@);
        let mut name_errors: Vec<String> = Vec::new();
        let mut io_errors: Vec<String> = Vec::new();
        let mut j: usize = 0;
        while j < errors.len()
            invariant
                es == errors@.map_values(|e: ServiceConfigError| e@),
                j <= errors@.len(),
                views(name_errors@) == name_errors_of(es.take(j as int)),
                views(io_errors@) == io_errors_of(es.take(j as int)),
            decreases errors@.len() - j,
        {
            assert(es.take(j as int + 1).drop_last() =~= es.take(j as int));
            assert(es[j as int] == errors@[j as int]@);
            match &errors[j] {
                ServiceConfigError::NameError(n) => {
                    let ghost before = views(name_errors@);
                    name_errors.push(n.clone());
                    assert(views(name_errors@) =~= before.push(n@));
                },
                ServiceConfigError::IoError(m) => {
                    let ghost before = views(io_errors@);
                    io_errors.push(m.clone());
                    assert(views(io_errors@) =~= before.push(m@));
                },
            }
            j = j + 1;
        }
        assert(es.take(j as int) =~= es);
        DatabaseStatus { invalid_configurations: invalid, name_errors, io_errors }
    }

    /// The service that a `link` command creates, and the link that holds
    /// it. `source_dir` is canonical.
    pub fn create_static_file_configuration(&self, name: Option<String>, source_dir: &str) -> (r: Result<(ServiceType, String), String>)
        ensures
            match link_of(self.state_dir@, opt_view(name), source_dir@) {
                Some(l) => r matches Ok((svc, link)) && svc@ == ServiceModel::StaticFiles(source_dir@) && link@ == l,
                None => r is Err,
            },
    {
        match self.parse_create_static_file_configuration_input(name, source_dir) {
            Ok((web_dir, link)) => Ok((ServiceType::StaticFiles(web_dir), link)),
            Err(e) => Err(e),
        }
    }

    /// The directory to serve and the link to create in the state directory,
    /// for a `link` command: the service is named `name`, or after the
    /// directory where no name is given. `source_dir` is canonical.
    pub fn parse_create_static_file_configuration_input(
        &self,
        name: Option<String>,
        source_dir: &str,
    ) -> (r: Result<(String, String), String>)
        ensures
            match link_of(self.state_dir@, opt_view(name), source_dir@) {
                Some(l) => r matches Ok((dir, link)) && dir@ == source_dir@ && link@ == l,
                None => r matches Err(m) && m@ == "couldn't extract service name from source dir"@,
            },
    {
        let service_name = match name {
            Some(n) => n,
            None => {
                let cs = chars_of(source_dir);
                let n = cs.len();
                let mut s: usize = n;
                assert(cs@.take(n as int) =~= cs@);
                while s > 0 && cs[s - 1] != '/'
                    invariant
                        s <= n == cs@.len(),
                        crate::static_files::name_start(cs@) == crate::static_files::name_start(cs@.take(s as int)),
                    decreases s,
                {
                    assert(cs@.take(s as int).drop_last() =~= cs@.take(s - 1));
                    s = s - 1;
                }
                assert(crate::static_files::name_start(cs@) == s) by {
                    if s > 0 {
                        assert(cs@.take(s as int).last() == '/');
                    }
                }
                let last = string_of(&cs, s, n);
                assert(last@ =~= cs@.skip(s as int));
                if s >= n || crate::text::eq_lit(&cs, s, n, "..") {
                    return Err(String::from_str("couldn't extract service name from source dir"));
                }
                last
            },
        };
        let link = join_path(self.state_dir.as_str(), service_name.as_str());
        Ok((String::from_str(source_dir), link))
    }
}

/// Whether `a` comes strictly before `b` in character order.
pub open spec fn lex_lt(a: Seq<char>, b: Seq<char>) -> bool
    decreases a.len(),
{
    if a.len() == 0 {
        b.len() > 0
    } else if b.len() == 0 {
        false
    } else if a[0] != b[0] {
        a[0] < b[0]
    } else {
        lex_lt(a.drop_first(), b.drop_first())
    }
}

proof fn lemma_lex_total(a: Seq<char>, b: Seq<char>)
    requires
        a != b,
        !lex_lt(a, b),
    ensures
        lex_lt(b, a),
    decreases a.len(),
{
    if a.len() == 0 {
        assert(b.len() == 0);
        assert(a =~= b);
    } else if b.len() > 0 && a[0] == b[0] {
        if a.drop_first() == b.drop_first() {
            assert(a.drop_first().len() == a.len() - 1);
            assert(b.drop_first().len() == b.len() - 1);
            assert(a.len() == b.len());
            assert forall|i: int| 0 <= i < a.len() implies a[i] == b[i] by {
                if i > 0 {
                    assert(a[i] == a.drop_first()[i - 1]);
                    assert(b[i] == b.drop_first()[i - 1]);
                }
            }
            assert(a =~= b);
        }
        lemma_lex_total(a.drop_first(), b.drop_first());
    }
}

/// Whether `a` comes strictly before `b`, computed.
fn str_lt(a: &str, b: &str) -> (r: bool)
    ensures
        r == lex_lt(a@, b@),
{
    let x = chars_of(a);
    let y = chars_of(b);
    let mut i: usize = 0;
    assert(a@.skip(0) =~= a@);
    assert(b@.skip(0) =~= b@);
    while i < x.len() && i < y.len() && x[i] == y[i]
        invariant
            x@ == a@,
            y@ == b@,
            i <= x@.len(),
            i <= y@.len(),
            lex_lt(a@, b@) == lex_lt(a@.skip(i as int), b@.skip(i as int)),
        decreases x@.len() - i,
    {
        assert(a@.skip(i as int).drop_first() =~= a@.skip(i as int + 1));
        assert(b@.skip(i as int).drop_first() =~= b@.skip(i as int + 1));
        i = i + 1;
    }
    if i == x.len() {
        i < y.len()
    } else if i == y.len() {
        false
    } else {
        x[i] < y[i]
    }
}

/// Each name of `ns` comes before the next.
pub open spec fn ascending(ns: Seq<Seq<char>>) -> bool {
    forall|i: int| 0 <= i < ns.len() - 1 ==> lex_lt(#[trigger] ns[i], ns[i + 1])
}

/// Inserting `x` where it fits keeps a list ascending, and adds `x` to the
/// names it holds.
proof fn lemma_insert_sorted(rv: Seq<Seq<char>>, p: int, ns: Seq<Seq<char>>, i: int)
    requires
        ascending(rv),
        0 <= p <= rv.len(),
        0 <= i < ns.len(),
        p > 0 ==> lex_lt(rv[p - 1], ns[i]),
        p < rv.len() ==> lex_lt(ns[i], rv[p]),
        forall|j: int| 0 <= j < i ==> rv.contains(#[trigger] ns[j]),
        forall|t: int| 0 <= t < rv.len() ==> exists|j: int| 0 <= j < i && ns[j] == #[trigger] rv[t],
    ensures
        ascending(rv.insert(p, ns[i])),
        forall|j: int| 0 <= j < i + 1 ==> rv.insert(p, ns[i]).contains(#[trigger] ns[j]),
        forall|t: int| 0 <= t < rv.len() + 1 ==> exists|j: int| 0 <= j < i + 1 && ns[j] == #[trigger] rv.insert(p, ns[i])[t],
{
    let x = ns[i];
    let nv = rv.insert(p, x);
    assert forall|q: int| 0 <= q < nv.len() - 1 implies lex_lt(#[trigger] nv[q], nv[q + 1]) by {
        if q + 1 < p {
            assert(nv[q] == rv[q] && nv[q + 1] == rv[q + 1]);
        } else if q + 1 == p {
            assert(nv[q] == rv[q]);
        } else if q == p {
        } else {
            assert(nv[q] == rv[q - 1] && nv[q + 1] == rv[q]);
        }
    }
    assert forall|j: int| 0 <= j < i + 1 implies nv.contains(#[trigger] ns[j]) by {
        if j == i {
            assert(nv[p] == ns[j]);
        } else {
            assert(rv.contains(ns[j]));
            let t = choose|t: int| 0 <= t < rv.len() && rv[t] == ns[j];
            if t < p {
                assert(nv[t] == ns[j]);
            } else {
                assert(nv[t + 1] == ns[j]);
            }
        }
    }
    assert forall|t: int| 0 <= t < rv.len() + 1 implies exists|j: int| 0 <= j < i + 1 && ns[j] == #[trigger] nv[t] by {
        if t < p {
            assert(nv[t] == rv[t]);
            let j = choose|j: int| 0 <= j < i && ns[j] == rv[t];
        } else if t == p {
            assert(ns[i] == nv[t]);
        } else {
            assert(nv[t] == rv[t - 1]);
            let j = choose|j: int| 0 <= j < i && ns[j] == rv[t - 1];
        }
    }
}

/// The texts of a list of strings.
pub open spec fn views(v: Seq<String>) -> Seq<Seq<char>> {
    v.map_values(|s: String| s@)
}

/// The registered names in character order.
pub fn sorted_names(state: &AppState) -> (r: Vec<String>)
    requires
        state.wf(),
    ensures
        ascending(views(r@)),
        r@.len() == state.model().services.dom().len(),
        forall|k: Seq<char>| state.model().services.contains_key(k) <==> views(r@).contains(k),
{
    let names = state.names();
    let ghost ns = views(names@);
    let mut r: Vec<String> = Vec::new();
    let mut i: usize = 0;
    while i < names.len()
        invariant
            ns == views(names@),
            i <= ns.len(),
            forall|a: int, b: int| 0 <= a < b < ns.len() ==> ns[a] != ns[b],
            r@.len() == i,
            ascending(views(r@)),
            forall|j: int| 0 <= j < i ==> views(r@).contains(#[trigger] ns[j]),
            forall|t: int| 0 <= t < r@.len() ==> exists|j: int| 0 <= j < i && ns[j] == #[trigger] views(r@)[t],
        decreases ns.len() - i,
    {
        let x = names[i].clone();
        let ghost rv = views(r@);
        let mut p: usize = 0;
        while p < r.len() && str_lt(r[p].as_str(), x.as_str())
            invariant
                p <= r@.len(),
                rv == views(r@),
                forall|q: int| 0 <= q < p ==> lex_lt(#[trigger] rv[q], x@),
            decreases r@.len() - p,
        {
            p = p + 1;
        }
        proof {
            if p < rv.len() {
                let j = choose|j: int| 0 <= j < i && ns[j] == rv[p as int];
                assert(ns[j] != ns[i as int]);
                lemma_lex_total(rv[p as int], x@);
            }
            if p > 0 {
                assert(lex_lt(rv[p - 1], x@));
            }
            lemma_insert_sorted(rv, p as int, ns, i as int);
        }
        r.insert(p, x);
        assert(views(r@) =~= rv.insert(p as int, ns[i as int]));
        i = i + 1;
    }
    proof {
        let rv = views(r@);
        assert forall|k: Seq<char>| state.model().services.contains_key(k) <==> rv.contains(k) by {
            if state.model().services.contains_key(k) {
                let j = choose|j: int| 0 <= j < names@.len() && names@[j]@ == k;
                assert(ns[j] == k);
            }
            if rv.contains(k) {
                let t = choose|t: int| 0 <= t < rv.len() && rv[t] == k;
                let j = choose|j: int| 0 <= j < ns.len() && ns[j] == rv[t];
                assert(names@[j]@ == k);
            }
        }
    }
    r
}

/// The line that lists one service.
pub open spec fn listing_line(name: Seq<char>, svc: ServiceModel) -> Seq<char> {
    match svc {
        ServiceModel::StaticFiles(p) => "* "@ + name + " [Static Files Directory]: "@ + p,
        ServiceModel::ReverseProxy(port) => "* "@ + name + " [Reverse Proxy]: http://127.0.0.1:"@ + decimal(port as nat),
        ServiceModel::InvalidConfig(m) => "* "@ + name + " [Config Error]: "@ + m,
    }
}

/// The texts of the name errors among `errs`, in order.
pub open spec fn name_errors_of(errs: Seq<DiagnosticModel>) -> Seq<Seq<char>>
    decreases errs.len(),
{
    if errs.len() == 0 {
        Seq::empty()
    } else {
        match errs.last() {
            DiagnosticModel::NameError(n) => name_errors_of(errs.drop_last()).push(n),
            DiagnosticModel::IoError(_) => name_errors_of(errs.drop_last()),
        }
    }
}

/// The texts of the read errors among `errs`, in order.
pub open spec fn io_errors_of(errs: Seq<DiagnosticModel>) -> Seq<Seq<char>>
    decreases errs.len(),
{
    if errs.len() == 0 {
        Seq::empty()
    } else {
        match errs.last() {
            DiagnosticModel::IoError(m) => io_errors_of(errs.drop_last()).push(m),
            DiagnosticModel::NameError(_) => io_errors_of(errs.drop_last()),
        }
    }
}

/// The health of a loaded registry: services with a configuration problem
/// (name and reason), names that could not be used, and read errors.
pub struct DatabaseStatus {
    pub invalid_configurations: Vec<(String, String)>,
    pub name_errors: Vec<String>,
    pub io_errors: Vec<String>,
}

impl DatabaseStatus {
    /// Whether the registry loaded without any problem.
    pub fn is_db_clean(&self) -> (r: bool)
        ensures
            r == (self.invalid_configurations@.len() == 0 && self.io_errors@.len() == 0
                && self.name_errors@.len() == 0),
    {
        self.invalid_configurations.len() == 0 && self.io_errors.len() == 0 && self.name_errors.len() == 0
    }
}

/// Relies on `std::path::Path::exists`: whether something is at `p` now.
/// The answer depends on the disk, so nothing is promised of it.
#[verifier::external_body]
fn path_exists(p: &str) -> bool {
    std::path::Path::new(p).exists()
}

/// Whether the root CA is fresh, given whether its key and its certificate
/// exist: nothing (not configured) where either is missing, else the verdict
/// of `check`, which loads the certificate and compares its expiry with the
/// grace period. `check` runs only where both exist.
pub fn ca_status<F: FnOnce() -> Result<bool, String>>(key_exists: bool, cert_exists: bool, check: F) -> (r: Result<Option<bool>, String>)
    requires
        check.requires(()),
    ensures
        !(key_exists && cert_exists) ==> r == Ok::<Option<bool>, String>(None),
        key_exists && cert_exists ==> exists|x: Result<bool, String>| #[trigger] check.ensures((), x) && match x {
            Ok(b) => r == Ok::<Option<bool>, String>(Some(b)),
            Err(e) => r matches Err(m) && m@ == e@,
        },
{
    if key_exists && cert_exists {
        match check() {
            Ok(b) => Ok(Some(b)),
            Err(e) => Err(e),
        }
    } else {
        Ok(None)
    }
}

/// Whether the root CA whose key and certificate are at `key` and `cert` is
/// fresh: `ca_status` of whether each exists now.
pub fn validate_ca<F: FnOnce() -> Result<bool, String>>(key: &str, cert: &str, check: F) -> (r: Result<Option<bool>, String>)
    requires
        check.requires(()),
    ensures
        r == Ok::<Option<bool>, String>(None) || exists|x: Result<bool, String>| #[trigger] check.ensures((), x) && match x {
            Ok(b) => r == Ok::<Option<bool>, String>(Some(b)),
            Err(e) => r matches Err(m) && m@ == e@,
        },
{
    let key_exists = path_exists(key);
    let cert_exists = path_exists(cert);
    ca_status(key_exists, cert_exists, check)
}

} // verus!
