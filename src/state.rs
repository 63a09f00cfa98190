//! The service registry: what each entry of the state directory configures,
//! and the registry built from one scan of that directory.
use vstd::prelude::*;
use vstd::string::*;
use crate::addr::{address_port, port_of_address};
use crate::text::{ascii_lower_char, chars_of, lower, lower_char, push_char, string_of};

verus! {

/// What a service name routes to.
pub enum ServiceType {
    /// Files under this canonical directory.
    StaticFiles(String),
    /// A loopback port.
    ReverseProxy(u16),
    /// An entry with a problem, and why.
    InvalidConfig(String),
}

/// Mathematical form of a [`ServiceType`].
pub enum ServiceModel {
    StaticFiles(Seq<char>),
    ReverseProxy(u16),
    InvalidConfig(Seq<char>),
}

impl View for ServiceType {
    type V = ServiceModel;

    open spec fn view(&self) -> ServiceModel {
        match self {
            ServiceType::StaticFiles(p) => ServiceModel::StaticFiles(p@),
            ServiceType::ReverseProxy(port) => ServiceModel::ReverseProxy(*port),
            ServiceType::InvalidConfig(m) => ServiceModel::InvalidConfig(m@),
        }
    }
}

/// Position of the first colon in `s`, or its length where it holds none.
pub open spec fn first_colon(s: Seq<char>) -> nat
    decreases s.len(),
{
    if s.len() == 0 || s[0] == ':' {
        0
    } else {
        1 + first_colon(s.drop_first())
    }
}

proof fn lemma_first_colon_bound(s: Seq<char>)
    ensures
        first_colon(s) <= s.len(),
    decreases s.len(),
{
    if s.len() > 0 && s[0] != ':' {
        lemma_first_colon_bound(s.drop_first());
    }
}

/// What the address part of a `proxy:` line configures.
pub open spec fn proxy_config(addr: Option<Seq<char>>) -> ServiceModel {
    match addr {
        None => ServiceModel::InvalidConfig("missing socket address"@),
        Some(a) => match address_port(a) {
            Some(port) => ServiceModel::ReverseProxy(port),
            None => ServiceModel::InvalidConfig("not a valid <host:port> address: "@ + a),
        },
    }
}

/// What the first line of a regular file configures: the directive is what
/// stands before the first colon.
pub open spec fn file_config(line: Seq<char>) -> ServiceModel {
    let k = first_colon(line);
    let directive = line.take(k as int);
    if directive == "proxy"@ {
        proxy_config(if k < line.len() { Some(line.skip(k as int + 1)) } else { None })
    } else {
        ServiceModel::InvalidConfig("invalid directive: '"@ + directive + "'"@)
    }
}

/// A string holding `a` followed by `b`.
fn concat2(a: &str, b: &str) -> (r: String)
    ensures
        r@ == a@ + b@,
{
    let mut s = String::from_str(a);
    s.append(b);
    s
}

/// A string holding `a`, `b` and `c` one after the other.
fn concat3(a: &str, b: &str, c: &str) -> (r: String)
    ensures
        r@ == a@ + b@ + c@,
{
    let mut s = String::from_str(a);
    s.append(b);
    s.append(c);
    s
}

impl ServiceType {
    /// What the address part of a `proxy:` line configures. The host is
    /// checked and dropped: a proxy always targets loopback.
    pub fn parse_proxy(addr_option: Option<&str>) -> (r: ServiceType)
        ensures
            r@ == proxy_config(
                match addr_option {
                    Some(a) => Some(a@),
                    None => None,
                },
            ),
    {
        match addr_option {
            None => ServiceType::InvalidConfig(String::from_str("missing socket address")),
            Some(addr_str) => {
                let cs = chars_of(addr_str);
                match port_of_address(&cs) {
                    Some(port) => ServiceType::ReverseProxy(port),
                    None => ServiceType::InvalidConfig(
                        concat2("not a valid <host:port> address: ", addr_str),
                    ),
                }
            },
        }
    }

    /// What a regular file configures, given its first line without the line
    /// break.
    pub fn parse_config(first_line: &str) -> (r: ServiceType)
        ensures
            r@ == file_config(first_line@),
    {
        let cs = chars_of(first_line);
        let n = cs.len();
        let mut k: usize = 0;
        assert(cs@.skip(0) =~= cs@);
        while k < n && cs[k] != ':'
            invariant
                k <= n == cs@.len(),
                first_colon(cs@) == k + first_colon(cs@.skip(k as int)),
            decreases n - k,
        {
            assert(cs@.skip(k as int).drop_first() =~= cs@.skip(k as int + 1));
            k = k + 1;
        }
        assert(cs@.skip(0) =~= cs@);
        proof {
            lemma_first_colon_bound(cs@.skip(k as int));
        }
        let directive = string_of(&cs, 0, k);
        assert(cs@.take(k as int) =~= directive@);
        if crate::text::eq_lit(&cs, 0, k, "proxy") {
            if k < n {
                let rest = string_of(&cs, k + 1, n);
                assert(rest@ =~= cs@.skip(k as int + 1));
                ServiceType::parse_proxy(Some(rest.as_str()))
            } else {
                ServiceType::parse_proxy(None)
            }
        } else {
            ServiceType::InvalidConfig(concat3("invalid directive: '", directive.as_str(), "'"))
        }
    }
}


/// One entry of a scan of the state directory, as read from disk.
pub enum ScannedEntry {
    /// A file name that is not valid Unicode, in lossy form.
    NonUnicode(String),
    /// A directory, or a link to one, and its canonical path.
    Directory { name: String, root: String },
    /// A regular file and its first line, without the line break.
    File { name: String, first_line: String },
    /// An entry that could not be read, and the error.
    Unreadable { name: String, error: String },
}

/// Mathematical form of a [`ScannedEntry`].
pub enum EntryModel {
    NonUnicode(Seq<char>),
    Directory { name: Seq<char>, root: Seq<char> },
    File { name: Seq<char>, first_line: Seq<char> },
    Unreadable { name: Seq<char>, error: Seq<char> },
}

impl View for ScannedEntry {
    type V = EntryModel;

    open spec fn view(&self) -> EntryModel {
        match self {
            ScannedEntry::NonUnicode(n) => EntryModel::NonUnicode(n@),
            ScannedEntry::Directory { name, root } => EntryModel::Directory { name: name@, root: root@ },
            ScannedEntry::File { name, first_line } => EntryModel::File {
                name: name@,
                first_line: first_line@,
            },
            ScannedEntry::Unreadable { name, error } => EntryModel::Unreadable {
                name: name@,
                error: error@,
            },
        }
    }
}

/// A problem met while loading the state directory.
pub enum ServiceConfigError {
    /// A file name that cannot name a service: not valid Unicode, not a DNS
    /// label, or one already taken in another case.
    NameError(String),
    /// An entry that could not be read.
    IoError(String),
}

/// Mathematical form of a [`ServiceConfigError`].
pub enum DiagnosticModel {
    NameError(Seq<char>),
    IoError(Seq<char>),
}

impl View for ServiceConfigError {
    type V = DiagnosticModel;

    open spec fn view(&self) -> DiagnosticModel {
        match self {
            ServiceConfigError::NameError(n) => DiagnosticModel::NameError(n@),
            ServiceConfigError::IoError(m) => DiagnosticModel::IoError(m@),
        }
    }
}

/// Whether `c` may stand in a service name.
pub open spec fn label_char(c: char) -> bool {
    ('a' <= c && c <= 'z') || ('A' <= c && c <= 'Z') || ('0' <= c && c <= '9') || c == '-'
}

/// Whether `s` can name a service: one or more letters, digits or hyphens.
pub open spec fn label_name(s: Seq<char>) -> bool {
    s.len() >= 1 && forall|i: int| 0 <= i < s.len() ==> label_char(#[trigger] s[i])
}

/// The registry's contents: services by lowercased name, and the problems met
/// while loading.
pub struct RegistryModel {
    pub services: Map<Seq<char>, ServiceModel>,
    pub errors: Seq<DiagnosticModel>,
}

/// The registry with nothing in it.
pub open spec fn empty_registry() -> RegistryModel {
    RegistryModel { services: Map::empty(), errors: Seq::empty() }
}

/// Registers `svc` under the lowercased `name`, or reports the name.
pub open spec fn register(m: RegistryModel, name: Seq<char>, svc: ServiceModel) -> RegistryModel {
    if label_name(name) && !m.services.contains_key(lower(name)) {
        RegistryModel { services: m.services.insert(lower(name), svc), errors: m.errors }
    } else {
        RegistryModel { services: m.services, errors: m.errors.push(DiagnosticModel::NameError(name)) }
    }
}

/// The registry after one more entry of a scan.
pub open spec fn apply_entry(m: RegistryModel, e: EntryModel) -> RegistryModel {
    match e {
        EntryModel::NonUnicode(n) => RegistryModel {
            services: m.services,
            errors: m.errors.push(DiagnosticModel::NameError(n)),
        },
        EntryModel::Directory { name, root } => register(m, name, ServiceModel::StaticFiles(root)),
        EntryModel::File { name, first_line } => register(m, name, file_config(first_line)),
        EntryModel::Unreadable { name, error } => RegistryModel {
            services: m.services,
            errors: m.errors.push(DiagnosticModel::IoError(name + ": "@ + error)),
        },
    }
}

/// The registry that a scan of the state directory configures.
pub open spec fn registry_of(entries: Seq<EntryModel>) -> RegistryModel
    decreases entries.len(),
{
    if entries.len() == 0 {
        empty_registry()
    } else {
        apply_entry(registry_of(entries.drop_last()), entries.last())
    }
}

/// The map held by a list of name and service pairs.
pub open spec fn pairs_map(ps: Seq<(String, ServiceType)>) -> Map<Seq<char>, ServiceModel>
    decreases ps.len(),
{
    if ps.len() == 0 {
        Map::empty()
    } else {
        pairs_map(ps.drop_last()).insert(ps.last().0@, ps.last().1@)
    }
}

/// Names are distinct, lowercase, and service names.
pub open spec fn pairs_wf(ps: Seq<(String, ServiceType)>) -> bool {
    &&& forall|i: int, j: int| 0 <= i < j < ps.len() ==> ps[i].0@ != ps[j].0@
    &&& forall|i: int| 0 <= i < ps.len() ==> label_name(#[trigger] ps[i].0@) && lower(ps[i].0@) == ps[i].0@
}

proof fn lemma_pairs_map(ps: Seq<(String, ServiceType)>)
    requires
        pairs_wf(ps),
    ensures
        forall|k: Seq<char>| pairs_map(ps).contains_key(k) <==> exists|i: int| 0 <= i < ps.len() && ps[i].0@ == k,
        forall|i: int| 0 <= i < ps.len() ==> pairs_map(ps).contains_key(#[trigger] ps[i].0@) && pairs_map(ps)[ps[i].0@] == ps[i].1@,
    decreases ps.len(),
{
    if ps.len() > 0 {
        let q = ps.drop_last();
        assert forall|i: int| 0 <= i < q.len() implies #[trigger] q[i] == ps[i] by {}
        lemma_pairs_map(q);
        assert forall|k: Seq<char>| pairs_map(ps).contains_key(k) implies exists|i: int| 0 <= i < ps.len() && ps[i].0@ == k by {
            if k != ps.last().0@ {
                assert(pairs_map(q).contains_key(k));
                let i = choose|i: int| 0 <= i < q.len() && q[i].0@ == k;
                assert(q[i] == ps[i]);
                assert(ps[i].0@ == k);
            } else {
                assert(ps[ps.len() - 1].0@ == k);
            }
        }
        assert forall|i: int| 0 <= i < ps.len() implies pairs_map(ps).contains_key(#[trigger] ps[i].0@) && pairs_map(ps)[ps[i].0@] == ps[i].1@ by {
            if i < ps.len() - 1 {
                assert(q[i] == ps[i]);
            }
        }
    }
}

/// The service registry. It is rebuilt as a whole from a scan of the state
/// directory; a failed scan leaves it as it was.
pub struct AppState {
    services: Vec<(String, ServiceType)>,
    errors: Vec<ServiceConfigError>,
    path: String,
}

impl AppState {
    /// Services by name and the problems met while loading.
    pub closed spec fn model(&self) -> RegistryModel {
        RegistryModel {
            services: pairs_map(self.services@),
            errors: self.errors@.map_values(|e: ServiceConfigError| e@),
        }
    }

    /// The state directory it loads from.
    pub closed spec fn origin(&self) -> Seq<char> {
        self.path@
    }

    /// Every name is a lowercase service name, listed once.
    pub closed spec fn wf(&self) -> bool {
        pairs_wf(self.services@)
    }

    /// Every registered name is a lowercase service name.
    pub proof fn lemma_wf_names(&self)
        requires
            self.wf(),
        ensures
            forall|k: Seq<char>| #[trigger] self.model().services.contains_key(k) ==> label_name(k) && lower(k) == k,
    {
        lemma_pairs_map(self.services@);
        assert forall|k: Seq<char>| #[trigger] self.model().services.contains_key(k) implies label_name(k) && lower(k) == k by {
            let i = choose|i: int| 0 <= i < self.services@.len() && self.services@[i].0@ == k;
            assert(label_name(self.services@[i].0@));
        }
    }

    /// An empty registry that loads from `path`.
    pub fn new(path: &str) -> (r: AppState)
        ensures
            r.wf(),
            r.model() == empty_registry(),
            r.origin() == path@,
    {
        let r = AppState { services: Vec::new(), errors: Vec::new(), path: String::from_str(path) };
        assert(r.model().errors =~= Seq::empty());
        r
    }

    /// The state directory it loads from.
    pub fn path(&self) -> (r: &str)
        ensures
            r@ == self.origin(),
    {
        self.path.as_str()
    }

    /// The service registered under `name`.
    pub fn get(&self, name: &str) -> (r: Option<&ServiceType>)
        requires
            self.wf(),
        ensures
            match r {
                Some(s) => self.model().services.contains_key(name@) && self.model().services[name@] == s@,
                None => !self.model().services.contains_key(name@),
            },
    {
        proof {
            lemma_pairs_map(self.services@);
        }
        let key = String::from_str(name);
        let mut i: usize = 0;
        while i < self.services.len()
            invariant
                self.wf(),
                key@ == name@,
                i <= self.services@.len(),
                forall|j: int| 0 <= j < i ==> self.services@[j].0@ != name@,
            decreases self.services@.len() - i,
        {
            proof {
                lemma_pairs_map(self.services@);
            }
            if self.services[i].0 == key {
                assert(self.services@[i as int].0@ == name@);
                assert(pairs_map(self.services@)[self.services@[i as int].0@] == self.services@[i as int].1@);
                return Some(&self.services[i].1);
            }
            i = i + 1;
        }
        proof {
            lemma_pairs_map(self.services@);
        }
        None
    }

    /// The registered names, in no particular order.
    pub fn names(&self) -> (r: Vec<String>)
        requires
            self.wf(),
        ensures
            r@.len() == self.model().services.dom().len(),
            forall|k: Seq<char>| self.model().services.contains_key(k) <==> exists|i: int| 0 <= i < r@.len() && r@[i]@ == k,
            forall|i: int, j: int| 0 <= i < j < r@.len() ==> r@[i]@ != r@[j]@,
    {
        proof {
            lemma_pairs_map(self.services@);
            lemma_pairs_len(self.services@);
        }
        let mut r: Vec<String> = Vec::new();
        let mut i: usize = 0;
        while i < self.services.len()
            invariant
                self.wf(),
                i <= self.services@.len(),
                r@.len() == i,
                forall|j: int| 0 <= j < i ==> r@[j]@ == self.services@[j].0@,
            decreases self.services@.len() - i,
        {
            r.push(self.services[i].0.clone());
            i = i + 1;
        }
        assert forall|k: Seq<char>| self.model().services.contains_key(k) implies exists|i: int| 0 <= i < r@.len() && r@[i]@ == k by {
            let i = choose|i: int| 0 <= i < self.services@.len() && self.services@[i].0@ == k;
            assert(r@[i]@ == k);
        }
        r
    }

    /// Replaces the contents by what a scan of the state directory
    /// configures. A failed scan, given as its error message, leaves the
    /// registry as it was and is returned.
    pub fn load_services(&mut self, scan: Result<Vec<ScannedEntry>, String>) -> (r: Result<(), String>)
        requires
            old(self).wf(),
        ensures
            final(self).wf(),
            final(self).origin() == old(self).origin(),
            match scan {
                Ok(entries) => r is Ok && final(self).model() == registry_of(
                    entries@.map_values(|e: ScannedEntry| e@),
                ),
                Err(e) => r matches Err(m) && m@ == e@ && final(self).model() == old(self).model(),
            },
    {
        let entries = match scan {
            Err(e) => {
                return Err(e);
            },
            Ok(entries) => entries,
        };
        let ghost es = entries@.map_values(|e: ScannedEntry| e@);
        let mut services: Vec<(String, ServiceType)> = Vec::new();
        let mut errors: Vec<ServiceConfigError> = Vec::new();
        let mut i: usize = 0;
        assert(es.take(0) =~= Seq::<EntryModel>::empty());
        assert(errors@.map_values(|e: ServiceConfigError| e@) =~= Seq::empty());
        while i < entries.len()
            invariant
                es == entries@.map_values(|e: ScannedEntry| e@),
                i <= entries@.len(),
                pairs_wf(services@),
                (RegistryModel {
                    services: pairs_map(services@),
                    errors: errors@.map_values(|e: ServiceConfigError| e@),
                }) == registry_of(es.take(i as int)),
            decreases entries@.len() - i,
        {
            assert(es.take(i as int + 1).drop_last() =~= es.take(i as int));
            assert(es[i as int] == entries@[i as int]@);
            let ghost before = errors@.map_values(|e: ServiceConfigError| e@);
            match &entries[i] {
                ScannedEntry::NonUnicode(raw) => {
                    errors.push(ServiceConfigError::NameError(raw.clone()));
                    assert(errors@.map_values(|e: ServiceConfigError| e@) =~= before.push(DiagnosticModel::NameError(raw@)));
                },
                ScannedEntry::Directory { name, root } => {
                    register_entry(&mut services, &mut errors, name, ServiceType::StaticFiles(root.clone()));
                },
                ScannedEntry::File { name, first_line } => {
                    let svc = ServiceType::parse_config(first_line.as_str());
                    register_entry(&mut services, &mut errors, name, svc);
                },
                ScannedEntry::Unreadable { name, error } => {
                    let msg = concat3(name.as_str(), ": ", error.as_str());
                    errors.push(ServiceConfigError::IoError(msg));
                    assert(errors@.map_values(|e: ServiceConfigError| e@) =~= before.push(DiagnosticModel::IoError(name@ + ": "@ + error@)));
                },
            }
            i = i + 1;
        }
        assert(es.take(i as int) =~= es);
        self.services = services;
        self.errors = errors;
        Ok(())
    }

    /// The problems met by the last load.
    pub fn errors(&self) -> (r: &Vec<ServiceConfigError>)
        ensures
            r@.map_values(|e: ServiceConfigError| e@) == self.model().errors,
    {
        &self.errors
    }
}

/// Whether `s` can name a service.
pub fn is_label_name(s: &str) -> (r: bool)
    ensures
        r == label_name(s@),
{
    let cs = chars_of(s);
    if cs.len() == 0 {
        return false;
    }
    let mut i: usize = 0;
    while i < cs.len()
        invariant
            cs@ == s@,
            i <= cs@.len(),
            forall|j: int| 0 <= j < i ==> label_char(#[trigger] cs@[j]),
        decreases cs@.len() - i,
    {
        let c = cs[i];
        if !(('a' <= c && c <= 'z') || ('A' <= c && c <= 'Z') || ('0' <= c && c <= '9') || c == '-') {
            assert(!label_char(s@[i as int]));
            return false;
        }
        i = i + 1;
    }
    true
}

/// `s` with ASCII capitals turned into small letters.
pub fn lower_string(s: &str) -> (r: String)
    ensures
        r@ == lower(s@),
{
    let cs = chars_of(s);
    let mut r = String::new();
    let mut i: usize = 0;
    while i < cs.len()
        invariant
            cs@ == s@,
            i <= cs@.len(),
            r@ == lower(s@.take(i as int)),
        decreases cs@.len() - i,
    {
        let c = ascii_lower_char(cs[i]);
        push_char(&mut r, c);
        assert(lower(s@.take(i as int + 1)) =~= lower(s@.take(i as int)).push(lower_char(s@[i as int])));
        i = i + 1;
    }
    assert(s@.take(i as int) =~= s@);
    r
}

proof fn lemma_lower_label(s: Seq<char>)
    requires
        label_name(s),
    ensures
        label_name(lower(s)),
        lower(lower(s)) == lower(s),
{
    assert(lower(lower(s)) =~= lower(s));
}

/// Whether `name` is registered in `services`.
fn has_name(services: &Vec<(String, ServiceType)>, name: &String) -> (r: bool)
    requires
        pairs_wf(services@),
    ensures
        r == pairs_map(services@).contains_key(name@),
{
    proof {
        lemma_pairs_map(services@);
    }
    let mut i: usize = 0;
    while i < services.len()
        invariant
            pairs_wf(services@),
            i <= services@.len(),
            forall|j: int| 0 <= j < i ==> services@[j].0@ != name@,
        decreases services@.len() - i,
    {
        if services[i].0 == *name {
            proof {
                lemma_pairs_map(services@);
            }
            return true;
        }
        i = i + 1;
    }
    proof {
        lemma_pairs_map(services@);
    }
    false
}

/// Registers `svc` under the lowercased `name`, or reports the name.
fn register_entry(
    services: &mut Vec<(String, ServiceType)>,
    errors: &mut Vec<ServiceConfigError>,
    name: &String,
    svc: ServiceType,
)
    requires
        pairs_wf(old(services)@),
    ensures
        pairs_wf(final(services)@),
        (RegistryModel {
            services: pairs_map(final(services)@),
            errors: final(errors)@.map_values(|e: ServiceConfigError| e@),
        }) == register(
            RegistryModel {
                services: pairs_map(old(services)@),
                errors: old(errors)@.map_values(|e: ServiceConfigError| e@),
            },
            name@,
            svc@,
        ),
{
    let ghost old_errors = errors@.map_values(|e: ServiceConfigError| e@);
    if is_label_name(name.as_str()) {
        let key = lower_string(name.as_str());
        if !has_name(services, &key) {
            proof {
                lemma_lower_label(name@);
                lemma_pairs_map(services@);
            }
            let ghost before = services@;
            services.push((key, svc));
            proof {
                assert(services@.drop_last() =~= before);
                assert forall|i: int, j: int| 0 <= i < j < services@.len() implies services@[i].0@ != services@[j].0@ by {
                    if j == services@.len() - 1 {
                        assert(before[i] == services@[i]);
                        assert(pairs_map(before).contains_key(before[i].0@));
                    } else {
                        assert(before[i] == services@[i]);
                        assert(before[j] == services@[j]);
                    }
                }
                assert forall|i: int| 0 <= i < services@.len() implies label_name(#[trigger] services@[i].0@) && lower(services@[i].0@) == services@[i].0@ by {
                    if i < services@.len() - 1 {
                        assert(before[i] == services@[i]);
                    }
                }
            }
            return;
        }
    }
    errors.push(ServiceConfigError::NameError(name.clone()));
    assert(errors@.map_values(|e: ServiceConfigError| e@) =~= old_errors.push(DiagnosticModel::NameError(name@)));
}

/// Two reloads of one unchanged scan give equal registries and equal lists
/// of problems.
pub proof fn lemma_reload_idempotent(entries: Seq<EntryModel>, first: RegistryModel, second: RegistryModel)
    requires
        first == registry_of(entries),
        second == registry_of(entries),
    ensures
        first.services == second.services,
        first.errors == second.errors,
{
}

proof fn lemma_apply_services(m1: RegistryModel, m2: RegistryModel, e: EntryModel)
    requires
        m1.services == m2.services,
    ensures
        apply_entry(m1, e).services == apply_entry(m2, e).services,
{
}

/// The problems met by a scan of a prefix come first among those of the
/// whole scan.
proof fn lemma_errors_prefix(es: Seq<EntryModel>, j: int)
    requires
        0 <= j <= es.len(),
    ensures
        registry_of(es.take(j)).errors.len() <= registry_of(es).errors.len(),
        registry_of(es).errors.take(registry_of(es.take(j)).errors.len() as int) == registry_of(es.take(j)).errors,
    decreases es.len(),
{
    if j == es.len() {
        assert(es.take(j) =~= es);
        assert(registry_of(es).errors.take(registry_of(es).errors.len() as int) =~= registry_of(es).errors);
    } else {
        let q = es.drop_last();
        assert(q.take(j) =~= es.take(j));
        lemma_errors_prefix(q, j);
        let before = registry_of(q).errors;
        let after = registry_of(es).errors;
        let n = registry_of(es.take(j)).errors.len() as int;
        assert(after.len() >= before.len());
        assert(after.take(n) =~= before.take(n));
    }
}

/// A file name that is not valid Unicode, wherever it stands in a scan, adds
/// a `NameError` and no service: the services are those of the scan without
/// that entry.
pub proof fn lemma_non_unicode_reported(entries: Seq<EntryModel>, i: int, raw: Seq<char>)
    requires
        0 <= i < entries.len(),
        entries[i] == EntryModel::NonUnicode(raw),
    ensures
        registry_of(entries).errors.contains(DiagnosticModel::NameError(raw)),
        registry_of(entries).services == registry_of(entries.remove(i)).services,
    decreases entries.len(),
{
    let pre = entries.take(i + 1);
    assert(pre.drop_last() =~= entries.take(i));
    assert(pre.last() == entries[i]);
    lemma_errors_prefix(entries, i + 1);
    let e = registry_of(pre).errors;
    assert(registry_of(entries).errors[e.len() - 1] == e[e.len() - 1]);
    let q = entries.drop_last();
    if i == entries.len() - 1 {
        assert(entries.remove(i) =~= q);
    } else {
        lemma_non_unicode_reported(q, i, raw);
        assert(entries.remove(i).drop_last() =~= q.remove(i));
        assert(entries.remove(i).last() == entries.last());
        lemma_apply_services(registry_of(q), registry_of(q.remove(i)), entries.last());
    }
}

/// Every registered name is a lowercase service name.
pub proof fn lemma_registry_names(entries: Seq<EntryModel>)
    ensures
        forall|k: Seq<char>| #[trigger] registry_of(entries).services.contains_key(k) ==> label_name(k) && lower(k) == k,
    decreases entries.len(),
{
    if entries.len() > 0 {
        lemma_registry_names(entries.drop_last());
        let m = registry_of(entries.drop_last());
        match entries.last() {
            EntryModel::Directory { name, root } => {
                if label_name(name) {
                    lemma_lower_label(name);
                }
            },
            EntryModel::File { name, first_line } => {
                if label_name(name) {
                    lemma_lower_label(name);
                }
            },
            _ => {},
        }
    }
}

proof fn lemma_pairs_len(ps: Seq<(String, ServiceType)>)
    requires
        pairs_wf(ps),
    ensures
        pairs_map(ps).dom().len() == ps.len(),
        pairs_map(ps).dom().finite(),
    decreases ps.len(),
{
    if ps.len() > 0 {
        let q = ps.drop_last();
        assert forall|i: int| 0 <= i < q.len() implies #[trigger] q[i] == ps[i] by {}
        lemma_pairs_len(q);
        lemma_pairs_map(q);
        assert(!pairs_map(q).contains_key(ps.last().0@)) by {
            if pairs_map(q).contains_key(ps.last().0@) {
                let i = choose|i: int| 0 <= i < q.len() && q[i].0@ == ps.last().0@;
                assert(q[i] == ps[i]);
                assert(ps[i].0@ == ps[ps.len() - 1].0@);
            }
        }
    }
}

} // verus!
