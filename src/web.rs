//! The HTTP front-end's decisions: which service a request goes to, which
//! file a static request may read, and how a proxied exchange is rewritten.
use vstd::prelude::*;
use vstd::string::*;
use crate::state::{first_colon, label_name, AppState, ServiceModel, ServiceType};
use crate::text::{append_str, ascii_lower_char, chars_of, lower, lower_char, string_of};

verus! {

/// What the front-end does with a request.
pub enum Dispatch {
    /// Serve files under this root.
    Static(String),
    /// Forward to this loopback port.
    Proxy(u16),
    /// 404: no service has this name.
    NotFound,
    /// 500 with an empty body: the host is missing or outside the managed
    /// label. The text says why.
    BadHost(String),
    /// 500 with this text as its body: the entry has a problem.
    InvalidConfig(String),
}

/// Mathematical form of a [`Dispatch`].
pub enum DispatchModel {
    Static(Seq<char>),
    Proxy(u16),
    NotFound,
    BadHost(Seq<char>),
    InvalidConfig(Seq<char>),
}

impl View for Dispatch {
    type V = DispatchModel;

    open spec fn view(&self) -> DispatchModel {
        match self {
            Dispatch::Static(r) => DispatchModel::Static(r@),
            Dispatch::Proxy(p) => DispatchModel::Proxy(*p),
            Dispatch::NotFound => DispatchModel::NotFound,
            Dispatch::BadHost(m) => DispatchModel::BadHost(m@),
            Dispatch::InvalidConfig(m) => DispatchModel::InvalidConfig(m@),
        }
    }
}

/// The managed label as it ends a host name.
pub open spec fn test_label() -> Seq<char> {
    seq!['.', 't', 'e', 's', 't']
}

/// The host of a `Host` header value: lowercased, without any `:port`.
pub open spec fn header_host(h: Seq<char>) -> Seq<char> {
    lower(h.take(first_colon(h) as int))
}

/// The registry key that a `Host` header value names, if it lies under the
/// managed label.
pub open spec fn host_key(h: Seq<char>) -> Option<Seq<char>> {
    let host = header_host(h);
    if host.len() >= 5 && host.skip(host.len() - 5) == test_label() {
        Some(host.take(host.len() - 5))
    } else {
        None
    }
}

/// What a request with this `Host` header goes to, given the services.
pub open spec fn dispatch_of(services: Map<Seq<char>, ServiceModel>, host: Option<Seq<char>>) -> DispatchModel {
    match host {
        None => DispatchModel::BadHost("Couldn't extract header host"@),
        Some(h) => match host_key(h) {
            None => DispatchModel::BadHost("invalid host domain: "@ + header_host(h)),
            Some(key) => if !services.contains_key(key) {
                DispatchModel::NotFound
            } else {
                match services[key] {
                    ServiceModel::StaticFiles(root) => DispatchModel::Static(root),
                    ServiceModel::ReverseProxy(port) => DispatchModel::Proxy(port),
                    ServiceModel::InvalidConfig(m) => DispatchModel::InvalidConfig(m),
                }
            },
        },
    }
}

/// The registry key that a `Host` header value names: the host, lowercased
/// and without any port, less the `.test` suffix.
pub fn extract_host(host_header: &str) -> (r: Result<String, String>)
    ensures
        match host_key(host_header@) {
            Some(k) => r matches Ok(key) && key@ == k,
            None => r matches Err(m) && m@ == "invalid host domain: "@ + header_host(host_header@),
        },
{
    let cs = chars_of(host_header);
    let n = cs.len();
    let mut k: usize = 0;
    assert(cs@.skip(0) =~= cs@);
    while k < n && cs[k] != ':'
        invariant
            k <= n == cs@.len(),
            cs@ == host_header@,
            first_colon(cs@) == k + first_colon(cs@.skip(k as int)),
        decreases n - k,
    {
        assert(cs@.skip(k as int).drop_first() =~= cs@.skip(k as int + 1));
        k = k + 1;
    }
    proof {
        assert(first_colon(cs@.skip(k as int)) == 0);
    }
    let mut host: Vec<char> = Vec::new();
    let mut i: usize = 0;
    while i < k
        invariant
            k <= n == cs@.len(),
            i <= k,
            host@ == lower(cs@.take(i as int)),
        decreases k - i,
    {
        host.push(ascii_lower_char(cs[i]));
        assert(lower(cs@.take(i as int + 1)) =~= lower(cs@.take(i as int)).push(lower_char(cs@[i as int])));
        i = i + 1;
    }
    let hn = host.len();
    assert(host@ == header_host(host_header@));
    if hn >= 5 {
        let suffix: Vec<char> = vec!['.', 't', 'e', 's', 't'];
        assert(suffix@ =~= test_label());
        let mut same = true;
        let mut j: usize = 0;
        while j < 5
            invariant
                hn == host@.len(),
                hn >= 5,
                j <= 5,
                suffix@ == test_label(),
                same == (forall|t: int| 0 <= t < j ==> host@[hn - 5 + t] == suffix@[t]),
            decreases 5 - j,
        {
            if host[hn - 5 + j] != suffix[j] {
                same = false;
            }
            j = j + 1;
        }
        if same {
            assert(host@.skip(hn - 5) =~= test_label());
            let key = string_of(&host, 0, hn - 5);
            assert(host@.take(hn - 5) =~= host@.subrange(0, hn - 5));
            return Ok(key);
        } else {
            assert(host@.skip(hn - 5) != test_label()) by {
                let t = choose|t: int| 0 <= t < 5 && host@[hn - 5 + t] != suffix@[t];
                assert(host@.skip(hn - 5)[t] != test_label()[t]);
            }
        }
    }
    let mut msg = String::from_str("invalid host domain: ");
    let h = string_of(&host, 0, hn);
    assert(host@.subrange(0, hn as int) =~= host@);
    append_str(&mut msg, h.as_str());
    Err(msg)
}

/// Decides where a request goes, from its `Host` header and the registry.
pub fn dispatch(state: &AppState, host_header: Option<&str>) -> (r: Dispatch)
    requires
        state.wf(),
    ensures
        r@ == dispatch_of(
            state.model().services,
            match host_header {
                Some(h) => Some(h@),
                None => None,
            },
        ),
{
    let header = match host_header {
        None => {
            return Dispatch::BadHost(String::from_str("Couldn't extract header host"));
        },
        Some(h) => h,
    };
    let key = match extract_host(header) {
        Err(m) => {
            return Dispatch::BadHost(m);
        },
        Ok(k) => k,
    };
    match state.get(key.as_str()) {
        None => Dispatch::NotFound,
        Some(ServiceType::StaticFiles(root)) => Dispatch::Static(root.clone()),
        Some(ServiceType::ReverseProxy(port)) => Dispatch::Proxy(*port),
        Some(ServiceType::InvalidConfig(m)) => Dispatch::InvalidConfig(m.clone()),
    }
}


/// Whether a header byte is visible ASCII or a tab, as header text allows.
pub open spec fn visible_ascii(b: u8) -> bool {
    (32 <= b && b < 127) || b == 9
}

/// The text of header bytes that are all visible ASCII.
pub open spec fn ascii_text(bs: Seq<u8>) -> Seq<char> {
    bs.map_values(|b: u8| b as char)
}

/// What a request goes to, given the raw bytes of its `Host` header: a
/// value that is not visible ASCII is a bad host.
pub open spec fn dispatch_of_bytes(services: Map<Seq<char>, ServiceModel>, host: Option<Seq<u8>>) -> DispatchModel {
    match host {
        None => dispatch_of(services, None),
        Some(bs) => if forall|i: int| 0 <= i < bs.len() ==> visible_ascii(#[trigger] bs[i]) {
            dispatch_of(services, Some(ascii_text(bs)))
        } else {
            DispatchModel::BadHost("header host is not visible ASCII"@)
        },
    }
}

/// Decides where a request goes, from the raw bytes of its `Host` header.
pub fn dispatch_header(state: &AppState, host_header: Option<&[u8]>) -> (r: Dispatch)
    requires
        state.wf(),
    ensures
        r@ == dispatch_of_bytes(
            state.model().services,
            match host_header {
                Some(h) => Some(h@),
                None => None,
            },
        ),
{
    let bytes = match host_header {
        None => {
            return dispatch(state, None);
        },
        Some(b) => b,
    };
    let mut text = String::new();
    let mut i: usize = 0;
    while i < bytes.len()
        invariant
            host_header == Some(bytes),
            i <= bytes@.len(),
            forall|j: int| 0 <= j < i ==> visible_ascii(#[trigger] bytes@[j]),
            text@ == ascii_text(bytes@.take(i as int)),
        decreases bytes@.len() - i,
    {
        let b = bytes[i];
        if !((32 <= b && b < 127) || b == 9) {
            assert(!visible_ascii(bytes@[i as int]));
            return Dispatch::BadHost(String::from_str("header host is not visible ASCII"));
        }
        crate::text::push_char(&mut text, b as char);
        assert(ascii_text(bytes@.take(i as int + 1)) =~= ascii_text(bytes@.take(i as int)).push(b as char));
        i = i + 1;
    }
    assert(bytes@.take(i as int) =~= bytes@);
    dispatch(state, Some(text.as_str()))
}

/// What a request for a registered entry goes to.
pub open spec fn entry_dispatch(svc: ServiceModel) -> DispatchModel {
    match svc {
        ServiceModel::StaticFiles(root) => DispatchModel::Static(root),
        ServiceModel::ReverseProxy(port) => DispatchModel::Proxy(port),
        ServiceModel::InvalidConfig(m) => DispatchModel::InvalidConfig(m),
    }
}

proof fn lemma_first_colon_word(w: Seq<char>, t: Seq<char>)
    requires
        forall|i: int| 0 <= i < w.len() ==> w[i] != ':',
    ensures
        first_colon(w + t) == w.len() + first_colon(t),
    decreases w.len(),
{
    if w.len() > 0 {
        assert((w + t).drop_first() =~= w.drop_first() + t);
        lemma_first_colon_word(w.drop_first(), t);
    } else {
        assert(w + t =~= t);
    }
}

/// Every registered name is reached: a `Host` header `<N>.test`, with N
/// written in any case and with or without a `:port`, dispatches to the
/// entry stored under N.
pub proof fn lemma_registered_name_dispatches(
    services: Map<Seq<char>, ServiceModel>,
    n: Seq<char>,
    written: Seq<char>,
    port: Seq<char>,
)
    requires
        services.contains_key(n),
        label_name(written),
        lower(written) == n,
    ensures
        host_key(written + test_label()) == Some(n),
        host_key(written + test_label() + seq![':'] + port) == Some(n),
        dispatch_of(services, Some(written + test_label())) == entry_dispatch(services[n]),
        dispatch_of(services, Some(written + test_label() + seq![':'] + port)) == entry_dispatch(services[n]),
{
    let w = written + test_label();
    assert forall|i: int| 0 <= i < w.len() implies w[i] != ':' by {
        if i < written.len() {
            assert(w[i] == written[i]);
        }
    }
    let t = seq![':'] + port;
    lemma_first_colon_word(w, Seq::empty());
    assert(w + Seq::<char>::empty() =~= w);
    lemma_first_colon_word(w, t);
    assert(w + t =~= written + test_label() + seq![':'] + port);
    assert(first_colon(t) == 0);
    assert(w.take(w.len() as int) =~= w);
    assert((w + t).take(w.len() as int) =~= w);
    let lw = n + test_label();
    assert(lower(w) =~= lw) by {
        assert forall|i: int| 0 <= i < w.len() implies lower(w)[i] == lw[i] by {
            if i < written.len() {
                assert(lower(written)[i] == n[i]);
                assert(w[i] == written[i]);
            }
        }
    }
    assert(lw.skip(lw.len() - 5) =~= test_label());
    assert(lw.take(lw.len() - 5) =~= n);
}

/// A registered name, as the registry keeps it, is itself a way to write it.
pub proof fn lemma_registry_key_written(state: &AppState, n: Seq<char>)
    requires
        state.wf(),
        state.model().services.contains_key(n),
    ensures
        label_name(n),
        lower(n) == n,
{
    state.lemma_wf_names();
}

} // verus!
