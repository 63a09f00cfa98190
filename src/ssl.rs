//! What a TLS leaf must carry: its subject alternative names, its subject,
//! its validity, and whether the root CA is still fresh.
use vstd::prelude::*;
use vstd::string::*;
use crate::state::AppState;
use crate::text::append_str;

verus! {

/// Country of the certificates' subject.
pub const TLS_ENTRY_C: &'static str = "IL";
/// State of the certificates' subject.
pub const TLS_ENTRY_ST: &'static str = "Israel";
/// Organisation of the certificates' subject.
pub const TLS_ENTRY_O: &'static str = "Duwop IO";
/// Common name of the certificates' subject.
pub const TLS_ENTRY_CN: &'static str = "Duwop Test";
/// Days a leaf stays valid.
pub const LEAF_VALID_DAYS: u32 = 365;
/// Days before its expiry that a root CA is replaced.
pub const CA_EXPIRED_GRACE: u32 = 30;

/// The name a leaf carries when no service is registered.
pub open spec fn default_san() -> Seq<char> {
    "duwop.test"@
}

/// The name of a service under the managed label.
pub open spec fn managed_host(n: Seq<char>) -> Seq<char> {
    n + ".test"@
}

/// The wildcard that covers the sub-names of a service.
pub open spec fn wildcard_host(n: Seq<char>) -> Seq<char> {
    "*."@ + n + ".test"@
}

/// The SAN list of a leaf for these names: `N.test` and `*.N.test` for each,
/// in order, or the default name alone where there are none.
pub open spec fn san_list(names: Seq<Seq<char>>) -> Seq<Seq<char>> {
    if names.len() == 0 {
        seq![default_san()]
    } else {
        san_pairs(names)
    }
}

/// `N.test` and `*.N.test` for each name, in order.
pub open spec fn san_pairs(names: Seq<Seq<char>>) -> Seq<Seq<char>>
    decreases names.len(),
{
    if names.len() == 0 {
        Seq::empty()
    } else {
        san_pairs(names.drop_last()).push(managed_host(names.last())).push(wildcard_host(names.last()))
    }
}

proof fn lemma_san_pairs(names: Seq<Seq<char>>)
    ensures
        san_pairs(names).len() == 2 * names.len(),
        forall|i: int| 0 <= i < names.len() ==> san_pairs(names)[2 * i] == managed_host(#[trigger] names[i])
            && san_pairs(names)[2 * i + 1] == wildcard_host(names[i]),
    decreases names.len(),
{
    if names.len() > 0 {
        let q = names.drop_last();
        lemma_san_pairs(q);
        assert forall|i: int| 0 <= i < names.len() implies san_pairs(names)[2 * i] == managed_host(#[trigger] names[i])
            && san_pairs(names)[2 * i + 1] == wildcard_host(names[i]) by {
            if i < names.len() - 1 {
                assert(q[i] == names[i]);
            }
        }
    }
}

/// A new leaf covers every name it was made for, and the wildcard below each.
pub proof fn lemma_leaf_covers_names(names: Seq<Seq<char>>, n: Seq<char>)
    requires
        names.contains(n),
    ensures
        san_list(names).contains(managed_host(n)),
        san_list(names).contains(wildcard_host(n)),
{
    lemma_san_pairs(names);
    let i = choose|i: int| 0 <= i < names.len() && names[i] == n;
    assert(san_list(names)[2 * i] == managed_host(n));
    assert(san_list(names)[2 * i + 1] == wildcard_host(n));
}

/// The SAN list of a leaf for these names.
pub fn leaf_san_names(names: &Vec<String>) -> (r: Vec<String>)
    ensures
        r@.map_values(|s: String| s@) == san_list(names@.map_values(|s: String| s@)),
{
    let ghost ns = names@.map_values(|s: String| s@);
    let mut r: Vec<String> = Vec::new();
    if names.len() == 0 {
        r.push(String::from_str("duwop.test"));
        assert(r@.map_values(|s: String| s@) =~= seq![default_san()]);
        return r;
    }
    let mut i: usize = 0;
    while i < names.len()
        invariant
            ns == names@.map_values(|s: String| s@),
            i <= names@.len(),
            r@.map_values(|s: String| s@) == san_pairs(ns.take(i as int)),
        decreases names@.len() - i,
    {
        let ghost before = r@.map_values(|s: String| s@);
        let mut host = names[i].clone();
        append_str(&mut host, ".test");
        let mut wild = String::from_str("*.");
        append_str(&mut wild, names[i].as_str());
        append_str(&mut wild, ".test");
        r.push(host);
        r.push(wild);
        assert(ns.take(i as int + 1).drop_last() =~= ns.take(i as int));
        assert(ns.take(i as int + 1).last() == names@[i as int]@);
        assert(r@.map_values(|s: String| s@) =~= before.push(managed_host(names@[i as int]@)).push(wildcard_host(names@[i as int]@)));
        i = i + 1;
    }
    assert(ns.take(i as int) =~= ns);
    r
}

/// The SAN list for a leaf made now: one that covers every registered name.
pub fn leaf_names(state: &AppState) -> (r: Vec<String>)
    requires
        state.wf(),
    ensures
        forall|k: Seq<char>| #[trigger] state.model().services.contains_key(k) ==> r@.map_values(|s: String| s@).contains(managed_host(k)) && r@.map_values(|s: String| s@).contains(wildcard_host(k)),
        state.model().services.dom().len() == 0 ==> r@.map_values(|s: String| s@) == seq![default_san()],
        exists|ns: Seq<Seq<char>>| {
            &&& ns.len() == state.model().services.dom().len()
            &&& forall|k: Seq<char>| state.model().services.contains_key(k) <==> ns.contains(k)
            &&& r@.map_values(|s: String| s@) == san_list(ns)
        },
{
    let names = state.names();
    let r = leaf_san_names(&names);
    proof {
        let ns = names@.map_values(|s: String| s@);
        assert forall|k: Seq<char>| #[trigger] state.model().services.contains_key(k) implies r@.map_values(|s: String| s@).contains(managed_host(k)) && r@.map_values(|s: String| s@).contains(wildcard_host(k)) by {
            let i = choose|i: int| 0 <= i < names@.len() && names@[i]@ == k;
            assert(ns[i] == k);
            lemma_leaf_covers_names(ns, k);
        }
        assert forall|k: Seq<char>| state.model().services.contains_key(k) <==> ns.contains(k) by {
            if state.model().services.contains_key(k) {
                let i = choose|i: int| 0 <= i < names@.len() && names@[i]@ == k;
                assert(ns[i] == k);
            }
            if ns.contains(k) {
                let i = choose|i: int| 0 <= i < ns.len() && ns[i] == k;
                assert(names@[i]@ == k);
            }
        }
    }
    r
}

/// Whether the root CA stays valid long enough, given the difference from
/// its expiry to the end of the grace period (in days and seconds, as
/// OpenSSL's `ASN1_TIME_diff` gives it): it does unless that end comes
/// later than the expiry.
pub fn validate_ca(diff_days: i32, diff_secs: i32) -> (r: bool)
    ensures
        r == !(diff_days > 0 || diff_secs > 0),
{
    !(diff_days > 0 || diff_secs > 0)
}

} // verus!
