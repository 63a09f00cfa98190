//! Path resolution for static services: which file a request target names,
//! whether its canonical form stays under the root, and its content type.
use vstd::prelude::*;
use vstd::string::*;
use crate::text::{append_str, chars_of, eq_lit, string_of};

verus! {

/// Position of the first `?` in `s`, or its length where it holds none.
pub open spec fn first_query(s: Seq<char>) -> nat
    decreases s.len(),
{
    if s.len() == 0 || s[0] == '?' {
        0
    } else {
        1 + first_query(s.drop_first())
    }
}

/// The file name that a directory request is served from.
pub open spec fn index_name() -> Seq<char> {
    seq!['i', 'n', 'd', 'e', 'x', '.', 'h', 't', 'm', 'l']
}

/// `rel` under `root`, with one separator between them.
pub open spec fn joined_path(root: Seq<char>, rel: Seq<char>) -> Seq<char> {
    if root.len() > 0 && root.last() == '/' {
        root + rel
    } else {
        root + seq!['/'] + rel
    }
}

/// The path that a request target names under `root`, before it is made
/// canonical: none unless the target starts with `/`; the query is dropped;
/// a target that ends with `/` names its `index.html`.
pub open spec fn candidate_of(target: Seq<char>, root: Seq<char>) -> Option<Seq<char>> {
    if target.len() == 0 || target[0] != '/' {
        None
    } else {
        let p = target.take(first_query(target) as int);
        let j = joined_path(root, p.skip(1));
        Some(if p.last() == '/' { j + index_name() } else { j })
    }
}

/// Whether path `p` is `root` or lies below it, component by component.
pub open spec fn descends(p: Seq<char>, root: Seq<char>) -> bool {
    &&& p.len() >= root.len()
    &&& p.take(root.len() as int) == root
    &&& (p.len() == root.len() || (root.len() > 0 && root.last() == '/') || p[root.len() as int] == '/')
}

/// The path that a request target names under `root`, before it is made
/// canonical.
pub fn candidate_path(request_path: &str, root_dir: &str) -> (r: Option<String>)
    ensures
        match candidate_of(request_path@, root_dir@) {
            None => r is None,
            Some(c) => r matches Some(s) && s@ == c,
        },
{
    let cs = chars_of(request_path);
    let n = cs.len();
    if n == 0 || cs[0] != '/' {
        return None;
    }
    let mut end: usize = 0;
    assert(cs@.skip(0) =~= cs@);
    while end < n && cs[end] != '?'
        invariant
            end <= n == cs@.len(),
            first_query(cs@) == end + first_query(cs@.skip(end as int)),
        decreases n - end,
    {
        assert(cs@.skip(end as int).drop_first() =~= cs@.skip(end as int + 1));
        end = end + 1;
    }
    assert(first_query(cs@.skip(end as int)) == 0);
    let ghost p = cs@.take(end as int);
    let rel = string_of(&cs, 1, end);
    assert(rel@ =~= p.skip(1));
    let rc = chars_of(root_dir);
    let mut path = String::from_str(root_dir);
    if !(rc.len() > 0 && rc[rc.len() - 1] == '/') {
        append_str(&mut path, "/");
        proof {
            reveal_strlit("/");
        }
    }
    append_str(&mut path, rel.as_str());
    if cs[end - 1] == '/' {
        append_str(&mut path, "index.html");
        proof {
            reveal_strlit("index.html");
        }
    }
    Some(path)
}

/// The file that serves a request, given the canonical form of its candidate
/// path (`None` where that path does not exist): the canonical path where it
/// lies under the root, else nothing, which is answered with 404.
pub fn local_path_for_request(root_dir: &str, canonical: Option<&str>) -> (r: Option<String>)
    ensures
        match canonical {
            Some(c) => if descends(c@, root_dir@) {
                r matches Some(p) && p@ == c@
            } else {
                r is None
            },
            None => r is None,
        },
        r matches Some(p) ==> descends(p@, root_dir@),
{
    let c = match canonical {
        None => {
            return None;
        },
        Some(c) => c,
    };
    let pc = chars_of(c);
    let rc = chars_of(root_dir);
    let pn = pc.len();
    let rn = rc.len();
    if pn < rn {
        return None;
    }
    let mut i: usize = 0;
    while i < rn
        invariant
            canonical == Some(c),
            rn <= pn,
            pc@ == c@,
            rc@ == root_dir@,
            rn == rc@.len(),
            pn == pc@.len(),
            i <= rn,
            forall|j: int| 0 <= j < i ==> pc@[j] == rc@[j],
        decreases rn - i,
    {
        if pc[i] != rc[i] {
            assert(c@.take(rn as int)[i as int] != root_dir@[i as int]);
            return None;
        }
        i = i + 1;
    }
    assert(c@.take(rn as int) =~= root_dir@);
    if pn == rn || (rn > 0 && rc[rn - 1] == '/') || pc[rn] == '/' {
        Some(String::from_str(c))
    } else {
        None
    }
}

/// Position just after the last `/` of `s`, or 0 where it holds none.
pub open spec fn name_start(s: Seq<char>) -> nat
    decreases s.len(),
{
    if s.len() == 0 {
        0
    } else if s.last() == '/' {
        s.len()
    } else {
        name_start(s.drop_last())
    }
}

/// Position of the last `.` of `s`, if it holds one.
pub open spec fn last_dot(s: Seq<char>) -> Option<nat>
    decreases s.len(),
{
    if s.len() == 0 {
        None
    } else if s.last() == '.' {
        Some((s.len() - 1) as nat)
    } else {
        last_dot(s.drop_last())
    }
}

/// The extension of the file that a path names: what follows the last dot
/// of its final component, where that dot is not the component's first
/// character.
pub open spec fn extension_of(path: Seq<char>) -> Option<Seq<char>> {
    let name = path.skip(name_start(path) as int);
    match last_dot(name) {
        Some(d) => if d > 0 {
            Some(name.skip(d as int + 1))
        } else {
            None
        },
        None => None,
    }
}

/// The content type for a file extension.
pub open spec fn mime_of(ext: Option<Seq<char>>) -> Seq<char> {
    match ext {
        Some(e) => if e == "html"@ {
            "text/html"@
        } else if e == "css"@ {
            "text/css"@
        } else if e == "js"@ {
            "text/javascript"@
        } else if e == "jpg"@ {
            "image/jpeg"@
        } else if e == "png"@ {
            "image/png"@
        } else if e == "svg"@ {
            "image/svg+xml"@
        } else if e == "wasm"@ {
            "application/wasm"@
        } else {
            "text/plain"@
        },
        None => "text/plain"@,
    }
}

proof fn lemma_name_start(s: Seq<char>)
    ensures
        name_start(s) <= s.len(),
    decreases s.len(),
{
    if s.len() > 0 && s.last() != '/' {
        lemma_name_start(s.drop_last());
    }
}

proof fn lemma_last_dot(s: Seq<char>)
    ensures
        match last_dot(s) {
            Some(d) => d < s.len(),
            None => true,
        },
    decreases s.len(),
{
    if s.len() > 0 && s.last() != '.' {
        lemma_last_dot(s.drop_last());
    }
}

/// The content type of the file at `file_path`, by its extension.
pub fn file_path_mime(file_path: &str) -> (r: String)
    ensures
        r@ == mime_of(extension_of(file_path@)),
{
    let cs = chars_of(file_path);
    let n = cs.len();
    let mut s: usize = n;
    assert(cs@.take(n as int) =~= cs@);
    while s > 0 && cs[s - 1] != '/'
        invariant
            s <= n == cs@.len(),
            name_start(cs@) == name_start(cs@.take(s as int)),
        decreases s,
    {
        assert(cs@.take(s as int).drop_last() =~= cs@.take(s - 1));
        s = s - 1;
    }
    proof {
        lemma_name_start(cs@.take(s as int));
    }
    assert(name_start(cs@) == s);
    let ghost name = cs@.skip(s as int);
    let mut d: usize = n;
    assert(name.take((d - s) as int) =~= name);
    while d > s && cs[d - 1] != '.'
        invariant
            s <= d <= n == cs@.len(),
            name == cs@.skip(s as int),
            last_dot(name) == last_dot(name.take((d - s) as int)),
        decreases d,
    {
        assert(name.take((d - s) as int).drop_last() =~= name.take((d - s - 1) as int));
        d = d - 1;
    }
    if d - s <= 1 {
        // no dot, or only a leading one
        proof {
            if d == s + 1 {
                assert(last_dot(name.take(1)) == Some(0nat));
            }
        }
        return String::from_str("text/plain");
    }
    assert(last_dot(name) == Some((d - 1 - s) as nat));
    assert(name.skip((d - s) as int) =~= cs@.subrange(d as int, n as int));
    if eq_lit(&cs, d, n, "html") {
        String::from_str("text/html")
    } else if eq_lit(&cs, d, n, "css") {
        String::from_str("text/css")
    } else if eq_lit(&cs, d, n, "js") {
        String::from_str("text/javascript")
    } else if eq_lit(&cs, d, n, "jpg") {
        String::from_str("image/jpeg")
    } else if eq_lit(&cs, d, n, "png") {
        String::from_str("image/png")
    } else if eq_lit(&cs, d, n, "svg") {
        String::from_str("image/svg+xml")
    } else if eq_lit(&cs, d, n, "wasm") {
        String::from_str("application/wasm")
    } else {
        String::from_str("text/plain")
    }
}

} // verus!
