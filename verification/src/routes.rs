//! Request targets: splitting off the query string, reading parameters, and
//! telling which route a path names.
use vstd::prelude::*;

verus! {

/// The first position at or after `start` where `s` holds `c`, or `s.len()`.
pub open spec fn next_index(s: Seq<char>, c: char, start: int) -> int
    decreases s.len() - start,
{
    if start >= s.len() {
        s.len() as int
    } else if s[start] == c {
        start
    } else {
        next_index(s, c, start + 1)
    }
}

/// Where the search stops: within bounds, on a `c`, with none before it.
pub proof fn lemma_next_index_bounds(s: Seq<char>, c: char, start: int)
    requires
        0 <= start <= s.len(),
    ensures
        start <= next_index(s, c, start) <= s.len(),
        next_index(s, c, start) < s.len() ==> s[next_index(s, c, start)] == c,
        forall|k: int| start <= k < next_index(s, c, start) ==> s[k] != c,
    decreases s.len() - start,
{
    if start < s.len() && s[start] != c {
        lemma_next_index_bounds(s, c, start + 1);
    }
}

/// The route of a request target: everything before the first `?`.
pub open spec fn route_part(target: Seq<char>) -> Seq<char> {
    target.subrange(0, next_index(target, '?', 0))
}

/// The query of a request target: everything after the first `?`, or nothing.
pub open spec fn query_part(target: Seq<char>) -> Seq<char> {
    let q = next_index(target, '?', 0);
    if q < target.len() {
        target.subrange(q + 1, target.len() as int)
    } else {
        Seq::empty()
    }
}

/// A `name=value` piece as a parameter, split at its first `=`; a piece
/// without `=` gives none.
pub open spec fn piece_param(piece: Seq<char>) -> Seq<(Seq<char>, Seq<char>)> {
    let e = next_index(piece, '=', 0);
    if e < piece.len() {
        seq![(piece.subrange(0, e), piece.subrange(e + 1, piece.len() as int))]
    } else {
        Seq::empty()
    }
}

/// The parameters in the `&`-separated pieces of `q` from position `start` on.
pub open spec fn params_from(q: Seq<char>, start: int) -> Seq<(Seq<char>, Seq<char>)>
    decreases q.len() - start,
    when 0 <= start <= q.len()
{
    let end = next_index(q, '&', start);
    proof {
        lemma_next_index_bounds(q, '&', start);
    }
    let head = piece_param(q.subrange(start, end));
    if end < q.len() {
        head + params_from(q, end + 1)
    } else {
        head
    }
}

/// The first position at or after `start` where `s` holds `c`, or its length.
pub(crate) fn find_char(s: &str, c: char, start: usize) -> (r: usize)
    requires
        start <= s@.len(),
    ensures
        r == next_index(s@, c, start as int),
{
    let n = s.unicode_len();
    let mut i = start;
    proof {
        lemma_next_index_bounds(s@, c, start as int);
    }
    while i < n
        invariant
            n == s@.len(),
            start <= i <= n,
            next_index(s@, c, start as int) == next_index(s@, c, i as int),
        decreases n - i,
    {
        if s.get_char(i) == c {
            return i;
        }
        i = i + 1;
    }
    i
}

/// Splits a request target into its route and its `name=value` parameters:
/// the route is everything before the first `?`; after it, the query is split
/// on `&`, each piece at its first `=`, and pieces without `=` are dropped.
pub fn query(path: &str) -> (r: (&str, Vec<(&str, &str)>))
    ensures
        r.0@ == route_part(path@),
        r.1@.map_values(|p: (&str, &str)| (p.0@, p.1@)) == params_from(query_part(path@), 0),
{
    let n = path.unicode_len();
    let q = find_char(path, '?', 0);
    proof {
        lemma_next_index_bounds(path@, '?', 0);
    }
    let route = path.substring_char(0, q);
    let rest = if q < n { path.substring_char(q + 1, n) } else { path.substring_char(n, n) };
    assert(rest@ =~= query_part(path@));
    let m = rest.unicode_len();
    let mut params: Vec<(&str, &str)> = Vec::new();
    let mut start: usize = 0;
    loop
        invariant
            route@ == route_part(path@),
            rest@ == query_part(path@),
            m == rest@.len(),
            start <= m,
            params@.map_values(|p: (&str, &str)| (p.0@, p.1@)) + params_from(rest@, start as int)
                == params_from(rest@, 0),
        decreases m - start,
    {
        let end = find_char(rest, '&', start);
        proof {
            lemma_next_index_bounds(rest@, '&', start as int);
        }
        let piece = rest.substring_char(start, end);
        let plen = end - start;
        let e = find_char(piece, '=', 0);
        proof {
            lemma_next_index_bounds(piece@, '=', 0);
        }
        let ghost before = params@.map_values(|p: (&str, &str)| (p.0@, p.1@));
        if e < plen {
            let name = piece.substring_char(0, e);
            let value = piece.substring_char(e + 1, plen);
            params.push((name, value));
            assert(params@.map_values(|p: (&str, &str)| (p.0@, p.1@)) =~= before + piece_param(piece@));
        } else {
            assert(params@.map_values(|p: (&str, &str)| (p.0@, p.1@)) =~= before + piece_param(piece@));
        }
        if end < m {
            assert(params_from(rest@, start as int) == piece_param(piece@) + params_from(rest@, end + 1));
            assert(before + params_from(rest@, start as int) =~= (before + piece_param(piece@)) + params_from(rest@, end + 1));
            start = end + 1;
        } else {
            assert(params_from(rest@, start as int) == piece_param(piece@));
            return (route, params);
        }
    }
}

/// The value of the first parameter named `key`.
pub open spec fn param_of(params: Seq<(Seq<char>, Seq<char>)>, key: Seq<char>) -> Option<Seq<char>>
    decreases params.len(),
{
    if params.len() == 0 {
        None
    } else if params[0].0 == key {
        Some(params[0].1)
    } else {
        param_of(params.drop_first(), key)
    }
}

/// The value of the first parameter named `key`, if any.
pub fn param<'a>(params: &'a [(&str, &str)], key: &str) -> (r: Option<&'a str>)
    ensures
        match r {
            None => param_of(params@.map_values(|p: (&str, &str)| (p.0@, p.1@)), key@) is None,
            Some(v) => param_of(params@.map_values(|p: (&str, &str)| (p.0@, p.1@)), key@) == Some(v@),
        },
{
    let ghost all = params@.map_values(|p: (&str, &str)| (p.0@, p.1@));
    let mut i: usize = 0;
    assert(all.subrange(0, all.len() as int) =~= all);
    while i < params.len()
        invariant
            all == params@.map_values(|p: (&str, &str)| (p.0@, p.1@)),
            i <= params@.len(),
            param_of(all, key@) == param_of(all.subrange(i as int, all.len() as int), key@),
        decreases params@.len() - i,
    {
        let ghost tail = all.subrange(i as int, all.len() as int);
        assert(tail.drop_first() =~= all.subrange(i + 1, all.len() as int));
        assert(tail[0] == all[i as int]);
        if crate::text::text_eq(params[i].0, key) {
            return Some(params[i].1);
        }
        i = i + 1;
    }
    None
}

/// Whether `s` begins with `p`.
pub fn has_prefix(s: &str, p: &str) -> (r: bool)
    ensures
        r == p@.is_prefix_of(s@),
{
    let n = s.unicode_len();
    let m = p.unicode_len();
    if m > n {
        return false;
    }
    let mut i: usize = 0;
    while i < m
        invariant
            n == s@.len(),
            m == p@.len(),
            m <= n,
            i <= m,
            forall|k: int| 0 <= k < i ==> s@[k] == p@[k],
        decreases m - i,
    {
        if s.get_char(i) != p.get_char(i) {
            assert(s@.subrange(0, m as int)[i as int] != p@[i as int]);
            return false;
        }
        i = i + 1;
    }
    assert(p@ =~= s@.subrange(0, m as int));
    true
}

/// Whether `s` ends with `p`.
pub fn has_suffix(s: &str, p: &str) -> (r: bool)
    ensures
        r == p@.is_suffix_of(s@),
{
    let n = s.unicode_len();
    let m = p.unicode_len();
    if m > n {
        return false;
    }
    let d = n - m;
    let mut i: usize = 0;
    while i < m
        invariant
            n == s@.len(),
            m == p@.len(),
            d == n - m,
            i <= m,
            forall|k: int| 0 <= k < i ==> s@[d + k] == p@[k],
        decreases m - i,
    {
        if s.get_char(d + i) != p.get_char(i) {
            assert(s@.subrange(d as int, n as int)[i as int] != p@[i as int]);
            return false;
        }
        i = i + 1;
    }
    assert(p@ =~= s@.subrange(d as int, n as int));
    true
}

/// Where a `POST` goes.
pub enum PostRoute<'a> {
    /// `/nodes`: a node announcement.
    Nodes,
    /// `/jobs`: a job proposal.
    Jobs,
    /// `/jobs/{id}/join`: a join for job `id`.
    Join(&'a str),
    /// `/jobs/{id}/result`: a result for job `id`.
    Result(&'a str),
    /// Anything else.
    NotFound,
}

/// The model of a `POST` route.
pub enum SpecPostRoute {
    Nodes,
    Jobs,
    Join(Seq<char>),
    Result(Seq<char>),
    NotFound,
}

impl<'a> View for PostRoute<'a> {
    type V = SpecPostRoute;

    open spec fn view(&self) -> SpecPostRoute {
        match *self {
            PostRoute::Nodes => SpecPostRoute::Nodes,
            PostRoute::Jobs => SpecPostRoute::Jobs,
            PostRoute::Join(id) => SpecPostRoute::Join(id@),
            PostRoute::Result(id) => SpecPostRoute::Result(id@),
            PostRoute::NotFound => SpecPostRoute::NotFound,
        }
    }
}

/// The route a `POST` path names: the two exact paths first, then a job's
/// join and result paths, whose job id is what lies between `/jobs/` and the
/// suffix.
pub open spec fn post_route_of(p: Seq<char>) -> SpecPostRoute {
    if p == "/nodes"@ {
        SpecPostRoute::Nodes
    } else if p == "/jobs"@ {
        SpecPostRoute::Jobs
    } else if "/jobs/"@.is_prefix_of(p) && "/join"@.is_suffix_of(p) {
        SpecPostRoute::Join(p.subrange(6, p.len() - 5))
    } else if "/jobs/"@.is_prefix_of(p) && "/result"@.is_suffix_of(p) {
        SpecPostRoute::Result(p.subrange(6, p.len() - 7))
    } else {
        SpecPostRoute::NotFound
    }
}

/// The route a `POST` path names. The two paths where the job prefix and
/// suffix overlap name no job and are left out.
pub fn route_post(path: &str) -> (r: PostRoute)
    requires
        path@ != "/jobs/join"@,
        path@ != "/jobs/result"@,
    ensures
        r@ == post_route_of(path@),
{
    proof {
        reveal_strlit("/jobs/");
        reveal_strlit("/join");
        reveal_strlit("/result");
        reveal_strlit("/jobs/join");
        reveal_strlit("/jobs/result");
    }
    if crate::text::text_eq(path, "/nodes") {
        return PostRoute::Nodes;
    }
    if crate::text::text_eq(path, "/jobs") {
        return PostRoute::Jobs;
    }
    let n = path.unicode_len();
    if has_prefix(path, "/jobs/") && has_suffix(path, "/join") {
        if n < 11 {
            assert(path@[n - 5] == path@.subrange(n - 5, n as int)[0]);
            assert(path@[n - 5] == '/');
            if n < 10 {
                assert(path@[n - 5] == path@.subrange(0, 6)[n - 5]);
            }
            assert forall|k: int| 0 <= k < n implies path@[k] == "/jobs/join"@[k] by {
                if k < 6 {
                    assert(path@[k] == path@.subrange(0, 6)[k]);
                } else {
                    assert(path@[k] == path@.subrange(n - 5, n as int)[k - 5]);
                }
            }
            assert(path@ =~= "/jobs/join"@);
        }
        return PostRoute::Join(path.substring_char(6, n - 5));
    }
    if has_prefix(path, "/jobs/") && has_suffix(path, "/result") {
        if n < 13 {
            assert(path@[n - 7] == path@.subrange(n - 7, n as int)[0]);
            assert(path@[n - 7] == '/');
            assert forall|k: int| n - 7 <= k < 6 implies path@[k] == "/jobs/"@[k] && path@[k] == "/result"@[k - (n - 7)] by {
                assert(path@[k] == path@.subrange(0, 6)[k]);
                assert(path@[k] == path@.subrange(n - 7, n as int)[k - (n - 7)]);
            }
            if n == 7 {
                assert(path@[1] == "/jobs/"@[1]);
            }
            assert(n == 12);
            assert forall|k: int| 0 <= k < n implies path@[k] == "/jobs/result"@[k] by {
                if k < 6 {
                    assert(path@[k] == path@.subrange(0, 6)[k]);
                } else {
                    assert(path@[k] == path@.subrange(n - 7, n as int)[k - 5]);
                }
            }
            assert(path@ =~= "/jobs/result"@);
        }
        return PostRoute::Result(path.substring_char(6, n - 7));
    }
    PostRoute::NotFound
}

/// Where a `GET` goes.
pub enum GetRoute<'a> {
    /// `/jobs/{id}/bundle`: the evidence bundle of job `id`.
    Bundle(&'a str),
    /// `/nodes`: the node listing.
    Nodes,
    /// `/jobs`: the job listing.
    Jobs,
    /// Anything else.
    NotFound,
}

/// The model of a `GET` route.
pub enum SpecGetRoute {
    Bundle(Seq<char>),
    Nodes,
    Jobs,
    NotFound,
}

impl<'a> View for GetRoute<'a> {
    type V = SpecGetRoute;

    open spec fn view(&self) -> SpecGetRoute {
        match *self {
            GetRoute::Bundle(id) => SpecGetRoute::Bundle(id@),
            GetRoute::Nodes => SpecGetRoute::Nodes,
            GetRoute::Jobs => SpecGetRoute::Jobs,
            GetRoute::NotFound => SpecGetRoute::NotFound,
        }
    }
}

/// The route a `GET` path names: a bundle when the path is `/jobs/`, then an
/// id, then `/bundle`; otherwise one of the two listings, or nothing.
pub open spec fn get_route_of(p: Seq<char>) -> SpecGetRoute {
    if "/jobs/"@.is_prefix_of(p) && "/bundle"@.is_suffix_of(p.subrange(6, p.len() as int)) {
        SpecGetRoute::Bundle(p.subrange(6, p.len() - 7))
    } else if p == "/nodes"@ {
        SpecGetRoute::Nodes
    } else if p == "/jobs"@ {
        SpecGetRoute::Jobs
    } else {
        SpecGetRoute::NotFound
    }
}

/// The route a `GET` path names.
pub fn route_get(path: &str) -> (r: GetRoute)
    ensures
        r@ == get_route_of(path@),
{
    proof {
        reveal_strlit("/jobs/");
        reveal_strlit("/bundle");
    }
    let n = path.unicode_len();
    if has_prefix(path, "/jobs/") {
        let rest = path.substring_char(6, n);
        if has_suffix(rest, "/bundle") {
            return GetRoute::Bundle(path.substring_char(6, n - 7));
        }
    }
    if crate::text::text_eq(path, "/nodes") {
        return GetRoute::Nodes;
    }
    if crate::text::text_eq(path, "/jobs") {
        return GetRoute::Jobs;
    }
    GetRoute::NotFound
}

/// The value `param` finds for `key` is that of the first parameter named
/// `key`; there is none when no parameter has that name.
pub proof fn lemma_param_is_first(params: Seq<(Seq<char>, Seq<char>)>, key: Seq<char>)
    ensures
        match param_of(params, key) {
            Some(v) => exists|i: int|
                0 <= i < params.len() && #[trigger] params[i] == (key, v) && forall|j: int|
                    0 <= j < i ==> (#[trigger] params[j]).0 != key,
            None => forall|i: int| 0 <= i < params.len() ==> (#[trigger] params[i]).0 != key,
        },
    decreases params.len(),
{
    if params.len() > 0 {
        let rest = params.drop_first();
        lemma_param_is_first(rest, key);
        if params[0].0 != key {
            match param_of(rest, key) {
                Some(v) => {
                    let i = choose|i: int|
                        0 <= i < rest.len() && #[trigger] rest[i] == (key, v) && forall|j: int|
                            0 <= j < i ==> (#[trigger] rest[j]).0 != key;
                    assert(params[i + 1] == (key, v));
                    assert forall|j: int| 0 <= j < i + 1 implies (#[trigger] params[j]).0 != key by {
                        if j > 0 {
                            assert(params[j] == rest[j - 1]);
                        }
                    }
                },
                None => {
                    assert forall|i: int| 0 <= i < params.len() implies (#[trigger] params[i]).0 != key by {
                        if i > 0 {
                            assert(params[i] == rest[i - 1]);
                        }
                    }
                },
            }
        } else {
            assert(params[0] == (key, params[0].1));
        }
    }
}

/// Every job id has its join, result and bundle paths, and a path that names
/// a job's join, result or bundle is exactly `/jobs/`, the id, and the suffix.
pub proof fn lemma_job_paths(id: Seq<char>, p: Seq<char>)
    requires
        p != "/jobs/join"@,
        p != "/jobs/result"@,
    ensures
        post_route_of("/jobs/"@ + id + "/join"@) == SpecPostRoute::Join(id),
        post_route_of("/jobs/"@ + id + "/result"@) == SpecPostRoute::Result(id),
        get_route_of("/jobs/"@ + id + "/bundle"@) == SpecGetRoute::Bundle(id),
        post_route_of(p) matches SpecPostRoute::Join(i) ==> p == "/jobs/"@ + i + "/join"@,
        post_route_of(p) matches SpecPostRoute::Result(i) ==> p == "/jobs/"@ + i + "/result"@,
        get_route_of(p) matches SpecGetRoute::Bundle(i) ==> p == "/jobs/"@ + i + "/bundle"@,
{
    reveal_strlit("/jobs/");
    reveal_strlit("/join");
    reveal_strlit("/result");
    reveal_strlit("/bundle");
    reveal_strlit("/nodes");
    reveal_strlit("/jobs");
    assert("/jobs/"@.len() == 6 && "/join"@.len() == 5 && "/result"@.len() == 7 && "/bundle"@.len() == 7);
    assert("/nodes"@.len() == 6 && "/jobs"@.len() == 5);
    let pj = "/jobs/"@ + id + "/join"@;
    let pr = "/jobs/"@ + id + "/result"@;
    let pb = "/jobs/"@ + id + "/bundle"@;
    assert(pj.len() >= 11 && pr.len() >= 13 && pb.len() >= 13);
    assert("/jobs/"@ =~= pj.subrange(0, 6));
    assert("/join"@ =~= pj.subrange(pj.len() - 5, pj.len() as int));
    assert(pj.subrange(6, pj.len() - 5) =~= id);
    assert("/jobs/"@ =~= pr.subrange(0, 6));
    assert("/result"@ =~= pr.subrange(pr.len() - 7, pr.len() as int));
    assert(pr.subrange(6, pr.len() - 7) =~= id);
    if "/join"@.is_suffix_of(pr) {
        assert(pr[pr.len() - 2] == "/join"@[3]);
        assert(pr[pr.len() - 2] == "/result"@[5]);
    }
    assert("/jobs/"@ =~= pb.subrange(0, 6));
    assert("/bundle"@ =~= pb.subrange(6, pb.len() as int).subrange(pb.len() - 6 - 7, pb.len() - 6));
    assert(pb.subrange(6, pb.len() - 7) =~= id);
    reveal_strlit("/jobs/join");
    reveal_strlit("/jobs/result");
    if post_route_of(p) matches SpecPostRoute::Join(i) {
        if p.len() < 11 {
            let a = p.subrange(0, 6);
            let b = p.subrange(p.len() - 5, p.len() as int);
            assert(a == "/jobs/"@ && b == "/join"@);
            assert forall|k: int| 0 <= k < 6 implies p[k] == #[trigger] "/jobs/"@[k] by {
                assert(p[k] == a[k]);
            }
            assert forall|k: int| p.len() - 5 <= k < p.len() implies p[k] == #[trigger] "/join"@[k - (p.len() - 5)] by {
                assert(p[k] == b[k - (p.len() - 5)]);
            }
            assert(p[p.len() - 5] == "/jobs/"@[p.len() - 5] && p[p.len() - 5] == "/join"@[0]);
            assert(p.len() == 10);
            assert forall|k: int| 0 <= k < 10 implies p[k] == #[trigger] "/jobs/join"@[k] by {
                if k < 6 {
                    assert(p[k] == "/jobs/"@[k]);
                } else {
                    assert(p[k] == "/join"@[k - 5]);
                }
            }
            assert(p =~= "/jobs/join"@);
        }
        assert(p =~= p.subrange(0, 6) + p.subrange(6, p.len() - 5) + p.subrange(p.len() - 5, p.len() as int));
    }
    if post_route_of(p) matches SpecPostRoute::Result(i) {
        if p.len() < 13 {
            let a = p.subrange(0, 6);
            let b = p.subrange(p.len() - 7, p.len() as int);
            assert(a == "/jobs/"@ && b == "/result"@);
            assert forall|k: int| 0 <= k < 6 implies p[k] == #[trigger] "/jobs/"@[k] by {
                assert(p[k] == a[k]);
            }
            assert forall|k: int| p.len() - 7 <= k < p.len() implies p[k] == #[trigger] "/result"@[k - (p.len() - 7)] by {
                assert(p[k] == b[k - (p.len() - 7)]);
            }
            assert(p[p.len() - 7] == "/jobs/"@[p.len() - 7] && p[p.len() - 7] == "/result"@[0]);
            if p.len() == 7 {
                assert(p[1] == "/jobs/"@[1] && p[1] == "/result"@[1]);
            }
            assert(p.len() == 12);
            assert forall|k: int| 0 <= k < 12 implies p[k] == #[trigger] "/jobs/result"@[k] by {
                if k < 6 {
                    assert(p[k] == "/jobs/"@[k]);
                } else {
                    assert(p[k] == "/result"@[k - 5]);
                }
            }
            assert(p =~= "/jobs/result"@);
        }
        assert(p =~= p.subrange(0, 6) + p.subrange(6, p.len() - 7) + p.subrange(p.len() - 7, p.len() as int));
    }
    if get_route_of(p) matches SpecGetRoute::Bundle(i) {
        let rest = p.subrange(6, p.len() as int);
        assert(rest.subrange(rest.len() - 7, rest.len() as int) =~= p.subrange(p.len() - 7, p.len() as int));
        assert(p =~= p.subrange(0, 6) + p.subrange(6, p.len() - 7) + p.subrange(p.len() - 7, p.len() as int));
    }
}

/// A request target is its route, then, when it has a query, `?` and the
/// query; the route holds no `?`.
pub proof fn lemma_target_split(t: Seq<char>)
    ensures
        forall|i: int| 0 <= i < route_part(t).len() ==> #[trigger] route_part(t)[i] != '?',
        t == route_part(t) + (if route_part(t).len() < t.len() {
            seq!['?'] + query_part(t)
        } else {
            Seq::empty()
        }),
{
    lemma_next_index_bounds(t, '?', 0);
    let q = next_index(t, '?', 0);
    if q < t.len() {
        assert(t =~= t.subrange(0, q) + (seq!['?'] + t.subrange(q + 1, t.len() as int)));
    } else {
        assert(t =~= t.subrange(0, q) + Seq::<char>::empty());
    }
}

} // verus!
