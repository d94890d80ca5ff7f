//! The router: incremental route registration, composition of sub-routers
//! under a base prefix, and dispatch from a parsed request to the
//! registered handler.

use vstd::prelude::*;
use vstd::string::StrSliceExecFns;
use vstd::string::StringExecFns;
use vstd::utf8::encode_utf8;
use crate::method::Method;
use crate::request::Request;
use crate::request::spec_before_first;
use crate::request::lemma_first_split;
use crate::request::lemma_no_occurrence;
use crate::response::string_into_bytes;
use crate::routes::Routes;
use crate::routes::spec_entry_views;
use crate::routes::spec_resolve;
use crate::text::find_char;
use crate::text::spec_trim_end;
use crate::text::spec_trim_start;
use crate::text::trim_end_char;
use crate::text::trim_start_char;

verus! {

broadcast use vstd::std_specs::vec::group_vec_axioms;

/// A router under construction: a base prefix, its own registrations, and
/// sub-routers whose registrations are composed under the base prefix by
/// [`Router::into_routes`].
pub struct Router<H> {
    pub base: String,
    pub routes: Routes<H>,
    pub sub_routers: Vec<Router<H>>,
}

/// A base prefix composed with a path: the base without trailing slashes,
/// one slash, the path without leading slashes.
pub open spec fn spec_join_path(base: Seq<char>, path: Seq<char>) -> Seq<char> {
    spec_trim_end(base, '/') + "/"@ + spec_trim_start(path, '/')
}

/// The key a nested registration gets when composed under `base`: the
/// joined path with its trailing slashes trimmed.
pub open spec fn spec_prefix_key(base: Seq<char>, key: Seq<char>) -> Seq<char> {
    spec_trim_end(spec_join_path(base, key), '/')
}

/// Registrations re-keyed under a base prefix.
pub open spec fn spec_prefix_entries<H>(
    es: Seq<(Seq<char>, Method, H)>,
    base: Seq<char>,
) -> Seq<(Seq<char>, Method, H)> {
    es.map(|i: int, e: (Seq<char>, Method, H)| (spec_prefix_key(base, e.0), e.1, e.2))
}

/// Every registration a router stands for, in order: its own, then each
/// sub-router's in turn, re-keyed under this router's base prefix.
pub open spec fn spec_flatten<H>(r: Router<H>) -> Seq<(Seq<char>, Method, H)>
    decreases r,
{
    r.routes@ + spec_flatten_subs(r.sub_routers@, r.base@)
}

/// The registrations contributed by a list of sub-routers composed under
/// `base`, in order.
pub open spec fn spec_flatten_subs<H>(subs: Seq<Router<H>>, base: Seq<char>) -> Seq<
    (Seq<char>, Method, H),
>
    decreases subs,
{
    if subs.len() == 0 {
        Seq::empty()
    } else {
        spec_prefix_entries(spec_flatten(subs[0]), base) + spec_flatten_subs(
            subs.drop_first(),
            base,
        )
    }
}

impl<H> Router<H> {
    /// A router with the given base prefix and no registrations.
    pub fn new(base: &str) -> (r: Self)
        ensures
            r.base@ == base@,
            r.routes@ == Seq::<(Seq<char>, Method, H)>::empty(),
            r.sub_routers@ == Seq::<Router<H>>::empty(),
    {
        let r = Router { base: String::from_str(base), routes: Routes::new(), sub_routers: Vec::new() };
        proof {
            assert(r.sub_routers@ =~= Seq::<Router<H>>::empty());
        }
        r
    }

    /// Attach a sub-router, to be composed under this router's base.
    pub fn route(self, sub: Router<H>) -> (r: Self)
        ensures
            r.base == self.base,
            r.routes == self.routes,
            r.sub_routers@ == self.sub_routers@.push(sub),
    {
        let mut s = self;
        s.sub_routers.push(sub);
        s
    }

    /// Register `handler` for `method` under the base prefix composed with
    /// `path`.
    pub fn add(&mut self, method: Method, path: &str, handler: H)
        ensures
            final(self).base == old(self).base,
            final(self).sub_routers == old(self).sub_routers,
            final(self).routes@ == old(self).routes@.push(
                (spec_join_path(old(self).base@, path@), method, handler),
            ),
    {
        let base_t = trim_end_char(self.base.as_str(), '/');
        let path_t = trim_start_char(path, '/');
        let mut full = base_t.to_owned();
        full.append("/");
        full.append(path_t);
        self.routes.insert(full, method, handler);
    }

    /// Register a handler for `GET` requests.
    pub fn get(self, path: &str, handler: H) -> (r: Self)
        ensures
            r.base == self.base,
            r.sub_routers == self.sub_routers,
            r.routes@ == self.routes@.push(
                (spec_join_path(self.base@, path@), Method::Get, handler),
            ),
    {
        let mut s = self;
        s.add(Method::Get, path, handler);
        s
    }

    /// Register a handler for `POST` requests.
    pub fn post(self, path: &str, handler: H) -> (r: Self)
        ensures
            r.base == self.base,
            r.sub_routers == self.sub_routers,
            r.routes@ == self.routes@.push(
                (spec_join_path(self.base@, path@), Method::Post, handler),
            ),
    {
        let mut s = self;
        s.add(Method::Post, path, handler);
        s
    }

    /// Register a handler for `PUT` requests.
    pub fn put(self, path: &str, handler: H) -> (r: Self)
        ensures
            r.base == self.base,
            r.sub_routers == self.sub_routers,
            r.routes@ == self.routes@.push(
                (spec_join_path(self.base@, path@), Method::Put, handler),
            ),
    {
        let mut s = self;
        s.add(Method::Put, path, handler);
        s
    }

    /// Register a handler for `PATCH` requests.
    pub fn patch(self, path: &str, handler: H) -> (r: Self)
        ensures
            r.base == self.base,
            r.sub_routers == self.sub_routers,
            r.routes@ == self.routes@.push(
                (spec_join_path(self.base@, path@), Method::Patch, handler),
            ),
    {
        let mut s = self;
        s.add(Method::Patch, path, handler);
        s
    }

    /// Register a handler for `DELETE` requests.
    pub fn delete(self, path: &str, handler: H) -> (r: Self)
        ensures
            r.base == self.base,
            r.sub_routers == self.sub_routers,
            r.routes@ == self.routes@.push(
                (spec_join_path(self.base@, path@), Method::Delete, handler),
            ),
    {
        let mut s = self;
        s.add(Method::Delete, path, handler);
        s
    }

    /// Collapse this router and all its sub-routers into one route table:
    /// this router's own registrations first, then each sub-router's in
    /// order, re-keyed under this router's base prefix; later
    /// registrations for a pair override earlier ones in the resulting
    /// table.
    #[verifier::loop_isolation(false)]
    pub fn into_routes(self) -> (r: Routes<H>)
        ensures
            r@ == spec_flatten(self),
        decreases self,
    {
        let ghost orig = self;
        let Router { base, routes, sub_routers } = self;
        let mut all = routes;
        let mut subs = sub_routers;
        let ghost mut si: int = 0;
        proof {
            assert(subs@ =~= orig.sub_routers@.skip(0));
        }
        while subs.len() > 0
            invariant
                0 <= si <= orig.sub_routers@.len(),
                subs@ == orig.sub_routers@.skip(si),
                base == orig.base,
                all@ + spec_flatten_subs(orig.sub_routers@.skip(si), orig.base@) == spec_flatten(
                    orig,
                ),
            decreases subs.len(),
        {
            let sub = subs.remove(0);
            proof {
                assert(si < orig.sub_routers@.len());
                assert(sub == orig.sub_routers@.skip(si)[0]);
                assert(sub == orig.sub_routers@[si]);
                assert(subs@ =~= orig.sub_routers@.skip(si).drop_first());
                assert(orig.sub_routers@.skip(si).drop_first() =~= orig.sub_routers@.skip(si + 1));
                assert(decreases_to!(orig => orig.sub_routers));
                assert(decreases_to!(orig.sub_routers => orig.sub_routers@));
                assert(decreases_to!(orig.sub_routers@ => orig.sub_routers@[si]));
                assert(decreases_to!(orig => sub));
            }
            let ghost sub_flat = spec_flatten(sub);
            let sub_table = sub.into_routes();
            let mut es = sub_table.into_entries();
            let ghost all_before = all@;
            let ghost mut j: int = 0;
            proof {
                assert(spec_entry_views(es@) =~= sub_flat.skip(0));
                assert(all@ =~= all_before + spec_prefix_entries(sub_flat.take(0), orig.base@));
            }
            while es.len() > 0
                invariant
                    0 <= j <= sub_flat.len(),
                    spec_entry_views(es@) == sub_flat.skip(j),
                    base == orig.base,
                    all@ == all_before + spec_prefix_entries(sub_flat.take(j), orig.base@),
                decreases es.len(),
            {
                let ghost prev_es = es@;
                let e = es.remove(0);
                proof {
                    assert(spec_entry_views(prev_es)[0] == (prev_es[0].0@, prev_es[0].1,
                    prev_es[0].2));
                    assert(spec_entry_views(prev_es).len() == prev_es.len());
                    assert(j < sub_flat.len());
                    assert((e.0@, e.1, e.2) == sub_flat.skip(j)[0]);
                    assert(sub_flat.skip(j)[0] == sub_flat[j]);
                    assert(es@ =~= prev_es.drop_first());
                    assert(spec_entry_views(es@) =~= sub_flat.skip(j).drop_first());
                    assert(sub_flat.skip(j).drop_first() =~= sub_flat.skip(j + 1));
                }
                let (seg, m, h) = e;
                let base_t = trim_end_char(base.as_str(), '/');
                let seg_t = trim_start_char(seg.as_str(), '/');
                let mut full = base_t.to_owned();
                full.append("/");
                full.append(seg_t);
                let key = trim_end_char(full.as_str(), '/').to_owned();
                proof {
                    assert(key@ == spec_prefix_key(orig.base@, sub_flat[j].0));
                }
                all.insert(key, m, h);
                proof {
                    assert(all@ =~= all_before + spec_prefix_entries(
                        sub_flat.take(j + 1),
                        orig.base@,
                    ));
                }
                proof {
                    j = j + 1;
                }
            }
            proof {
                assert(sub_flat.take(j) =~= sub_flat);
                assert(spec_flatten_subs(orig.sub_routers@.skip(si), orig.base@)
                    == spec_prefix_entries(sub_flat, orig.base@) + spec_flatten_subs(
                    orig.sub_routers@.skip(si + 1),
                    orig.base@,
                ));
                assert(all@ + spec_flatten_subs(orig.sub_routers@.skip(si + 1), orig.base@)
                    =~= spec_flatten(orig));
            }
            proof {
                si = si + 1;
            }
        }
        proof {
            assert(orig.sub_routers@.skip(si) =~= Seq::<Router<H>>::empty());
            assert(all@ =~= spec_flatten(orig));
        }
        all
    }
}

/// The routing key of a request path: its first nonempty `/`-delimited
/// segment, or the literal `/` when the path has none.
pub open spec fn spec_route_key(p: Seq<char>) -> Seq<char>
    decreases p.len(),
{
    if p.len() == 0 {
        "/"@
    } else if p[0] == '/' {
        spec_route_key(p.drop_first())
    } else {
        spec_before_first(p, '/')
    }
}

/// The routing key of a request path: its first nonempty `/`-delimited
/// segment, or the literal `/` when the path has none.
pub fn route_key(path: &str) -> (r: String)
    ensures
        r@ == spec_route_key(path@),
{
    let n = path.unicode_len();
    let ghost pv = path@;
    proof {
        assert(pv.skip(0) =~= pv);
    }
    let mut b: usize = 0;
    while b < n && path.get_char(b) == '/'
        invariant
            b <= n,
            n == pv.len(),
            pv == path@,
            spec_route_key(pv.skip(b as int)) == spec_route_key(pv),
        decreases n - b,
    {
        proof {
            assert(pv.skip(b as int).drop_first() =~= pv.skip(b + 1));
        }
        b = b + 1;
    }
    if b == n {
        proof {
            assert(pv.skip(n as int) =~= Seq::<char>::empty());
        }
        return String::from_str("/");
    }
    let t = match find_char(path, b, '/') {
        Some(e) => {
            proof {
                let tail = pv.skip(b as int);
                assert(forall|k: int| 0 <= k < e - b ==> #[trigger] tail[k] != '/');
                assert(tail[e - b] == '/');
                lemma_first_split(tail, '/', e - b);
                assert(tail.subrange(0, e - b) =~= pv.subrange(b as int, e as int));
            }
            path.substring_char(b, e)
        },
        None => {
            proof {
                let tail = pv.skip(b as int);
                assert(forall|k: int| 0 <= k < tail.len() ==> #[trigger] tail[k] != '/');
                lemma_no_occurrence(tail, '/');
                assert(tail =~= pv.subrange(b as int, n as int));
            }
            path.substring_char(b, n)
        },
    };
    t.to_owned()
}

/// Look up the handler a parsed request dispatches to: the one registered
/// last under the request's routing key and method, or nothing — in which
/// case the caller answers with [`not_found_bytes`].
pub fn dispatch<'a, H>(routes: &'a Routes<H>, req: &Request) -> (r: Option<&'a H>)
    ensures
        match r {
            Some(h) => spec_resolve(routes@, spec_route_key(req.path@), req.method) == Some(*h),
            None => spec_resolve(routes@, spec_route_key(req.path@), req.method) is None,
        },
{
    let key = route_key(req.path.as_str());
    routes.resolve(&key, req.method)
}

/// The exact bytes answering a routing miss: a bare `404 Not Found`
/// status line, no headers, empty body.
pub fn not_found_bytes() -> (r: Vec<u8>)
    ensures
        r@ == encode_utf8("HTTP/1.1 404 Not Found\r\n\r\n"@),
{
    string_into_bytes(String::from_str("HTTP/1.1 404 Not Found\r\n\r\n"))
}

} // verus!
