//! Capability handlers: a name that claims a prefix of the path, a prerouting
//! test, dispatch by verb, and a hook on the outgoing result.
use vstd::prelude::*;
use crate::request::{Method, Request};
use crate::response::{method_not_allowed, is_error, ApiResult, NOT_SUPPORTED, STATUS_METHOD_NOT_ALLOWED};

verus! {

/// The outcome of a prerouting test. Either variant hands the request back.
#[derive(Debug)]
pub enum RouteHint {
    /// The handler claims the request; its name has been routed off the path.
    CallMe(Request),
    /// The handler does not claim the request, which comes back unchanged.
    NotMe(Request),
}

/// The name of a handler: the path segments it answers under.
pub type ApiName = &'static [&'static str];

/// Names of other handlers that a handler expects to be registered.
pub type ApiDependencies = &'static [&'static [&'static str]];

/// The characters of each segment of a name.
pub open spec fn name_view(name: Seq<&'static str>) -> Seq<Seq<char>> {
    name.map_values(|s: &'static str| s@)
}

/// The path starts with the name.
pub open spec fn has_prefix(path: Seq<Seq<char>>, name: Seq<Seq<char>>) -> bool {
    &&& name.len() <= path.len()
    &&& path.take(name.len() as int) == name
}

/// What a handler hands back from prerouting: `NotMe` with the very request
/// it got, or `CallMe` with the same request and a shorter path.
pub open spec fn valid_hint(req: Request, hint: RouteHint) -> bool {
    match hint {
        RouteHint::NotMe(r) => r == req,
        RouteHint::CallMe(r) => {
            &&& r.same_but_path(req)
            &&& r.path().len() <= req.path().len()
            &&& r.path() == req.path().skip(req.path().len() - r.path().len())
        },
    }
}

/// The path of `req` starts with `name`.
fn is_about(req: &Request, name: &[&str]) -> (r: bool)
    ensures
        r == has_prefix(req.path(), name_view(name@)),
{
    let path = req.path_segs();
    if name.len() > path.len() {
        return false;
    }
    let mut i: usize = 0;
    while i < name.len()
        invariant
            name@.len() <= path@.len(),
            segs_view_eq(path@, req.path()),
            0 <= i <= name@.len(),
            forall|j: int| 0 <= j < i ==> path@[j]@ == name@[j]@,
        decreases name@.len() - i,
    {
        if path[i] != name[i].to_owned() {
            proof {
                assert(req.path()[i as int] == path@[i as int]@);
                assert(req.path().take(name@.len() as int)[i as int] != name_view(name@)[i as int]);
            }
            return false;
        }
        i = i + 1;
    }
    proof {
        assert(req.path().take(name@.len() as int) =~= name_view(name@));
    }
    true
}

/// The views of `segs` make up `path`.
pub open spec fn segs_view_eq(segs: Seq<String>, path: Seq<Seq<char>>) -> bool {
    &&& segs.len() == path.len()
    &&& forall|j: int| 0 <= j < segs.len() ==> #[trigger] segs[j]@ == path[j]
}

/// Prerouting by name: the request is claimed exactly when its path starts
/// with `name`, and then the name is routed off the path. A request that is not
/// claimed comes back untouched, even when only a part of the name matched.
pub fn preroute_by_name(name: &[&str], req: Request) -> (r: RouteHint)
    ensures
        valid_hint(req, r),
        r is CallMe <==> has_prefix(req.path(), name_view(name@)),
        r is CallMe ==> r->CallMe_0.path() == req.path().skip(name@.len() as int),
{
    if !is_about(&req, name) {
        return RouteHint::NotMe(req);
    }
    let ghost orig = req;
    let mut req = req;
    let mut i: usize = 0;
    while i < name.len()
        invariant
            0 <= i <= name@.len(),
            has_prefix(orig.path(), name_view(name@)),
            req.same_but_path(orig),
            req.path() == orig.path().skip(i as int),
        decreases name@.len() - i,
    {
        proof {
            assert(orig.path().take(name@.len() as int)[i as int] == name_view(name@)[i as int]);
        }
        req.route_seg(Some(name[i]));
        proof {
            assert(req.path() =~= orig.path().skip(i + 1));
        }
        i = i + 1;
    }
    RouteHint::CallMe(req)
}

/// A one-segment name `[n]` claims exactly the paths whose first segment is
/// `n`, and a claimed path loses exactly that one segment.
pub proof fn lemma_single_segment_name(path: Seq<Seq<char>>, n: Seq<char>)
    ensures
        has_prefix(path, seq![n]) <==> (path.len() > 0 && path[0] == n),
        has_prefix(path, seq![n]) ==> path.skip(1) == path.drop_first(),
{
    if path.len() > 0 && path[0] == n {
        assert(path.take(1) =~= seq![n]);
        assert(path.skip(1) =~= path.drop_first());
    }
    if has_prefix(path, seq![n]) {
        assert(path.take(1)[0] == path[0]);
    }
}

/// A two-segment name `[n1, n2]` does not claim the path `[n1, x]` when
/// `x` differs from `n2`; prerouting then hands the request back whole.
pub proof fn lemma_partial_match_not_claimed(n1: Seq<char>, n2: Seq<char>, x: Seq<char>)
    requires
        x != n2,
    ensures
        !has_prefix(seq![n1, x], seq![n1, n2]),
{
    let path = seq![n1, x];
    if has_prefix(path, seq![n1, n2]) {
        assert(path.take(2)[1] == seq![n1, n2][1]);
    }
}

/// The verbs that a handler has a method for.
pub open spec fn is_routed_verb(m: Method) -> bool {
    m is Get || m is Put || m is Post || m is Patch || m is Delete
}

/// A routable unit. Implementors give a name and override the verbs they
/// serve; every other method has a default.
///
/// The `spec` hooks let a verified implementor say which defaults it keeps:
/// the contracts of the default methods hold under them.
pub trait Api {
    /// The name, segment by segment. An implementor whose `name` is
    /// verified states it here; the default is the empty name.
    open spec fn spec_name(&self) -> Seq<Seq<char>> {
        Seq::empty()
    }

    /// `route` dispatches by verb, as the default does.
    open spec fn dispatches_by_verb(&self) -> bool {
        true
    }

    /// `postroute` passes the result through, as the default does.
    open spec fn passes_through(&self) -> bool {
        true
    }

    /// The handler overrides `get`.
    open spec fn serves_get(&self) -> bool {
        false
    }

    /// The handler overrides `put`.
    open spec fn serves_put(&self) -> bool {
        false
    }

    /// The handler overrides `post`.
    open spec fn serves_post(&self) -> bool {
        false
    }

    /// The handler overrides `patch`.
    open spec fn serves_patch(&self) -> bool {
        false
    }

    /// The handler overrides `delete`.
    open spec fn serves_delete(&self) -> bool {
        false
    }

    /// The name: it identifies the handler and routes by path prefix.
    fn name(&self) -> (r: ApiName)
        ensures
            name_view(r@) == self.spec_name(),
    ;

    /// Names of handlers that this one expects beside it. None by default.
    fn dependencies(&self) -> ApiDependencies {
        &[]
    }

    /// Tests whether the request is for this handler: it is when the path
    /// starts with the name, which is then routed off the path. An override
    /// may do more work on a claimed request, but claims the same requests
    /// and leaves their verb, headers and body alone.
    fn preroute(&self, req: Request) -> (r: RouteHint)
        ensures
            r is NotMe ==> r->NotMe_0 == req,
            r is CallMe <==> has_prefix(req.path(), self.spec_name()),
            r is CallMe ==> r->CallMe_0.path() == req.path().skip(self.spec_name().len() as int),
            r is CallMe ==> r->CallMe_0.same_but_path(req),
    {
        preroute_by_name(self.name(), req)
    }

    /// Hands the request, unchanged, to the method for its verb and returns
    /// what that method returns. Any other verb is refused with "not
    /// supported".
    fn route(&self, req: Request) -> (r: ApiResult)
        ensures
            self.dispatches_by_verb() ==> {
                let m = req.spec_method();
                &&& m is Get ==> call_ensures(Self::get, (self, req), r)
                &&& m is Put ==> call_ensures(Self::put, (self, req), r)
                &&& m is Post ==> call_ensures(Self::post, (self, req), r)
                &&& m is Patch ==> call_ensures(Self::patch, (self, req), r)
                &&& m is Delete ==> call_ensures(Self::delete, (self, req), r)
                &&& !is_routed_verb(m) ==> is_error(r, STATUS_METHOD_NOT_ALLOWED, NOT_SUPPORTED)
            },
    {
        match req.method() {
            Method::Get => self.get(req),
            Method::Delete => self.delete(req),
            Method::Patch => self.patch(req),
            Method::Post => self.post(req),
            Method::Put => self.put(req),
            _ => method_not_allowed(),
        }
    }

    /// Works on the outgoing result. By default it passes it through.
    fn postroute(&self, res: ApiResult) -> (r: ApiResult)
        ensures
            self.passes_through() ==> r == res,
    {
        res
    }

    /// Serves DELETE. By default the verb is refused with "not supported".
    fn delete(&self, _req: Request) -> (r: ApiResult)
        ensures
            !self.serves_delete() ==> is_error(r, STATUS_METHOD_NOT_ALLOWED, NOT_SUPPORTED),
    {
        method_not_allowed()
    }

    /// Serves GET. By default the verb is refused with "not supported".
    fn get(&self, _req: Request) -> (r: ApiResult)
        ensures
            !self.serves_get() ==> is_error(r, STATUS_METHOD_NOT_ALLOWED, NOT_SUPPORTED),
    {
        method_not_allowed()
    }

    /// Serves PATCH. By default the verb is refused with "not supported".
    fn patch(&self, _req: Request) -> (r: ApiResult)
        ensures
            !self.serves_patch() ==> is_error(r, STATUS_METHOD_NOT_ALLOWED, NOT_SUPPORTED),
    {
        method_not_allowed()
    }

    /// Serves POST. By default the verb is refused with "not supported".
    fn post(&self, _req: Request) -> (r: ApiResult)
        ensures
            !self.serves_post() ==> is_error(r, STATUS_METHOD_NOT_ALLOWED, NOT_SUPPORTED),
    {
        method_not_allowed()
    }

    /// Serves PUT. By default the verb is refused with "not supported".
    fn put(&self, _req: Request) -> (r: ApiResult)
        ensures
            !self.serves_put() ==> is_error(r, STATUS_METHOD_NOT_ALLOWED, NOT_SUPPORTED),
    {
        method_not_allowed()
    }
}

} // verus!
