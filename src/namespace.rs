//! A composite router: handlers bound in order, offered each request in that
//! order; the first that claims it serves it.
use vstd::prelude::*;
use crate::api::{has_prefix, name_view, Api, ApiName, RouteHint};
use crate::request::Request;
use crate::response::{api_not_found, is_error, ApiResult, API_NOT_FOUND, STATUS_NOT_FOUND};

verus! {

/// The index of the first handler in `apis` whose name prefixes `path`, if any.
pub open spec fn first_claimant<A: Api + ?Sized>(apis: Seq<Box<A>>, path: Seq<Seq<char>>) -> Option<int> {
    if exists|i: int| 0 <= i < apis.len() && has_prefix(path, #[trigger] apis[i].spec_name()) {
        Some(choose|i: int|
            0 <= i < apis.len() && has_prefix(path, #[trigger] apis[i].spec_name())
            && forall|j: int| 0 <= j < i ==> !has_prefix(path, #[trigger] apis[j].spec_name()))
    } else {
        None
    }
}

/// What serving `req` with the handlers `apis` gives: "api not found" when
/// none claims it; otherwise what the first claimant's `route` returns for
/// the request with that handler's name routed off.
pub open spec fn served_by_first_claimant<A: Api + ?Sized>(apis: Seq<Box<A>>, req: Request, r: ApiResult) -> bool {
    match first_claimant(apis, req.path()) {
        None => is_error(r, STATUS_NOT_FOUND, API_NOT_FOUND),
        Some(i) => exists|rest: Request| {
            &&& rest.path() == req.path().skip(apis[i].spec_name().len() as int)
            &&& rest.same_but_path(req)
            &&& #[trigger] call_ensures(A::route, (&*apis[i], rest), r)
        },
    }
}

/// When two handlers both claim a path, the one bound first serves it, so
/// binding them in the other order changes which one does.
pub proof fn lemma_bind_order_decides<A: Api + ?Sized>(h1: Box<A>, h2: Box<A>, path: Seq<Seq<char>>)
    requires
        has_prefix(path, h1.spec_name()),
        has_prefix(path, h2.spec_name()),
    ensures
        first_claimant(seq![h1, h2], path) == Some(0int),
        first_claimant(seq![h2, h1], path) == Some(0int),
{
    let s1 = seq![h1, h2];
    let s2 = seq![h2, h1];
    assert(has_prefix(path, s1[0].spec_name()));
    assert(has_prefix(path, s2[0].spec_name()));
    let k1 = first_claimant(s1, path)->0;
    let k2 = first_claimant(s2, path)->0;
    if k1 > 0 {
        assert(!has_prefix(path, s1[0].spec_name()));
    }
    if k2 > 0 {
        assert(!has_prefix(path, s2[0].spec_name()));
    }
}

/// Handlers bound under a common name. Sub-handlers do not see the
/// namespace's own name in the path: its `preroute` has routed it off.
///
/// The handlers are boxed, so a `Namespace<dyn Api>` holds handlers of any
/// types; a `Namespace<H>` holds handlers of the one type `H`.
pub struct Namespace<A: ?Sized> {
    name: ApiName,
    apis: Vec<Box<A>>,
}

impl<A: Api + ?Sized> Namespace<A> {
    /// The bound handlers, in bind order.
    pub closed spec fn spec_apis(&self) -> Seq<Box<A>> {
        self.apis@
    }

    /// An empty namespace with the given name.
    pub fn new(name: ApiName) -> (r: Namespace<A>)
        ensures
            r.spec_name() == name_view(name@),
            r.spec_apis().len() == 0,
    {
        Namespace { name, apis: Vec::new() }
    }

    /// Binds one more handler, after all that are bound already: it is
    /// offered requests after them.
    pub fn bind(self, api: Box<A>) -> (r: Namespace<A>)
        ensures
            r.spec_name() == self.spec_name(),
            r.spec_apis() == self.spec_apis().push(api),
    {
        let mut apis = self.apis;
        apis.push(api);
        Namespace { name: self.name, apis }
    }

    /// `bind` on a namespace held in place.
    pub(crate) fn push(&mut self, api: Box<A>)
        ensures
            final(self).spec_name() == old(self).spec_name(),
            final(self).spec_apis() == old(self).spec_apis().push(api),
    {
        self.apis.push(api);
    }

    /// Offers the request to each handler in bind order and stops at the
    /// first that claims it. Gives its index and the request as it handed it
    /// back, or, when none claims it, the request unchanged.
    pub fn select(&self, req: Request) -> (r: Result<(usize, Request), Request>)
        ensures
            first_claimant(self.spec_apis(), req.path()) is None ==> r == Err::<(usize, Request), Request>(req),
            first_claimant(self.spec_apis(), req.path()) is Some ==> {
                let i = first_claimant(self.spec_apis(), req.path())->0;
                &&& r is Ok
                &&& r->Ok_0.0 == i
                &&& r->Ok_0.1.path() == req.path().skip(self.spec_apis()[i].spec_name().len() as int)
                &&& r->Ok_0.1.same_but_path(req)
            },
            r is Ok ==> r->Ok_0.0 < self.spec_apis().len(),
    {
        let ghost orig = req;
        let mut cur = req;
        let mut i: usize = 0;
        while i < self.apis.len()
            invariant
                cur == orig,
                orig == req,
                0 <= i <= self.apis@.len(),
                forall|j: int| 0 <= j < i ==> !has_prefix(orig.path(), #[trigger] self.apis@[j].spec_name()),
            decreases self.apis@.len() - i,
        {
            match self.apis[i].preroute(cur) {
                RouteHint::CallMe(rest) => {
                    proof {
                        let apis = self.apis@;
                        let p = orig.path();
                        let ii = i as int;
                        assert(0 <= ii < apis.len() && has_prefix(p, apis[ii].spec_name())
                            && forall|j: int| 0 <= j < ii ==> !has_prefix(p, #[trigger] apis[j].spec_name()));
                        let k = first_claimant(apis, p)->0;
                        assert(0 <= k < apis.len() && has_prefix(p, apis[k].spec_name())
                            && forall|j: int| 0 <= j < k ==> !has_prefix(p, #[trigger] apis[j].spec_name()));
                        if k < i {
                            assert(!has_prefix(p, apis[k].spec_name()));
                        } else if k > i {
                            assert(!has_prefix(p, apis[i as int].spec_name()));
                        }
                    }
                    return Ok((i, rest));
                },
                RouteHint::NotMe(back) => {
                    cur = back;
                },
            }
            i = i + 1;
        }
        Err(cur)
    }
}

impl<A: Api + ?Sized> Api for Namespace<A> {
    closed spec fn spec_name(&self) -> Seq<Seq<char>> {
        name_view(self.name@)
    }

    /// A namespace routes by path to its handlers, not by verb.
    open spec fn dispatches_by_verb(&self) -> bool {
        false
    }

    fn name(&self) -> (r: ApiName) {
        self.name
    }

    /// Serves the request with the first bound handler that claims it; the
    /// ones after it are not consulted, and its result is returned whatever
    /// it is. When none claims it, the result is "api not found".
    fn route(&self, req: Request) -> (r: ApiResult)
        ensures
            served_by_first_claimant(self.spec_apis(), req, r),
    {
        match self.select(req) {
            Ok((i, rest)) => {
                let res = self.apis[i].route(rest);
                let r = self.postroute(res);
                proof {
                    assert(call_ensures(A::route, (&*self.spec_apis()[i as int], rest), r));
                }
                r
            },
            Err(_) => api_not_found(),
        }
    }
}

} // verus!
