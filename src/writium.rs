//! The root of a handler tree.
use vstd::prelude::*;
use crate::api::Api;
use crate::namespace::{served_by_first_claimant, Namespace};
use crate::request::Request;
use crate::response::{is_error, Response, WritiumError, too_many_follow_ups, ApiResult, STATUS_LOOP_DETECTED, TOO_MANY_FOLLOW_UPS};

verus! {

/// The most follow-up calls that one request may lead to.
pub const MAX_FOLLOW_UPS: usize = 32;

/// The result of routing has no follow-up call left to make.
pub open spec fn is_final(r: ApiResult) -> bool {
    r is Err || r->Ok_0.spec_follow_up() is None
}

/// What routing `req` with the handlers `apis` and at most `budget`
/// follow-up calls gives: the first result when it asks for no follow-up
/// call; otherwise what the follow-up call gives in turn, or "too many
/// follow-up calls" when none are left.
pub open spec fn chained<A: Api + ?Sized>(apis: Seq<Box<A>>, req: Request, budget: nat, r: ApiResult) -> bool
    decreases budget,
{
    exists|first: ApiResult| {
        &&& #[trigger] served_by_first_claimant(apis, req, first)
        &&& is_final(first) ==> r == first
        &&& !is_final(first) ==> if budget == 0 {
            is_error(r, STATUS_LOOP_DETECTED, TOO_MANY_FOLLOW_UPS)
        } else {
            chained(apis, first->Ok_0.spec_follow_up()->0, (budget - 1) as nat, r)
        }
    }
}

/// The root router: an unnamed namespace that handlers are bound into
/// before serving starts. Bind `Box<dyn Api>` values into a
/// `Writium<dyn Api>` to mix handlers of different types.
pub struct Writium<A: ?Sized> {
    ns: Namespace<A>,
}

impl<A: Api + ?Sized> Writium<A> {
    /// The handlers bound so far, in bind order.
    pub closed spec fn spec_apis(&self) -> Seq<Box<A>> {
        self.ns.spec_apis()
    }

    /// A root with no handlers.
    pub fn new() -> (r: Writium<A>)
        ensures
            r.spec_apis().len() == 0,
    {
        Writium { ns: Namespace::new(&[]) }
    }

    /// Binds a handler after all that are bound already.
    pub fn bind(&mut self, api: Box<A>)
        ensures
            final(self).spec_apis() == old(self).spec_apis().push(api),
    {
        self.ns.push(api);
    }

    /// Serves the request with the first bound handler that claims its
    /// path; when none does, the result is "api not found". A response
    /// that asks for a follow-up call is replaced by the result of routing
    /// that call; after
    /// `MAX_FOLLOW_UPS` such calls the chain ends with "too many follow-up
    /// calls".
    pub fn route(&self, req: Request) -> (r: ApiResult)
        ensures
            chained(self.spec_apis(), req, MAX_FOLLOW_UPS as nat, r),
    {
        self.route_chain(req, MAX_FOLLOW_UPS)
    }

    /// `route` with at most `budget` follow-up calls left.
    fn route_chain(&self, req: Request, budget: usize) -> (r: ApiResult)
        ensures
            chained(self.spec_apis(), req, budget as nat, r),
        decreases budget,
    {
        let ghost req0 = req;
        let first = self.ns.route(req);
        proof {
            assert(served_by_first_claimant(self.spec_apis(), req0, first));
        }
        let mut res = match first {
            Err(e) => return Err(e),
            Ok(res) => res,
        };
        let ghost before = res;
        let call = match res.take_follow_up() {
            None => return Ok(res),
            Some(call) => call,
        };
        if budget == 0 {
            return too_many_follow_ups();
        }
        let r = self.route_chain(call, budget - 1);
        proof {
            assert(before.spec_follow_up() == Some(call));
            assert(served_by_first_claimant(self.spec_apis(), req0, Ok::<Response, WritiumError>(before)));
        }
        r
    }
}

} // verus!
