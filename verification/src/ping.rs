//! The service with which a core finds out whether the extension is there.

use vstd::prelude::*;
use crate::service::{
    calls, completed, handlers, only, register_service, replies_view, send_complete, with_subs,
    HandlerView, Method, RespProps, Svc, SvcSpec,
};
use crate::text::strings;

verus! {

pub const SVCNAME: &'static str = "com.roonlabs.ping:1";

/// The answers of the extension to a core that asks whether it is there.
#[derive(Clone, Copy, Debug, PartialEq, Eq, Structural)]
pub struct Ping;

impl Ping {
    /// The service.
    pub fn create() -> (r: Svc)
        ensures
            r.name@ == SVCNAME@,
            r.sub_types@ == Map::<Seq<char>, usize>::empty(),
            handlers(r.methods@) == Map::<Seq<char>, HandlerView>::empty().insert(
                "ping"@,
                HandlerView::Call(Method::Ping),
            ),
            strings(r.sub_names@) == Seq::<Seq<char>>::empty(),
            r.wf(),
    {
        let mut spec = SvcSpec::new(SVCNAME);
        spec.add_method("ping", Method::Ping);
        let ghost methods = spec.methods@;
        let svc = register_service(spec);
        proof {
            reveal_with_fuel(with_subs, 1);
            assert(calls(methods) =~= Map::empty().insert(
                "ping"@,
                HandlerView::Call(Method::Ping),
            ));
            assert(strings(svc.sub_names@) =~= Seq::<Seq<char>>::empty());
        }
        svc
    }

    /// The answer.
    pub fn ping() -> (r: Vec<RespProps>)
        ensures
            replies_view(r@) == seq![completed("Success"@, None)],
    {
        only(send_complete("Success", None))
    }
}

} // verus!
