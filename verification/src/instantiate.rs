//! Initialization: establishes the configuration.

use crate::error::ContractError;
use crate::msg::Env;
use crate::msg::InstantiateMsg;
use crate::msg::MessageInfo;
use crate::response::Event;
use crate::response::EventV;
use crate::response::Response;
use crate::response::ResponseV;
use crate::state::Config;
use crate::state::ConfigV;
use crate::state::State;
use vstd::prelude::*;

verus! {

/// The response of initialization: one event, no asset movement.
pub open spec fn instantiate_response() -> ResponseV {
    ResponseV {
        messages: Seq::empty(),
        events: seq![
            EventV { ty: "OtcWasm.v1.MsgInstantiateContract"@, attributes: Seq::empty() },
        ],
    }
}

/// Establishes the configuration: the owner allowed to change it and the
/// allowed range of deal durations (which must name at least one bound).
pub fn instantiate(state: &mut State, _env: Env, _info: MessageInfo, msg: InstantiateMsg) -> (r:
    Result<Response, ContractError>)
    requires
        old(state).wf(),
        msg.duration_range@.len() > 0,
    ensures
        final(state).wf(),
        final(state)@.config == Some(
            ConfigV { owner: msg.owner@, duration_range: msg.duration_range@ },
        ),
        final(state)@.deals == old(state)@.deals,
        final(state)@.id_count == old(state)@.id_count,
        r matches Ok(resp) && resp@ == instantiate_response(),
{
    state.config = Some(Config { owner: msg.owner, duration_range: msg.duration_range });
    let event = Event::new("OtcWasm.v1.MsgInstantiateContract");
    let ghost ev = event@;
    let r = Response::new().add_event(event);
    proof {
        assert(ev.attributes =~= Seq::<(Seq<char>, Seq<char>)>::empty());
        assert(ev == (EventV {
            ty: "OtcWasm.v1.MsgInstantiateContract"@,
            attributes: Seq::<(Seq<char>, Seq<char>)>::empty(),
        }));
        assert(r@.events =~= seq![ev]);
        assert(r@ == instantiate_response()) by {
            assert(instantiate_response().messages =~= r@.messages);
            assert(instantiate_response().events =~= r@.events);
        }
    }
    Ok(r)
}

} // verus!
