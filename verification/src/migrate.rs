//! Migration: nothing is migrated; only an event is emitted.

use crate::error::ContractError;
use crate::msg::Env;
use crate::msg::MigrateMsg;
use crate::response::Event;
use crate::response::EventV;
use crate::response::Response;
use crate::response::ResponseV;
use crate::state::State;
use vstd::prelude::*;

verus! {

/// The response of a migration: one event, no asset movement.
pub open spec fn migrate_response() -> ResponseV {
    ResponseV {
        messages: Seq::empty(),
        events: seq![EventV { ty: "OtcWasm.v1.MsgMigrateContract"@, attributes: Seq::empty() }],
    }
}

/// Migrates the contract; the state carries over unchanged.
pub fn migrate(state: &mut State, _env: Env, _msg: MigrateMsg) -> (r: Result<
    Response,
    ContractError,
>)
    ensures
        *final(state) == *old(state),
        r matches Ok(resp) && resp@ == migrate_response(),
{
    let event = Event::new("OtcWasm.v1.MsgMigrateContract");
    let ghost ev = event@;
    let r = Response::new().add_event(event);
    proof {
        assert(ev.attributes =~= Seq::<(Seq<char>, Seq<char>)>::empty());
        assert(ev == (EventV {
            ty: "OtcWasm.v1.MsgMigrateContract"@,
            attributes: Seq::<(Seq<char>, Seq<char>)>::empty(),
        }));
        assert(r@.events =~= seq![ev]);
        assert(r@ == migrate_response()) by {
            assert(migrate_response().messages =~= r@.messages);
            assert(migrate_response().events =~= r@.events);
        }
    }
    Ok(r)
}

} // verus!
