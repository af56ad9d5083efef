//! What a successful lifecycle command returns: asset-transfer
//! instructions and structured events.

use crate::state::Coin;
use crate::state::CoinV;
use crate::state::coins_view;
use vstd::prelude::*;

verus! {

/// An instruction to the host bank module to send coins to an address.
#[derive(Debug)]
pub enum BankMsg {
    Send { to_address: String, amount: Vec<Coin> },
}

/// Mathematical value of a [`BankMsg`].
pub enum BankMsgV {
    Send { to_address: Seq<char>, amount: Seq<CoinV> },
}

impl View for BankMsg {
    type V = BankMsgV;

    open spec fn view(&self) -> BankMsgV {
        match self {
            BankMsg::Send { to_address, amount } => BankMsgV::Send {
                to_address: to_address@,
                amount: coins_view(amount@),
            },
        }
    }
}

/// One key/value attribute of an event.
#[derive(Debug)]
pub struct Attribute {
    pub key: String,
    pub value: String,
}

impl View for Attribute {
    type V = (Seq<char>, Seq<char>);

    open spec fn view(&self) -> (Seq<char>, Seq<char>) {
        (self.key@, self.value@)
    }
}

/// The mathematical values of a sequence of attributes.
pub open spec fn attrs_view(s: Seq<Attribute>) -> Seq<(Seq<char>, Seq<char>)> {
    s.map_values(|a: Attribute| a@)
}

/// A structured event emitted by a lifecycle command.
#[derive(Debug)]
pub struct Event {
    pub ty: String,
    pub attributes: Vec<Attribute>,
}

/// Mathematical value of an [`Event`].
pub struct EventV {
    pub ty: Seq<char>,
    pub attributes: Seq<(Seq<char>, Seq<char>)>,
}

impl View for Event {
    type V = EventV;

    open spec fn view(&self) -> EventV {
        EventV { ty: self.ty@, attributes: attrs_view(self.attributes@) }
    }
}

impl Event {
    /// An event of the given type with no attributes yet.
    pub fn new(ty: &str) -> (r: Event)
        ensures
            r@.ty == ty@,
            r@.attributes.len() == 0,
    {
        let r = Event { ty: ty.to_owned(), attributes: Vec::new() };
        proof {
            assert(attrs_view(r.attributes@) =~= Seq::<(Seq<char>, Seq<char>)>::empty());
        }
        r
    }

    /// The event extended by one attribute.
    pub fn add_attribute(self, key: &str, value: String) -> (r: Event)
        ensures
            r@.ty == self@.ty,
            r@.attributes == self@.attributes.push((key@, value@)),
    {
        let ghost a0 = attrs_view(self.attributes@);
        let mut attributes = self.attributes;
        attributes.push(Attribute { key: key.to_owned(), value });
        proof {
            assert(attrs_view(attributes@) =~= a0.push((key@, attributes@.last().value@)));
        }
        Event { ty: self.ty, attributes }
    }
}

/// The messages sequence of a sequence of bank instructions.
pub open spec fn msgs_view(s: Seq<BankMsg>) -> Seq<BankMsgV> {
    s.map_values(|m: BankMsg| m@)
}

/// The events sequence of a sequence of events.
pub open spec fn events_view(s: Seq<Event>) -> Seq<EventV> {
    s.map_values(|e: Event| e@)
}

/// What a successful lifecycle command returns: zero or more
/// asset-transfer instructions and the events it emitted.
#[derive(Debug)]
pub struct Response {
    pub messages: Vec<BankMsg>,
    pub events: Vec<Event>,
}

/// Mathematical value of a [`Response`].
pub struct ResponseV {
    pub messages: Seq<BankMsgV>,
    pub events: Seq<EventV>,
}

impl View for Response {
    type V = ResponseV;

    open spec fn view(&self) -> ResponseV {
        ResponseV { messages: msgs_view(self.messages@), events: events_view(self.events@) }
    }
}

impl Response {
    /// An empty response.
    pub fn new() -> (r: Response)
        ensures
            r@.messages.len() == 0,
            r@.events.len() == 0,
    {
        let r = Response { messages: Vec::new(), events: Vec::new() };
        proof {
            assert(msgs_view(r.messages@) =~= Seq::<BankMsgV>::empty());
            assert(events_view(r.events@) =~= Seq::<EventV>::empty());
        }
        r
    }

    /// The response extended by one event.
    pub fn add_event(self, event: Event) -> (r: Response)
        ensures
            r@.messages == self@.messages,
            r@.events == self@.events.push(event@),
    {
        let ghost e0 = events_view(self.events@);
        let ghost ev = event@;
        let mut events = self.events;
        events.push(event);
        proof {
            assert(events_view(events@) =~= e0.push(ev));
        }
        Response { messages: self.messages, events }
    }

    /// The response extended by one asset-transfer instruction.
    pub fn add_message(self, msg: BankMsg) -> (r: Response)
        ensures
            r@.events == self@.events,
            r@.messages == self@.messages.push(msg@),
    {
        let ghost m0 = msgs_view(self.messages@);
        let ghost mv = msg@;
        let mut messages = self.messages;
        messages.push(msg);
        proof {
            assert(msgs_view(messages@) =~= m0.push(mv));
        }
        Response { messages, events: self.events }
    }
}

/// The decimal digit characters of a natural number, most significant
/// first.
pub open spec fn dec_digits(n: nat) -> Seq<char>
    decreases n,
{
    if n < 10 {
        seq![dec_digit_char(n)]
    } else {
        dec_digits(n / 10).push(dec_digit_char(n % 10))
    }
}

/// The character of one decimal digit.
pub open spec fn dec_digit_char(d: nat) -> char {
    if d == 0 {
        '0'
    } else if d == 1 {
        '1'
    } else if d == 2 {
        '2'
    } else if d == 3 {
        '3'
    } else if d == 4 {
        '4'
    } else if d == 5 {
        '5'
    } else if d == 6 {
        '6'
    } else if d == 7 {
        '7'
    } else if d == 8 {
        '8'
    } else {
        '9'
    }
}

/// Relies on u64::to_string (std): renders the number in decimal, most
/// significant digit first, with no sign, separators or leading zeroes.
#[verifier::external_body]
pub(crate) fn u64_to_string(n: u64) -> (r: String)
    ensures
        r@ == dec_digits(n as nat),
{
    n.to_string()
}

} // verus!
