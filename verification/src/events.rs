use vstd::prelude::*;

verus! {

/// The kinds of mutation that are reported to the outside.
#[derive(Clone, Copy, Debug, PartialEq, Eq, Structural)]
pub enum EventKind {
    /// Value was created in an account.
    Mint,
    /// Value was destroyed.
    Burn,
    /// Value was committed to a counterparty.
    Deposit,
    /// Committed value came back from a counterparty.
    Withdraw,
}

/// An event as a mathematical value.
pub struct EventModel {
    pub kind: EventKind,
    pub owner_id: Seq<char>,
    pub amount: u128,
    pub contract_id: Seq<char>,
}

/// The report of one mutation: the acting account, the amount and the scope.
/// An operation hands it out only once the mutation stands.
#[derive(Debug, PartialEq, Eq)]
pub struct Event {
    pub kind: EventKind,
    pub owner_id: String,
    pub amount: u128,
    pub contract_id: String,
}

impl View for Event {
    type V = EventModel;

    open spec fn view(&self) -> EventModel {
        EventModel {
            kind: self.kind,
            owner_id: self.owner_id@,
            amount: self.amount,
            contract_id: self.contract_id@,
        }
    }
}

impl Event {
    /// The report of a mutation of `kind` by `owner_id` under `contract_id`.
    pub fn new(kind: EventKind, owner_id: &String, amount: u128, contract_id: &String) -> (event:
        Event)
        ensures
            event@ == (EventModel {
                kind,
                owner_id: owner_id@,
                amount,
                contract_id: contract_id@,
            }),
    {
        Event { kind, owner_id: owner_id.clone(), amount, contract_id: contract_id.clone() }
    }
}

} // verus!
