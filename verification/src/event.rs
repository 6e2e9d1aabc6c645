//! The structured event a successful invocation emits, summarizing who paid
//! whom and how much. Emission is fire-and-forget observability: the engine
//! builds the record, the host sink logs it.

use vstd::prelude::*;
use crate::account::AccountId;
use crate::account::ids_of;

verus! {

/// One record per successful disbursement, order-correlated: destination `i`
/// received amount `i`.
#[derive(Debug)]
pub enum Event {
    LamportsSplitted {
        source_account: AccountId,
        destination_accounts: Vec<AccountId>,
        amounts: Vec<u64>,
    },
    SplTokensSplittedFromSignleMint {
        operator: AccountId,
        source_account: AccountId,
        destination_accounts: Vec<AccountId>,
        amounts: Vec<u64>,
    },
    SplTokensSplittedFromMultipleMints {
        operator: AccountId,
        source_accounts: Vec<AccountId>,
        destination_accounts: Vec<AccountId>,
        amounts: Vec<u64>,
    },
}

/// The mathematical shape of an event: account identities and amounts.
pub enum EventModel {
    LamportsSplitted {
        source_account: Seq<u8>,
        destination_accounts: Seq<Seq<u8>>,
        amounts: Seq<u64>,
    },
    SplTokensSplittedFromSignleMint {
        operator: Seq<u8>,
        source_account: Seq<u8>,
        destination_accounts: Seq<Seq<u8>>,
        amounts: Seq<u64>,
    },
    SplTokensSplittedFromMultipleMints {
        operator: Seq<u8>,
        source_accounts: Seq<Seq<u8>>,
        destination_accounts: Seq<Seq<u8>>,
        amounts: Seq<u64>,
    },
}

impl View for Event {
    type V = EventModel;

    open spec fn view(&self) -> EventModel {
        match self {
            Event::LamportsSplitted { source_account, destination_accounts, amounts } => {
                EventModel::LamportsSplitted {
                    source_account: source_account@,
                    destination_accounts: ids_of(destination_accounts@),
                    amounts: amounts@,
                }
            },
            Event::SplTokensSplittedFromSignleMint {
                operator,
                source_account,
                destination_accounts,
                amounts,
            } => {
                EventModel::SplTokensSplittedFromSignleMint {
                    operator: operator@,
                    source_account: source_account@,
                    destination_accounts: ids_of(destination_accounts@),
                    amounts: amounts@,
                }
            },
            Event::SplTokensSplittedFromMultipleMints {
                operator,
                source_accounts,
                destination_accounts,
                amounts,
            } => {
                EventModel::SplTokensSplittedFromMultipleMints {
                    operator: operator@,
                    source_accounts: ids_of(source_accounts@),
                    destination_accounts: ids_of(destination_accounts@),
                    amounts: amounts@,
                }
            },
        }
    }
}

} // verus!
