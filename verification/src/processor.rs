//! The disbursement engine. Each operation partitions the positional
//! account list into control accounts and per-destination (and possibly
//! per-source) accounts, validates the arithmetic on the list's length, and
//! plans one delegated transfer per amount, in the order the amounts were
//! supplied, together with the event a successful invocation emits. The
//! host performs the planned transfers through the external ledger
//! capability and aborts the whole invocation if any single one fails.

use vstd::prelude::*;
use crate::account::AccountId;
use crate::account::ids_of;
use crate::error::SplitterError;
use crate::event::Event;
use crate::event::EventModel;
use crate::instruction::InstructionView;
use crate::instruction::SplitterInstruction;
use crate::instruction::spec_unpack;

verus! {

/// One delegated transfer the engine asks the external ledger to make.
#[derive(Debug, Clone, Copy)]
pub enum TransferRequest {
    /// Move native balance from `source` to `destination`, authorized by
    /// the source's own signer capability.
    Native { source: AccountId, destination: AccountId, amount: u64 },
    /// Move token balance from `source` to `destination` through the token
    /// ledger capability `token_program`, authorized by `authority`.
    Token {
        token_program: AccountId,
        source: AccountId,
        destination: AccountId,
        authority: AccountId,
        amount: u64,
    },
}

/// The mathematical shape of a transfer request.
pub enum TransferModel {
    Native { source: Seq<u8>, destination: Seq<u8>, amount: u64 },
    Token {
        token_program: Seq<u8>,
        source: Seq<u8>,
        destination: Seq<u8>,
        authority: Seq<u8>,
        amount: u64,
    },
}

impl View for TransferRequest {
    type V = TransferModel;

    open spec fn view(&self) -> TransferModel {
        match self {
            TransferRequest::Native { source, destination, amount } => TransferModel::Native {
                source: source@,
                destination: destination@,
                amount: *amount,
            },
            TransferRequest::Token { token_program, source, destination, authority, amount } => {
                TransferModel::Token {
                    token_program: token_program@,
                    source: source@,
                    destination: destination@,
                    authority: authority@,
                    amount: *amount,
                }
            },
        }
    }
}

/// The models of a sequence of transfer requests.
pub open spec fn transfers_of(ts: Seq<TransferRequest>) -> Seq<TransferModel> {
    ts.map_values(|t: TransferRequest| t@)
}

/// The native split on the partitioned account list
/// `[source, capability, destinations...]`: one transfer of amount `i` from
/// the source to destination `i`, or underflow when fewer destinations
/// remain than amounts were supplied.
pub open spec fn spec_split_lamports(accounts: Seq<Seq<u8>>, amounts: Seq<u64>) -> Result<
    (Seq<TransferModel>, EventModel),
    SplitterError,
> {
    if accounts.len() < amounts.len() + 2 {
        Err(SplitterError::AccountUnderflow)
    } else {
        Ok(
            (
                Seq::new(
                    amounts.len(),
                    |i: int|
                        TransferModel::Native {
                            source: accounts[0],
                            destination: accounts[2 + i],
                            amount: amounts[i],
                        },
                ),
                EventModel::LamportsSplitted {
                    source_account: accounts[0],
                    destination_accounts: accounts.subrange(2, 2 + amounts.len() as int),
                    amounts: amounts,
                },
            ),
        )
    }
}

/// The single-mint token split on the partitioned account list
/// `[operator, capability, source, destinations...]`: one transfer of
/// amount `i` from the source token account to destination `i`, authorized
/// by the operator.
pub open spec fn spec_split_tokens_single(accounts: Seq<Seq<u8>>, amounts: Seq<u64>) -> Result<
    (Seq<TransferModel>, EventModel),
    SplitterError,
> {
    if accounts.len() < amounts.len() + 3 {
        Err(SplitterError::AccountUnderflow)
    } else {
        Ok(
            (
                Seq::new(
                    amounts.len(),
                    |i: int|
                        TransferModel::Token {
                            token_program: accounts[1],
                            source: accounts[2],
                            destination: accounts[3 + i],
                            authority: accounts[0],
                            amount: amounts[i],
                        },
                ),
                EventModel::SplTokensSplittedFromSignleMint {
                    operator: accounts[0],
                    source_account: accounts[2],
                    destination_accounts: accounts.subrange(3, 3 + amounts.len() as int),
                    amounts: amounts,
                },
            ),
        )
    }
}

/// The multi-mint token split on the partitioned account list
/// `[operator, capability, sources..., destinations...]` with declared pair
/// count `m`: the arity check precedes any partitioning, the amount count
/// may not exceed the pair count, and amount `i` moves from source `i` to
/// destination `i` — pairing is positional, never by mint.
pub open spec fn spec_split_tokens_multi(
    accounts: Seq<Seq<u8>>,
    amounts: Seq<u64>,
    m: u16,
) -> Result<(Seq<TransferModel>, EventModel), SplitterError> {
    if accounts.len() != 2 * (m as int) + 2 {
        Err(SplitterError::InvalidMParameter(m, (2 * (m as int) + 2) as usize, accounts.len() as usize))
    } else if amounts.len() > m as int {
        Err(SplitterError::AmountCountExceedsM)
    } else {
        Ok(
            (
                Seq::new(
                    amounts.len(),
                    |i: int|
                        TransferModel::Token {
                            token_program: accounts[1],
                            source: accounts[2 + i],
                            destination: accounts[2 + m + i],
                            authority: accounts[0],
                            amount: amounts[i],
                        },
                ),
                EventModel::SplTokensSplittedFromMultipleMints {
                    operator: accounts[0],
                    source_accounts: accounts.subrange(2, 2 + m as int),
                    destination_accounts: accounts.subrange(2 + m as int, 2 + 2 * (m as int)),
                    amounts: amounts,
                },
            ),
        )
    }
}

/// The whole invocation: decode the raw buffer, then plan the disbursement
/// the decoded command describes.
pub open spec fn spec_process(accounts: Seq<Seq<u8>>, data: Seq<u8>) -> Result<
    (Seq<TransferModel>, EventModel),
    SplitterError,
> {
    match spec_unpack(data) {
        Err(e) => Err(e),
        Ok(InstructionView::SplitLamports(amounts)) => spec_split_lamports(accounts, amounts),
        Ok(InstructionView::SplitSplTokensFromSingleMint(amounts)) => spec_split_tokens_single(
            accounts,
            amounts,
        ),
        Ok(InstructionView::SplitSplTokensFromMultipleMints(amounts, m)) => {
            spec_split_tokens_multi(accounts, amounts, m)
        },
    }
}

/// Copies the handles `accounts[start .. end]`.
fn copy_accounts(accounts: &Vec<AccountId>, start: usize, end: usize) -> (r: Vec<AccountId>)
    requires
        start <= end <= accounts@.len(),
    ensures
        ids_of(r@) == ids_of(accounts@).subrange(start as int, end as int),
{
    let mut r: Vec<AccountId> = Vec::new();
    let mut i: usize = start;
    while i < end
        invariant
            start <= i <= end <= accounts@.len(),
            r@.len() == i - start,
            forall|j: int| 0 <= j < r@.len() ==> r@[j]@ == accounts@[start + j]@,
        decreases end - i,
    {
        r.push(accounts[i]);
        i += 1;
    }
    proof {
        assert(ids_of(r@) =~= ids_of(accounts@).subrange(start as int, end as int));
    }
    r
}

/// Copies the amount list.
fn copy_amounts(amounts: &Vec<u64>) -> (r: Vec<u64>)
    ensures
        r@ == amounts@,
{
    let mut r: Vec<u64> = Vec::new();
    let mut i: usize = 0;
    while i < amounts.len()
        invariant
            i <= amounts@.len(),
            r@.len() == i,
            forall|j: int| 0 <= j < i ==> r@[j] == amounts@[j],
        decreases amounts@.len() - i,
    {
        r.push(amounts[i]);
        i += 1;
    }
    proof {
        assert(r@ =~= amounts@);
    }
    r
}

/// The disbursement engine.
pub struct Processor {}

impl Processor {
    /// Plans the native split: account 0 is the source, account 1 the
    /// native-ledger capability handle, and one writable destination per
    /// amount follows. Fails with `AccountUnderflow`, and plans nothing,
    /// when fewer destinations remain than amounts were supplied.
    pub fn process_split_lamports(accounts: &Vec<AccountId>, amounts: &Vec<u64>) -> (r: Result<
        (Vec<TransferRequest>, Event),
        SplitterError,
    >)
        ensures
            match r {
                Ok(p) => spec_split_lamports(ids_of(accounts@), amounts@) == Ok::<
                    _,
                    SplitterError,
                >((transfers_of(p.0@), p.1@)),
                Err(e) => spec_split_lamports(ids_of(accounts@), amounts@) == Err::<
                    (Seq<TransferModel>, EventModel),
                    _,
                >(e),
            },
    {
        if accounts.len() < 2 || accounts.len() - 2 < amounts.len() {
            return Err(SplitterError::AccountUnderflow);
        }
        let source_account = accounts[0];
        let nacc = accounts.len();
        let mut transfers: Vec<TransferRequest> = Vec::new();
        let mut i: usize = 0;
        while i < amounts.len()
            invariant
                i <= amounts@.len(),
                nacc == accounts@.len(),
                amounts@.len() + 2 <= accounts@.len(),
                source_account@ == accounts@[0]@,
                transfers@.len() == i,
                forall|j: int|
                    0 <= j < i ==> transfers@[j]@ == (TransferModel::Native {
                        source: accounts@[0]@,
                        destination: accounts@[2 + j]@,
                        amount: amounts@[j],
                    }),
            decreases amounts@.len() - i,
        {
            transfers.push(
                TransferRequest::Native {
                    source: source_account,
                    destination: accounts[2 + i],
                    amount: amounts[i],
                },
            );
            i += 1;
        }
        let destination_accounts = copy_accounts(accounts, 2, 2 + amounts.len());
        let event = Event::LamportsSplitted {
            source_account,
            destination_accounts,
            amounts: copy_amounts(amounts),
        };
        proof {
            let spec_r = spec_split_lamports(ids_of(accounts@), amounts@);
            assert(transfers_of(transfers@) =~= spec_r->Ok_0.0);
            assert(event@ == spec_r->Ok_0.1);
        }
        Ok((transfers, event))
    }

    /// Plans the single-mint token split: account 0 is the operator
    /// (owner or delegate of the source token account), account 1 the
    /// token-ledger capability handle, account 2 the source token account,
    /// and one writable destination token account per amount follows.
    pub fn process_split_spl_tokens_from_single_mint(
        accounts: &Vec<AccountId>,
        amounts: &Vec<u64>,
    ) -> (r: Result<(Vec<TransferRequest>, Event), SplitterError>)
        ensures
            match r {
                Ok(p) => spec_split_tokens_single(ids_of(accounts@), amounts@) == Ok::<
                    _,
                    SplitterError,
                >((transfers_of(p.0@), p.1@)),
                Err(e) => spec_split_tokens_single(ids_of(accounts@), amounts@) == Err::<
                    (Seq<TransferModel>, EventModel),
                    _,
                >(e),
            },
    {
        if accounts.len() < 3 || accounts.len() - 3 < amounts.len() {
            return Err(SplitterError::AccountUnderflow);
        }
        let operator = accounts[0];
        let token_program = accounts[1];
        let source_ata = accounts[2];
        let nacc = accounts.len();
        let mut transfers: Vec<TransferRequest> = Vec::new();
        let mut i: usize = 0;
        while i < amounts.len()
            invariant
                i <= amounts@.len(),
                nacc == accounts@.len(),
                amounts@.len() + 3 <= accounts@.len(),
                operator@ == accounts@[0]@,
                token_program@ == accounts@[1]@,
                source_ata@ == accounts@[2]@,
                transfers@.len() == i,
                forall|j: int|
                    0 <= j < i ==> transfers@[j]@ == (TransferModel::Token {
                        token_program: accounts@[1]@,
                        source: accounts@[2]@,
                        destination: accounts@[3 + j]@,
                        authority: accounts@[0]@,
                        amount: amounts@[j],
                    }),
            decreases amounts@.len() - i,
        {
            transfers.push(
                TransferRequest::Token {
                    token_program,
                    source: source_ata,
                    destination: accounts[3 + i],
                    authority: operator,
                    amount: amounts[i],
                },
            );
            i += 1;
        }
        let destination_accounts = copy_accounts(accounts, 3, 3 + amounts.len());
        let event = Event::SplTokensSplittedFromSignleMint {
            operator,
            source_account: source_ata,
            destination_accounts,
            amounts: copy_amounts(amounts),
        };
        proof {
            let spec_r = spec_split_tokens_single(ids_of(accounts@), amounts@);
            assert(transfers_of(transfers@) =~= spec_r->Ok_0.0);
            assert(event@ == spec_r->Ok_0.1);
        }
        Ok((transfers, event))
    }

    /// Plans the multi-mint token split: account 0 is the operator,
    /// account 1 the token-ledger capability handle, then `m` source token
    /// accounts and `m` destination token accounts. The arity check
    /// `accounts.len() == m * 2 + 2` precedes any partitioning and reports
    /// the declared, expected and actual counts; an amount list longer than
    /// `m` is rejected before any transfer is planned.
    pub fn process_split_spl_tokens_from_multiple_mints(
        accounts: &Vec<AccountId>,
        amounts: &Vec<u64>,
        m: &u16,
    ) -> (r: Result<(Vec<TransferRequest>, Event), SplitterError>)
        ensures
            match r {
                Ok(p) => spec_split_tokens_multi(ids_of(accounts@), amounts@, *m) == Ok::<
                    _,
                    SplitterError,
                >((transfers_of(p.0@), p.1@)),
                Err(e) => spec_split_tokens_multi(ids_of(accounts@), amounts@, *m) == Err::<
                    (Seq<TransferModel>, EventModel),
                    _,
                >(e),
            },
    {
        let m_usize = *m as usize;
        let expected_accounts_len = m_usize * 2 + 2;
        if accounts.len() != expected_accounts_len {
            return Err(
                SplitterError::InvalidMParameter(*m, expected_accounts_len, accounts.len()),
            );
        }
        if amounts.len() > m_usize {
            return Err(SplitterError::AmountCountExceedsM);
        }
        let operator = accounts[0];
        let token_program = accounts[1];
        let nacc = accounts.len();
        let mut transfers: Vec<TransferRequest> = Vec::new();
        let mut i: usize = 0;
        while i < amounts.len()
            invariant
                i <= amounts@.len(),
                nacc == accounts@.len(),
                m_usize == *m as int,
                amounts@.len() <= *m,
                accounts@.len() == 2 * (*m as int) + 2,
                operator@ == accounts@[0]@,
                token_program@ == accounts@[1]@,
                transfers@.len() == i,
                forall|j: int|
                    0 <= j < i ==> transfers@[j]@ == (TransferModel::Token {
                        token_program: accounts@[1]@,
                        source: accounts@[2 + j]@,
                        destination: accounts@[2 + (*m as int) + j]@,
                        authority: accounts@[0]@,
                        amount: amounts@[j],
                    }),
            decreases amounts@.len() - i,
        {
            transfers.push(
                TransferRequest::Token {
                    token_program,
                    source: accounts[2 + i],
                    destination: accounts[2 + m_usize + i],
                    authority: operator,
                    amount: amounts[i],
                },
            );
            i += 1;
        }
        let source_accounts = copy_accounts(accounts, 2, 2 + m_usize);
        let destination_accounts = copy_accounts(accounts, 2 + m_usize, 2 + 2 * m_usize);
        let event = Event::SplTokensSplittedFromMultipleMints {
            operator,
            source_accounts,
            destination_accounts,
            amounts: copy_amounts(amounts),
        };
        proof {
            let spec_r = spec_split_tokens_multi(ids_of(accounts@), amounts@, *m);
            assert(transfers_of(transfers@) =~= spec_r->Ok_0.0);
            assert(event@ == spec_r->Ok_0.1);
        }
        Ok((transfers, event))
    }

    /// Decodes the raw instruction buffer and plans the disbursement it
    /// describes. The program identity is not read here: the host checks it
    /// before dispatching. Every decode or partition fault aborts the whole
    /// invocation; nothing is planned on any error.
    pub fn process(
        _program_id: &AccountId,
        accounts: &Vec<AccountId>,
        instruction_data: &[u8],
    ) -> (r: Result<(Vec<TransferRequest>, Event), SplitterError>)
        ensures
            match r {
                Ok(p) => spec_process(ids_of(accounts@), instruction_data@) == Ok::<
                    _,
                    SplitterError,
                >((transfers_of(p.0@), p.1@)),
                Err(e) => spec_process(ids_of(accounts@), instruction_data@) == Err::<
                    (Seq<TransferModel>, EventModel),
                    _,
                >(e),
            },
    {
        let instruction = match SplitterInstruction::unpack(instruction_data) {
            Ok(instruction) => instruction,
            Err(e) => {
                return Err(e);
            },
        };
        match instruction {
            SplitterInstruction::SplitLamports(amounts) => Self::process_split_lamports(
                accounts,
                &amounts,
            ),
            SplitterInstruction::SplitSplTokensFromSingleMint(amounts) => {
                Self::process_split_spl_tokens_from_single_mint(accounts, &amounts)
            },
            SplitterInstruction::SplitSplTokensFromMultipleMints(amounts, m) => {
                Self::process_split_spl_tokens_from_multiple_mints(accounts, &amounts, &m)
            },
        }
    }
}

} // verus!
