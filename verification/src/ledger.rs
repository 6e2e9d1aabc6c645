//! A model of the external ledger capability the engine delegates to: each
//! account holds a 64-bit balance, and one transfer debits its source and
//! credits its destination atomically, refusing overdrafts and overflow.
//! The engine never mutates balances itself; this model is what its plans
//! are proved against and what the tests run them on. Applying a plan is
//! all-or-nothing, as the host's transactional execution guarantees.

use vstd::prelude::*;
use crate::account::AccountId;
use crate::processor::TransferModel;
use crate::processor::TransferRequest;
use crate::processor::spec_split_lamports;
use crate::processor::spec_split_tokens_multi;
use crate::processor::transfers_of;

verus! {

/// The account a transfer debits.
pub open spec fn source_of(t: TransferModel) -> Seq<u8> {
    match t {
        TransferModel::Native { source, .. } => source,
        TransferModel::Token { source, .. } => source,
    }
}

/// The account a transfer credits.
pub open spec fn dest_of(t: TransferModel) -> Seq<u8> {
    match t {
        TransferModel::Native { destination, .. } => destination,
        TransferModel::Token { destination, .. } => destination,
    }
}

/// The amount a transfer moves.
pub open spec fn amount_of(t: TransferModel) -> u64 {
    match t {
        TransferModel::Native { amount, .. } => amount,
        TransferModel::Token { amount, .. } => amount,
    }
}

/// Why the ledger refused a transfer.
#[derive(Debug, Clone, Copy, PartialEq, Eq, Structural)]
pub enum LedgerError {
    /// An endpoint of the transfer is not on the ledger.
    UnknownAccount,
    /// The source holds less than the amount.
    InsufficientFunds,
    /// The credit would overflow the destination's balance.
    BalanceOverflow,
}

/// One ledger step: debit the source, then credit the destination, both by
/// the transfer's amount. Fails when an endpoint is missing, the source
/// would overdraw, or the credit would overflow.
pub open spec fn spec_apply_transfer(b: Map<Seq<u8>, u64>, t: TransferModel) -> Option<
    Map<Seq<u8>, u64>,
> {
    if !b.contains_key(source_of(t)) || !b.contains_key(dest_of(t)) {
        None
    } else if b[source_of(t)] < amount_of(t) {
        None
    } else {
        let debited = b.insert(source_of(t), (b[source_of(t)] - amount_of(t)) as u64);
        if debited[dest_of(t)] + amount_of(t) > u64::MAX {
            None
        } else {
            Some(debited.insert(dest_of(t), (debited[dest_of(t)] + amount_of(t)) as u64))
        }
    }
}

/// All steps of a plan in order; any failing step fails the whole plan.
pub open spec fn spec_apply_transfers(b: Map<Seq<u8>, u64>, ts: Seq<TransferModel>) -> Option<
    Map<Seq<u8>, u64>,
>
    decreases ts.len(),
{
    if ts.len() == 0 {
        Some(b)
    } else {
        match spec_apply_transfer(b, ts[0]) {
            None => None,
            Some(b1) => spec_apply_transfers(b1, ts.skip(1)),
        }
    }
}

/// Why one ledger step fails, if it does: the first of a missing
/// endpoint, an overdraw, and an overflowing credit.
pub open spec fn spec_transfer_fault(b: Map<Seq<u8>, u64>, t: TransferModel) -> Option<
    LedgerError,
> {
    if !b.contains_key(source_of(t)) || !b.contains_key(dest_of(t)) {
        Some(LedgerError::UnknownAccount)
    } else if b[source_of(t)] < amount_of(t) {
        Some(LedgerError::InsufficientFunds)
    } else {
        let debited = b.insert(source_of(t), (b[source_of(t)] - amount_of(t)) as u64);
        if debited[dest_of(t)] + amount_of(t) > u64::MAX {
            Some(LedgerError::BalanceOverflow)
        } else {
            None
        }
    }
}

/// The first fault a plan runs into, if any; a step fails exactly when it
/// has a fault.
pub open spec fn spec_plan_fault(b: Map<Seq<u8>, u64>, ts: Seq<TransferModel>) -> Option<
    LedgerError,
>
    decreases ts.len(),
{
    if ts.len() == 0 {
        None
    } else {
        match spec_transfer_fault(b, ts[0]) {
            Some(e) => Some(e),
            None => spec_plan_fault(spec_apply_transfer(b, ts[0])->Some_0, ts.skip(1)),
        }
    }
}

/// One account the model ledger tracks.
#[derive(Debug, Clone, Copy)]
pub struct LedgerEntry {
    pub id: AccountId,
    pub balance: u64,
}

/// The balances a sequence of entries represents; a later entry for the
/// same account would shadow an earlier one, which well-formedness rules
/// out.
pub open spec fn entries_map(s: Seq<LedgerEntry>) -> Map<Seq<u8>, u64>
    decreases s.len(),
{
    if s.len() == 0 {
        Map::empty()
    } else {
        entries_map(s.drop_last()).insert(s.last().id@, s.last().balance)
    }
}

/// An in-memory model of the external ledger capability.
#[derive(Debug)]
pub struct Ledger {
    pub entries: Vec<LedgerEntry>,
}

impl View for Ledger {
    type V = Map<Seq<u8>, u64>;

    open spec fn view(&self) -> Map<Seq<u8>, u64> {
        entries_map(self.entries@)
    }
}

/// An account is on the map exactly when an entry names it.
proof fn lemma_entries_map_domain(s: Seq<LedgerEntry>, k: Seq<u8>)
    ensures
        entries_map(s).contains_key(k) <==> exists|i: int| 0 <= i < s.len() && s[i].id@ == k,
    decreases s.len(),
{
    if s.len() > 0 {
        lemma_entries_map_domain(s.drop_last(), k);
        if entries_map(s).contains_key(k) {
            if s.last().id@ == k {
                assert(s[s.len() - 1].id@ == k);
            } else {
                let i = choose|i: int| 0 <= i < s.drop_last().len() && s.drop_last()[i].id@ == k;
                assert(s[i].id@ == k);
            }
        }
        if exists|i: int| 0 <= i < s.len() && s[i].id@ == k {
            let i = choose|i: int| 0 <= i < s.len() && s[i].id@ == k;
            if i < s.len() - 1 {
                assert(s.drop_last()[i].id@ == k);
            }
        }
    }
}

/// With no two entries naming the same account, entry `i` gives account
/// `i`'s balance.
proof fn lemma_entries_map_index(s: Seq<LedgerEntry>, i: int)
    requires
        forall|p: int, q: int| 0 <= p < q < s.len() ==> s[p].id@ != s[q].id@,
        0 <= i < s.len(),
    ensures
        entries_map(s).contains_key(s[i].id@),
        entries_map(s)[s[i].id@] == s[i].balance,
    decreases s.len(),
{
    if i == s.len() - 1 {
    } else {
        lemma_entries_map_index(s.drop_last(), i);
        assert(s.drop_last()[i] == s[i]);
        assert(s.last().id@ != s[i].id@);
    }
}

/// Replacing entry `i` by one for the same account updates that account's
/// balance and nothing else.
proof fn lemma_entries_map_update(s: Seq<LedgerEntry>, i: int, e: LedgerEntry)
    requires
        forall|p: int, q: int| 0 <= p < q < s.len() ==> s[p].id@ != s[q].id@,
        0 <= i < s.len(),
        e.id@ == s[i].id@,
    ensures
        entries_map(s.update(i, e)) == entries_map(s).insert(e.id@, e.balance),
    decreases s.len(),
{
    if i == s.len() - 1 {
        assert(s.update(i, e).drop_last() =~= s.drop_last());
        assert(entries_map(s.update(i, e)) =~= entries_map(s).insert(e.id@, e.balance));
    } else {
        assert(s.update(i, e).drop_last() =~= s.drop_last().update(i, e));
        lemma_entries_map_update(s.drop_last(), i, e);
        assert(s.drop_last()[i] == s[i]);
        assert(s.last().id@ != e.id@);
        assert(s.update(i, e).last() == s.last());
        assert(entries_map(s.update(i, e)) =~= entries_map(s).insert(e.id@, e.balance));
    }
}

impl Ledger {
    /// No two entries name the same account.
    pub open spec fn wf(&self) -> bool {
        forall|p: int, q: int|
            0 <= p < q < self.entries@.len() ==> self.entries@[p].id@ != self.entries@[q].id@
    }

    /// An empty ledger.
    pub fn new() -> (r: Ledger)
        ensures
            r.wf(),
            r@ == Map::<Seq<u8>, u64>::empty(),
    {
        Ledger { entries: Vec::new() }
    }

    /// Registers an account with its opening balance.
    pub fn add_account(&mut self, id: AccountId, balance: u64)
        requires
            old(self).wf(),
            !old(self)@.contains_key(id@),
        ensures
            final(self).wf(),
            final(self)@ == old(self)@.insert(id@, balance),
    {
        proof {
            lemma_entries_map_domain(self.entries@, id@);
        }
        self.entries.push(LedgerEntry { id, balance });
        proof {
            assert(self.entries@.drop_last() =~= old(self).entries@);
        }
    }

    /// The position of the entry for an account, if one exists.
    fn find_index(&self, id: &AccountId) -> (r: Option<usize>)
        ensures
            match r {
                Some(i) => i < self.entries@.len() && self.entries@[i as int].id@ == id@,
                None => !self@.contains_key(id@),
            },
    {
        let mut i: usize = 0;
        while i < self.entries.len()
            invariant
                i <= self.entries@.len(),
                forall|j: int| 0 <= j < i ==> self.entries@[j].id@ != id@,
            decreases self.entries@.len() - i,
        {
            if crate::account::same_id(&self.entries[i].id, id) {
                return Some(i);
            }
            i += 1;
        }
        proof {
            lemma_entries_map_domain(self.entries@, id@);
        }
        None
    }

    /// The balance the ledger holds for an account.
    pub fn balance_of(&self, id: &AccountId) -> (r: Option<u64>)
        requires
            self.wf(),
        ensures
            match r {
                Some(b) => self@.contains_key(id@) && b == self@[id@],
                None => !self@.contains_key(id@),
            },
    {
        match self.find_index(id) {
            Some(i) => {
                proof {
                    lemma_entries_map_index(self.entries@, i as int);
                }
                Some(self.entries[i].balance)
            },
            None => None,
        }
    }

    /// Performs one transfer in place, or reports why the ledger refused
    /// it, leaving every balance unchanged.
    fn apply_transfer(&mut self, t: &TransferRequest) -> (r: Result<(), LedgerError>)
        requires
            old(self).wf(),
        ensures
            final(self).wf(),
            match r {
                Ok(_) => spec_transfer_fault(old(self)@, t@) is None && spec_apply_transfer(
                    old(self)@,
                    t@,
                ) == Some(final(self)@),
                Err(e) => spec_transfer_fault(old(self)@, t@) == Some(e) && final(self).entries@
                    == old(self).entries@,
            },
    {
        let (src, dst, amount) = match t {
            TransferRequest::Native { source, destination, amount } => (source, destination, *amount),
            TransferRequest::Token { source, destination, amount, .. } => (
                source,
                destination,
                *amount,
            ),
        };
        proof {
            assert(src@ == source_of(t@) && dst@ == dest_of(t@) && amount == amount_of(t@));
        }
        let si = match self.find_index(src) {
            Some(si) => si,
            None => {
                return Err(LedgerError::UnknownAccount);
            },
        };
        let di = match self.find_index(dst) {
            Some(di) => di,
            None => {
                return Err(LedgerError::UnknownAccount);
            },
        };
        proof {
            lemma_entries_map_index(self.entries@, si as int);
            lemma_entries_map_index(self.entries@, di as int);
        }
        let source_balance = self.entries[si].balance;
        if source_balance < amount {
            return Err(LedgerError::InsufficientFunds);
        }
        let ghost before = self.entries@;
        self.entries[si].balance = source_balance - amount;
        proof {
            lemma_entries_map_update(
                before,
                si as int,
                LedgerEntry { id: before[si as int].id, balance: (source_balance - amount) as u64 },
            );
            assert(self.entries@ =~= before.update(
                si as int,
                LedgerEntry { id: before[si as int].id, balance: (source_balance - amount) as u64 },
            ));
            lemma_entries_map_index(self.entries@, di as int);
        }
        let destination_balance = self.entries[di].balance;
        if amount > u64::MAX - destination_balance {
            // undo the debit so a refused transfer changes nothing
            self.entries[si].balance = source_balance;
            proof {
                assert(self.entries@ =~= before);
            }
            return Err(LedgerError::BalanceOverflow);
        }
        let ghost debited = self.entries@;
        self.entries[di].balance = destination_balance + amount;
        proof {
            lemma_entries_map_update(
                debited,
                di as int,
                LedgerEntry {
                    id: debited[di as int].id,
                    balance: (destination_balance + amount) as u64,
                },
            );
            assert(self.entries@ =~= debited.update(
                di as int,
                LedgerEntry {
                    id: debited[di as int].id,
                    balance: (destination_balance + amount) as u64,
                },
            ));
        }
        Ok(())
    }

    /// A copy of the ledger's state.
    fn duplicate(&self) -> (r: Ledger)
        ensures
            r.entries@ == self.entries@,
            r@ == self@,
            r.wf() == self.wf(),
    {
        let mut entries: Vec<LedgerEntry> = Vec::new();
        let mut i: usize = 0;
        while i < self.entries.len()
            invariant
                i <= self.entries@.len(),
                entries@.len() == i,
                forall|j: int| 0 <= j < i ==> entries@[j] == self.entries@[j],
            decreases self.entries@.len() - i,
        {
            entries.push(self.entries[i]);
            i += 1;
        }
        proof {
            assert(entries@ =~= self.entries@);
        }
        Ledger { entries }
    }

    /// Applies a whole plan to a copy of the ledger: the fully updated
    /// ledger when every step succeeds, or the first fault — in which case
    /// no new state exists and the original ledger is untouched, matching
    /// the host's all-or-nothing execution.
    pub fn apply_transfers(&self, ts: &Vec<TransferRequest>) -> (r: Result<Ledger, LedgerError>)
        requires
            self.wf(),
        ensures
            match r {
                Ok(l2) => l2.wf() && spec_plan_fault(self@, transfers_of(ts@)) is None
                    && spec_apply_transfers(self@, transfers_of(ts@)) == Some(l2@),
                Err(e) => spec_plan_fault(self@, transfers_of(ts@)) == Some(e)
                    && spec_apply_transfers(self@, transfers_of(ts@)) is None,
            },
    {
        let mut cur = self.duplicate();
        proof {
            assert(transfers_of(ts@).skip(0) =~= transfers_of(ts@));
        }
        let mut i: usize = 0;
        while i < ts.len()
            invariant
                i <= ts@.len(),
                cur.wf(),
                spec_apply_transfers(self@, transfers_of(ts@)) == spec_apply_transfers(
                    cur@,
                    transfers_of(ts@).skip(i as int),
                ),
                spec_plan_fault(self@, transfers_of(ts@)) == spec_plan_fault(
                    cur@,
                    transfers_of(ts@).skip(i as int),
                ),
            decreases ts@.len() - i,
        {
            let ghost pre = cur@;
            let step = cur.apply_transfer(&ts[i]);
            proof {
                let rest = transfers_of(ts@).skip(i as int);
                assert(rest[0] == ts@[i as int]@);
                assert(rest.skip(1) =~= transfers_of(ts@).skip(i + 1));
            }
            match step {
                Ok(_) => {
                    i += 1;
                },
                Err(e) => {
                    return Err(e);
                },
            }
        }
        proof {
            assert(transfers_of(ts@).skip(ts@.len() as int) =~= Seq::<TransferModel>::empty());
        }
        Ok(cur)
    }
}

/// The sum of an amount list.
pub open spec fn sum_amounts(s: Seq<u64>) -> int
    decreases s.len(),
{
    if s.len() == 0 {
        0
    } else {
        s[0] + sum_amounts(s.skip(1))
    }
}

/// A successful step keeps the set of accounts: transfers move balance,
/// they never create or remove accounts.
proof fn lemma_apply_transfer_dom(b: Map<Seq<u8>, u64>, t: TransferModel, b2: Map<Seq<u8>, u64>)
    requires
        spec_apply_transfer(b, t) == Some(b2),
    ensures
        b2.dom() == b.dom(),
{
    assert(b2.dom() =~= b.dom());
}

/// A successful step changes no account but the transfer's endpoints.
proof fn lemma_apply_transfer_frame(
    b: Map<Seq<u8>, u64>,
    t: TransferModel,
    b2: Map<Seq<u8>, u64>,
    k: Seq<u8>,
)
    requires
        spec_apply_transfer(b, t) == Some(b2),
        b.contains_key(k),
        k != source_of(t),
        k != dest_of(t),
    ensures
        b2.contains_key(k),
        b2[k] == b[k],
{
}

/// A successful step between two distinct endpoints debits the source and
/// credits the destination by exactly the amount.
proof fn lemma_apply_transfer_effect(b: Map<Seq<u8>, u64>, t: TransferModel, b2: Map<Seq<u8>, u64>)
    requires
        spec_apply_transfer(b, t) == Some(b2),
        source_of(t) != dest_of(t),
    ensures
        b[source_of(t)] >= amount_of(t),
        b2[source_of(t)] == b[source_of(t)] - amount_of(t),
        b2[dest_of(t)] == b[dest_of(t)] + amount_of(t),
{
}

/// A successful plan keeps the set of accounts.
proof fn lemma_apply_transfers_dom(b: Map<Seq<u8>, u64>, ts: Seq<TransferModel>, b2: Map<Seq<u8>, u64>)
    requires
        spec_apply_transfers(b, ts) == Some(b2),
    ensures
        b2.dom() == b.dom(),
    decreases ts.len(),
{
    if ts.len() > 0 {
        let b1 = spec_apply_transfer(b, ts[0])->Some_0;
        lemma_apply_transfer_dom(b, ts[0], b1);
        lemma_apply_transfers_dom(b1, ts.skip(1), b2);
    }
}

/// An account no transfer of a successful plan touches keeps its balance.
proof fn lemma_apply_transfers_frame(
    b: Map<Seq<u8>, u64>,
    ts: Seq<TransferModel>,
    b2: Map<Seq<u8>, u64>,
    k: Seq<u8>,
)
    requires
        spec_apply_transfers(b, ts) == Some(b2),
        b.contains_key(k),
        forall|i: int| 0 <= i < ts.len() ==> source_of(#[trigger] ts[i]) != k && dest_of(ts[i]) != k,
    ensures
        b2.contains_key(k),
        b2[k] == b[k],
    decreases ts.len(),
{
    if ts.len() > 0 {
        let b1 = spec_apply_transfer(b, ts[0])->Some_0;
        lemma_apply_transfer_frame(b, ts[0], b1, k);
        assert(forall|i: int|
            0 <= i < ts.skip(1).len() ==> #[trigger] ts.skip(1)[i] == ts[i + 1]);
        lemma_apply_transfers_frame(b1, ts.skip(1), b2, k);
    }
}

/// Law: a fan-out plan — every transfer debits the one source `src` and
/// credits destination `i` with amount `i`, the destinations pairwise
/// distinct and distinct from the source — on success debits the source by
/// the amounts' sum and credits each destination by exactly its amount.
pub proof fn lemma_fanout_balances(
    b: Map<Seq<u8>, u64>,
    ts: Seq<TransferModel>,
    src: Seq<u8>,
    dests: Seq<Seq<u8>>,
    amounts: Seq<u64>,
    b2: Map<Seq<u8>, u64>,
)
    requires
        ts.len() == amounts.len(),
        dests.len() == amounts.len(),
        forall|i: int|
            0 <= i < ts.len() ==> source_of(#[trigger] ts[i]) == src && dest_of(ts[i]) == dests[i]
                && amount_of(ts[i]) == amounts[i],
        forall|i: int| 0 <= i < dests.len() ==> #[trigger] dests[i] != src,
        forall|i: int, j: int| 0 <= i < j < dests.len() ==> dests[i] != dests[j],
        b.contains_key(src),
        forall|i: int| 0 <= i < dests.len() ==> b.contains_key(#[trigger] dests[i]),
        spec_apply_transfers(b, ts) == Some(b2),
    ensures
        b2.contains_key(src),
        b2[src] == b[src] - sum_amounts(amounts),
        forall|i: int|
            0 <= i < dests.len() ==> b2.contains_key(#[trigger] dests[i]) && b2[dests[i]] == b[dests[i]] + amounts[i],
    decreases ts.len(),
{
    lemma_apply_transfers_dom(b, ts, b2);
    if ts.len() > 0 {
        let b1 = spec_apply_transfer(b, ts[0])->Some_0;
        lemma_apply_transfer_effect(b, ts[0], b1);
        lemma_apply_transfer_dom(b, ts[0], b1);
        assert(forall|i: int|
            0 <= i < ts.skip(1).len() ==> #[trigger] ts.skip(1)[i] == ts[i + 1]);
        assert(forall|i: int|
            0 <= i < dests.skip(1).len() ==> #[trigger] dests.skip(1)[i] == dests[i + 1]);
        assert(forall|i: int|
            0 <= i < amounts.skip(1).len() ==> #[trigger] amounts.skip(1)[i] == amounts[i + 1]);
        lemma_fanout_balances(b1, ts.skip(1), src, dests.skip(1), amounts.skip(1), b2);
        // the first destination is untouched by the rest of the plan
        assert(forall|i: int|
            0 <= i < ts.skip(1).len() ==> source_of(#[trigger] ts.skip(1)[i]) != dests[0]
                && dest_of(ts.skip(1)[i]) != dests[0]);
        lemma_apply_transfers_frame(b1, ts.skip(1), b2, dests[0]);
        assert(forall|i: int|
            0 <= i < dests.len() ==> b2.contains_key(#[trigger] dests[i]) && b2[dests[i]]
                == b[dests[i]] + amounts[i]) by {
            assert forall|i: int| 0 <= i < dests.len() implies b2.contains_key(
                #[trigger] dests[i],
            ) && b2[dests[i]] == b[dests[i]] + amounts[i] by {
                if i == 0 {
                } else {
                    assert(dests.skip(1)[i - 1] == dests[i]);
                    lemma_apply_transfer_frame(b, ts[0], b1, dests[i]);
                }
            }
        }
    }
}

/// Law: a pairwise plan — transfer `i` debits source `i` and credits
/// destination `i` with amount `i`, all the endpoints pairwise distinct —
/// on success debits each source and credits each destination by exactly
/// its amount.
pub proof fn lemma_pairwise_balances(
    b: Map<Seq<u8>, u64>,
    ts: Seq<TransferModel>,
    sources: Seq<Seq<u8>>,
    dests: Seq<Seq<u8>>,
    amounts: Seq<u64>,
    b2: Map<Seq<u8>, u64>,
)
    requires
        ts.len() == amounts.len(),
        sources.len() == amounts.len(),
        dests.len() == amounts.len(),
        forall|i: int|
            0 <= i < ts.len() ==> source_of(#[trigger] ts[i]) == sources[i] && dest_of(ts[i])
                == dests[i] && amount_of(ts[i]) == amounts[i],
        forall|i: int, j: int|
            0 <= i < sources.len() && 0 <= j < dests.len() ==> sources[i] != dests[j],
        forall|i: int, j: int| 0 <= i < j < sources.len() ==> sources[i] != sources[j],
        forall|i: int, j: int| 0 <= i < j < dests.len() ==> dests[i] != dests[j],
        forall|i: int| 0 <= i < sources.len() ==> b.contains_key(#[trigger] sources[i]),
        forall|i: int| 0 <= i < dests.len() ==> b.contains_key(#[trigger] dests[i]),
        spec_apply_transfers(b, ts) == Some(b2),
    ensures
        forall|i: int|
            0 <= i < sources.len() ==> b2.contains_key(#[trigger] sources[i]) && b2[sources[i]]
                == b[sources[i]] - amounts[i],
        forall|i: int|
            0 <= i < dests.len() ==> b2.contains_key(#[trigger] dests[i]) && b2[dests[i]] == b[dests[i]] + amounts[i],
    decreases ts.len(),
{
    lemma_apply_transfers_dom(b, ts, b2);
    if ts.len() > 0 {
        let b1 = spec_apply_transfer(b, ts[0])->Some_0;
        lemma_apply_transfer_effect(b, ts[0], b1);
        lemma_apply_transfer_dom(b, ts[0], b1);
        assert(forall|i: int|
            0 <= i < ts.skip(1).len() ==> #[trigger] ts.skip(1)[i] == ts[i + 1]);
        assert(forall|i: int|
            0 <= i < sources.skip(1).len() ==> #[trigger] sources.skip(1)[i] == sources[i + 1]);
        assert(forall|i: int|
            0 <= i < dests.skip(1).len() ==> #[trigger] dests.skip(1)[i] == dests[i + 1]);
        lemma_pairwise_balances(b1, ts.skip(1), sources.skip(1), dests.skip(1), amounts.skip(1), b2);
        assert(forall|i: int|
            0 <= i < ts.skip(1).len() ==> source_of(#[trigger] ts.skip(1)[i]) != sources[0]
                && dest_of(ts.skip(1)[i]) != sources[0]);
        lemma_apply_transfers_frame(b1, ts.skip(1), b2, sources[0]);
        assert(forall|i: int|
            0 <= i < ts.skip(1).len() ==> source_of(#[trigger] ts.skip(1)[i]) != dests[0]
                && dest_of(ts.skip(1)[i]) != dests[0]);
        lemma_apply_transfers_frame(b1, ts.skip(1), b2, dests[0]);
        assert forall|i: int| 0 <= i < sources.len() implies b2.contains_key(
            #[trigger] sources[i],
        ) && b2[sources[i]] == b[sources[i]] - amounts[i] by {
            if i > 0 {
                assert(sources.skip(1)[i - 1] == sources[i]);
                lemma_apply_transfer_frame(b, ts[0], b1, sources[i]);
            }
        }
        assert forall|i: int| 0 <= i < dests.len() implies b2.contains_key(#[trigger] dests[i])
            && b2[dests[i]] == b[dests[i]] + amounts[i] by {
            if i > 0 {
                assert(dests.skip(1)[i - 1] == dests[i]);
                lemma_apply_transfer_frame(b, ts[0], b1, dests[i]);
            }
        }
    }
}

/// Law: resubmitting an identical fan-out plan is not idempotent — the
/// second application compounds the first, debiting the source twice the
/// sum and crediting each destination twice its amount.
pub proof fn lemma_fanout_twice_compounds(
    b: Map<Seq<u8>, u64>,
    ts: Seq<TransferModel>,
    src: Seq<u8>,
    dests: Seq<Seq<u8>>,
    amounts: Seq<u64>,
    b1: Map<Seq<u8>, u64>,
    b2: Map<Seq<u8>, u64>,
)
    requires
        ts.len() == amounts.len(),
        dests.len() == amounts.len(),
        forall|i: int|
            0 <= i < ts.len() ==> source_of(#[trigger] ts[i]) == src && dest_of(ts[i]) == dests[i]
                && amount_of(ts[i]) == amounts[i],
        forall|i: int| 0 <= i < dests.len() ==> #[trigger] dests[i] != src,
        forall|i: int, j: int| 0 <= i < j < dests.len() ==> dests[i] != dests[j],
        b.contains_key(src),
        forall|i: int| 0 <= i < dests.len() ==> b.contains_key(#[trigger] dests[i]),
        spec_apply_transfers(b, ts) == Some(b1),
        spec_apply_transfers(b1, ts) == Some(b2),
    ensures
        b2.contains_key(src),
        b2[src] == b[src] - 2 * sum_amounts(amounts),
        forall|i: int|
            0 <= i < dests.len() ==> b2.contains_key(#[trigger] dests[i]) && b2[dests[i]] == b[dests[i]] + 2 * amounts[i],
{
    lemma_fanout_balances(b, ts, src, dests, amounts, b1);
    lemma_fanout_balances(b1, ts, src, dests, amounts, b2);
}

/// Law (native split): a successfully planned and applied native split
/// debits the source by the amounts' sum and credits destination `i` by
/// exactly amount `i`, provided the source and the destinations are
/// pairwise distinct accounts on the ledger. When fewer destinations are
/// supplied than amounts, the planner fails and plans no transfer at all,
/// so no balance can change.
pub proof fn lemma_split_lamports_effect(
    accounts: Seq<Seq<u8>>,
    amounts: Seq<u64>,
    b: Map<Seq<u8>, u64>,
    b2: Map<Seq<u8>, u64>,
)
    requires
        spec_split_lamports(accounts, amounts) is Ok,
        forall|i: int| 0 <= i < amounts.len() ==> #[trigger] accounts[2 + i] != accounts[0],
        forall|i: int, j: int|
            #![trigger accounts[2 + i], accounts[2 + j]]
            0 <= i < j < amounts.len() ==> accounts[2 + i] != accounts[2 + j],
        b.contains_key(accounts[0]),
        forall|i: int| 0 <= i < amounts.len() ==> b.contains_key(#[trigger] accounts[2 + i]),
        spec_apply_transfers(b, spec_split_lamports(accounts, amounts)->Ok_0.0) == Some(b2),
    ensures
        b2.contains_key(accounts[0]),
        b2[accounts[0]] == b[accounts[0]] - sum_amounts(amounts),
        forall|i: int|
            0 <= i < amounts.len() ==> b2.contains_key(#[trigger] accounts[2 + i])
                && b2[accounts[2 + i]] == b[accounts[2 + i]] + amounts[i],
{
    let ts = spec_split_lamports(accounts, amounts)->Ok_0.0;
    let dests = Seq::new(amounts.len(), |i: int| accounts[2 + i]);
    assert(forall|i: int|
        0 <= i < ts.len() ==> source_of(#[trigger] ts[i]) == accounts[0] && dest_of(ts[i])
            == dests[i] && amount_of(ts[i]) == amounts[i]);
    lemma_fanout_balances(b, ts, accounts[0], dests, amounts, b2);
    assert forall|i: int| 0 <= i < amounts.len() implies b2.contains_key(
        #[trigger] accounts[2 + i],
    ) && b2[accounts[2 + i]] == b[accounts[2 + i]] + amounts[i] by {
        assert(dests[i] == accounts[2 + i]);
    }
}

/// Law (native split, resubmission): applying the identical native-split
/// plan twice compounds: the source loses twice the sum and destination
/// `i` gains twice amount `i` — the engine is deliberately not idempotent.
pub proof fn lemma_split_lamports_twice(
    accounts: Seq<Seq<u8>>,
    amounts: Seq<u64>,
    b: Map<Seq<u8>, u64>,
    b1: Map<Seq<u8>, u64>,
    b2: Map<Seq<u8>, u64>,
)
    requires
        spec_split_lamports(accounts, amounts) is Ok,
        forall|i: int| 0 <= i < amounts.len() ==> #[trigger] accounts[2 + i] != accounts[0],
        forall|i: int, j: int|
            #![trigger accounts[2 + i], accounts[2 + j]]
            0 <= i < j < amounts.len() ==> accounts[2 + i] != accounts[2 + j],
        b.contains_key(accounts[0]),
        forall|i: int| 0 <= i < amounts.len() ==> b.contains_key(#[trigger] accounts[2 + i]),
        spec_apply_transfers(b, spec_split_lamports(accounts, amounts)->Ok_0.0) == Some(b1),
        spec_apply_transfers(b1, spec_split_lamports(accounts, amounts)->Ok_0.0) == Some(b2),
    ensures
        b2.contains_key(accounts[0]),
        b2[accounts[0]] == b[accounts[0]] - 2 * sum_amounts(amounts),
        forall|i: int|
            0 <= i < amounts.len() ==> b2.contains_key(#[trigger] accounts[2 + i])
                && b2[accounts[2 + i]] == b[accounts[2 + i]] + 2 * amounts[i],
{
    let ts = spec_split_lamports(accounts, amounts)->Ok_0.0;
    let dests = Seq::new(amounts.len(), |i: int| accounts[2 + i]);
    assert(forall|i: int|
        0 <= i < ts.len() ==> source_of(#[trigger] ts[i]) == accounts[0] && dest_of(ts[i])
            == dests[i] && amount_of(ts[i]) == amounts[i]);
    lemma_fanout_twice_compounds(b, ts, accounts[0], dests, amounts, b1, b2);
    assert forall|i: int| 0 <= i < amounts.len() implies b2.contains_key(
        #[trigger] accounts[2 + i],
    ) && b2[accounts[2 + i]] == b[accounts[2 + i]] + 2 * amounts[i] by {
        assert(dests[i] == accounts[2 + i]);
    }
}

/// Law (multi-mint split): a successfully planned and applied multi-mint
/// split debits source `i` and credits destination `i` by exactly amount
/// `i` — sources pair with destinations by position — provided all the
/// involved accounts are pairwise distinct and on the ledger. An account
/// list whose length contradicts `m`, or an amount list longer than `m`,
/// makes the planner fail with no transfer planned, so no balance can
/// change.
pub proof fn lemma_split_tokens_multi_effect(
    accounts: Seq<Seq<u8>>,
    amounts: Seq<u64>,
    m: u16,
    b: Map<Seq<u8>, u64>,
    b2: Map<Seq<u8>, u64>,
)
    requires
        spec_split_tokens_multi(accounts, amounts, m) is Ok,
        forall|i: int, j: int|
            #![trigger accounts[2 + i], accounts[2 + (m as int) + j]]
            0 <= i < amounts.len() && 0 <= j < amounts.len() ==> accounts[2 + i] != accounts[2 + (
            m as int) + j],
        forall|i: int, j: int|
            #![trigger accounts[2 + i], accounts[2 + j]]
            0 <= i < j < amounts.len() ==> accounts[2 + i] != accounts[2 + j],
        forall|i: int, j: int|
            #![trigger accounts[2 + (m as int) + i], accounts[2 + (m as int) + j]]
            0 <= i < j < amounts.len() ==> accounts[2 + (m as int) + i] != accounts[2 + (
            m as int) + j],
        forall|i: int| 0 <= i < amounts.len() ==> b.contains_key(#[trigger] accounts[2 + i]),
        forall|i: int|
            0 <= i < amounts.len() ==> b.contains_key(#[trigger] accounts[2 + (m as int) + i]),
        spec_apply_transfers(b, spec_split_tokens_multi(accounts, amounts, m)->Ok_0.0) == Some(b2),
    ensures
        forall|i: int|
            0 <= i < amounts.len() ==> b2.contains_key(#[trigger] accounts[2 + i])
                && b2[accounts[2 + i]] == b[accounts[2 + i]] - amounts[i],
        forall|i: int|
            0 <= i < amounts.len() ==> b2.contains_key(#[trigger] accounts[2 + (m as int) + i])
                && b2[accounts[2 + (m as int) + i]] == b[accounts[2 + (m as int) + i]] + amounts[i],
{
    let ts = spec_split_tokens_multi(accounts, amounts, m)->Ok_0.0;
    let sources = Seq::new(amounts.len(), |i: int| accounts[2 + i]);
    let dests = Seq::new(amounts.len(), |i: int| accounts[2 + (m as int) + i]);
    assert(forall|i: int|
        0 <= i < ts.len() ==> source_of(#[trigger] ts[i]) == sources[i] && dest_of(ts[i])
            == dests[i] && amount_of(ts[i]) == amounts[i]);
    lemma_pairwise_balances(b, ts, sources, dests, amounts, b2);
    assert forall|i: int| 0 <= i < amounts.len() implies b2.contains_key(
        #[trigger] accounts[2 + i],
    ) && b2[accounts[2 + i]] == b[accounts[2 + i]] - amounts[i] by {
        assert(sources[i] == accounts[2 + i]);
    }
    assert forall|i: int| 0 <= i < amounts.len() implies b2.contains_key(
        #[trigger] accounts[2 + (m as int) + i],
    ) && b2[accounts[2 + (m as int) + i]] == b[accounts[2 + (m as int) + i]] + amounts[i] by {
        assert(dests[i] == accounts[2 + (m as int) + i]);
    }
}

} // verus!
