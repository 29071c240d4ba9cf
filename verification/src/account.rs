//! Per-account state: what one simulation reports, and what has been
//! accumulated over several of them.

use vstd::prelude::*;
use crate::assoc::AssocList;
use crate::primitives::Word;

verus! {

/// What one simulation reports of one account it touched.
#[derive(Debug)]
pub struct AccountState {
    pub balance: Option<Word>,
    pub nonce: Option<u64>,
    pub code: Option<Vec<u8>>,
    /// The storage slots it reports, each with its value, in the order of the report.
    pub storage: Vec<(Word, Word)>,
}

/// The mathematical value of an [`AccountState`].
pub struct AccountReport {
    pub balance: Option<Word>,
    pub nonce: Option<u64>,
    pub code: Option<Seq<u8>>,
    pub storage: Seq<(Word, Word)>,
}

/// The view of an optional byte string.
pub open spec fn code_view(code: Option<Vec<u8>>) -> Option<Seq<u8>> {
    match code {
        Some(bytes) => Some(bytes@),
        None => None,
    }
}

impl View for AccountState {
    type V = AccountReport;

    open spec fn view(&self) -> AccountReport {
        AccountReport {
            balance: self.balance,
            nonce: self.nonce,
            code: code_view(self.code),
            storage: self.storage@,
        }
    }
}

/// The accumulated partial state of one account, as it is handed to the next
/// simulation.
pub struct AccountOverride {
    pub balance: Option<Word>,
    pub nonce: Option<u64>,
    pub code: Option<Vec<u8>>,
    /// The overridden storage slots, each with its latest value.
    pub storage: AssocList<Word, Word>,
}

/// The mathematical value of an [`AccountOverride`].
pub struct AccountModel {
    pub balance: Option<Word>,
    pub nonce: Option<u64>,
    pub code: Option<Seq<u8>>,
    pub storage: Map<Word, Word>,
}

/// The override that says nothing of an account.
pub open spec fn empty_account() -> AccountModel {
    AccountModel { balance: None, nonce: None, code: None, storage: Map::empty() }
}

/// `m` after the slots of a report were written into it one by one, first to last.
pub open spec fn apply_slots(m: Map<Word, Word>, slots: Seq<(Word, Word)>) -> Map<Word, Word>
    decreases slots.len(),
{
    if slots.len() == 0 {
        m
    } else {
        apply_slots(m, slots.drop_last()).insert(slots.last().0, slots.last().1)
    }
}

/// The accumulated state `acc` after one report on the same account: balance,
/// nonce and code are those of the report, whatever they were before; each
/// reported slot takes its reported value; the other slots stay.
pub open spec fn merge_account(acc: AccountModel, report: AccountReport) -> AccountModel {
    AccountModel {
        balance: report.balance,
        nonce: report.nonce,
        code: report.code,
        storage: apply_slots(acc.storage, report.storage),
    }
}

impl View for AccountOverride {
    type V = AccountModel;

    open spec fn view(&self) -> AccountModel {
        AccountModel {
            balance: self.balance,
            nonce: self.nonce,
            code: code_view(self.code),
            storage: self.storage@,
        }
    }
}

/// A copy of an optional byte string.
pub fn copy_code(code: &Option<Vec<u8>>) -> (r: Option<Vec<u8>>)
    ensures
        code_view(r) == code_view(*code),
{
    match code {
        Some(bytes) => {
            let mut out: Vec<u8> = Vec::new();
            let n: usize = bytes.len();
            let mut i: usize = 0;
            while i < n
                invariant
                    n == bytes@.len(),
                    i <= n,
                    out@ == bytes@.take(i as int),
                decreases n - i,
            {
                out.push(bytes[i]);
                assert(bytes@.take(i + 1) =~= bytes@.take(i as int).push(bytes@[i as int]));
                i += 1;
            }
            assert(bytes@.take(n as int) =~= bytes@);
            Some(out)
        },
        None => None,
    }
}

impl AccountOverride {
    /// The storage map holds no slot twice.
    pub open spec fn wf(&self) -> bool {
        self.storage.wf()
    }

    /// The override that says nothing of an account.
    pub fn new() -> (r: Self)
        ensures
            r.wf(),
            r@ == empty_account(),
    {
        AccountOverride { balance: None, nonce: None, code: None, storage: AssocList::new() }
    }

    /// A copy of this override.
    pub fn duplicate(&self) -> (r: Self)
        requires
            self.wf(),
        ensures
            r.wf(),
            r@ == self@,
    {
        let storage = self.storage.duplicate();
        AccountOverride {
            balance: self.balance,
            nonce: self.nonce,
            code: copy_code(&self.code),
            storage,
        }
    }
}

/// Brings one simulation's report on an account into what has been
/// accumulated for it. Balance, nonce and code are overwritten by the
/// report's; the reported storage slots are written over the accumulated
/// ones, slot by slot, and the slots that the report does not name stay.
pub fn merge_account_state_in_overrides(account_override: &mut AccountOverride, value: AccountState)
    requires
        old(account_override).wf(),
    ensures
        final(account_override).wf(),
        final(account_override)@ == merge_account(old(account_override)@, value@),
{
    let AccountState { balance, nonce, code, storage } = value;
    account_override.balance = balance;
    account_override.nonce = nonce;
    account_override.code = code;
    let ghost before = account_override.storage@;
    let n: usize = storage.len();
    let mut i: usize = 0;
    while i < n
        invariant
            n == storage@.len(),
            i <= n,
            account_override.storage.wf(),
            account_override.storage@ == apply_slots(before, storage@.take(i as int)),
            account_override.balance == balance,
            account_override.nonce == nonce,
            account_override.code == code,
        decreases n - i,
    {
        let slot = storage[i];
        proof {
            assert(storage@.take(i + 1).drop_last() =~= storage@.take(i as int));
        }
        account_override.storage.insert(slot.0, slot.1);
        i += 1;
    }
    proof {
        assert(storage@.take(n as int) =~= storage@);
    }
}

} // verus!
