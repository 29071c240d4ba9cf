//! The accumulated state changes of one block: for each touched account, its
//! partial state.

use vstd::prelude::*;
use crate::account::{
    empty_account, merge_account, merge_account_state_in_overrides, AccountModel, AccountOverride,
    AccountReport, AccountState,
};
use crate::assoc::{has_key, index_of, AssocList};
use crate::primitives::Address;

verus! {

/// The mathematical value of a [`StateDiff`].
pub type DiffModel = Map<Address, AccountModel>;

/// What is accumulated for `address` in `d`; nothing, where `d` has no entry.
pub open spec fn account_of(d: DiffModel, address: Address) -> AccountModel {
    if d.contains_key(address) {
        d[address]
    } else {
        empty_account()
    }
}

/// `d` after one account's report was merged into it.
pub open spec fn merge_touch(d: DiffModel, address: Address, report: AccountReport) -> DiffModel {
    d.insert(address, merge_account(account_of(d, address), report))
}

/// The mathematical value of a simulation's report: the touched accounts in
/// the order of the report.
pub open spec fn trace_view(trace: Seq<(Address, AccountState)>) -> Seq<(Address, AccountReport)> {
    Seq::new(trace.len(), |i: int| (trace[i].0, trace[i].1@))
}

/// `d` after a whole report was merged into it, account by account, first to
/// last.
pub open spec fn merge_trace(d: DiffModel, trace: Seq<(Address, AccountReport)>) -> DiffModel
    decreases trace.len(),
{
    if trace.len() == 0 {
        d
    } else {
        merge_touch(merge_trace(d, trace.drop_last()), trace.last().0, trace.last().1)
    }
}

/// The accumulated state changes of one block.
pub struct StateDiff {
    pub accounts: AssocList<Address, AccountOverride>,
}

impl View for StateDiff {
    type V = DiffModel;

    open spec fn view(&self) -> DiffModel {
        self.accounts@.map_values(|a: AccountOverride| a@)
    }
}

impl StateDiff {
    /// No account occurs twice, and each account's storage map holds no slot twice.
    pub open spec fn wf(&self) -> bool {
        &&& self.accounts.wf()
        &&& forall|a: Address| #[trigger]
            self.accounts@.contains_key(a) ==> self.accounts@[a].wf()
    }

    /// The diff that touches no account.
    pub fn new() -> (r: Self)
        ensures
            r.wf(),
            r@ == Map::<Address, AccountModel>::empty(),
    {
        let r = StateDiff { accounts: AssocList::new() };
        assert(r@ =~= Map::<Address, AccountModel>::empty());
        r
    }

    /// The number of touched accounts.
    pub fn len(&self) -> (n: usize)
        ensures
            n == self.accounts.pairs().len(),
            self.wf() ==> self@.dom().finite() && n == self@.dom().len(),
    {
        assert(self@.dom() =~= self.accounts@.dom());
        self.accounts.len()
    }

    /// Whether no account is touched.
    pub fn is_empty(&self) -> (r: bool)
        requires
            self.wf(),
        ensures
            r == (self@ == Map::<Address, AccountModel>::empty()),
    {
        let n = self.accounts.len();
        proof {
            if n > 0 {
                self.accounts.lemma_pair_in_view(0);
                assert(self@.contains_key(self.accounts.pairs()[0].0));
            } else {
                assert(self@ =~= Map::<Address, AccountModel>::empty());
            }
        }
        n == 0
    }

    /// What is accumulated for `address`.
    pub fn get(&self, address: &Address) -> (r: Option<&AccountOverride>)
        requires
            self.wf(),
        ensures
            match r {
                Some(account) => self@.contains_key(*address) && account@ == self@[*address]
                    && account.wf(),
                None => !self@.contains_key(*address),
            },
    {
        self.accounts.get(address)
    }

    /// Merges one account's report into the diff.
    pub fn merge_account(&mut self, address: Address, report: AccountState)
        requires
            old(self).wf(),
        ensures
            final(self).wf(),
            final(self)@ == merge_touch(old(self)@, address, report@),
    {
        let mut account = match self.accounts.remove(&address) {
            Some(account) => account,
            None => AccountOverride::new(),
        };
        assert(account@ == account_of(old(self)@, address));
        merge_account_state_in_overrides(&mut account, report);
        self.accounts.insert(address, account);
        assert(self@ =~= merge_touch(old(self)@, address, report@));
    }

    /// Merges a simulation's whole report into the diff, account by account
    /// in the order of the report.
    pub fn merge_trace(&mut self, trace: Vec<(Address, AccountState)>)
        requires
            old(self).wf(),
        ensures
            final(self).wf(),
            final(self)@ == merge_trace(old(self)@, trace_view(trace@)),
    {
        let ghost full = trace_view(trace@);
        let n: usize = trace.len();
        let mut rest = trace;
        let mut stack: Vec<(Address, AccountState)> = Vec::new();
        while rest.len() > 0
            invariant
                rest@.len() + stack@.len() == n,
                n == full.len(),
                forall|j: int| 0 <= j < rest@.len() ==> (#[trigger] rest@[j]).0 == full[j].0
                    && rest@[j].1@ == full[j].1,
                forall|j: int| 0 <= j < stack@.len() ==> (#[trigger] stack@[j]).0 == full[n - 1 - j].0
                    && stack@[j].1@ == full[n - 1 - j].1,
            decreases rest@.len(),
        {
            let item = rest.pop().unwrap();
            stack.push(item);
        }
        let mut done: usize = 0;
        while stack.len() > 0
            invariant
                self.wf(),
                done + stack@.len() == n,
                n == full.len(),
                forall|j: int| 0 <= j < stack@.len() ==> (#[trigger] stack@[j]).0 == full[n - 1 - j].0
                    && stack@[j].1@ == full[n - 1 - j].1,
                self@ == merge_trace(old(self)@, full.take(done as int)),
            decreases stack@.len(),
        {
            let item = stack.pop().unwrap();
            proof {
                assert(full.take(done + 1).drop_last() =~= full.take(done as int));
                assert(full.take(done + 1).last() == full[done as int]);
            }
            self.merge_account(item.0, item.1);
            done += 1;
        }
        proof {
            assert(full.take(n as int) =~= full);
        }
    }

    /// A copy of this diff.
    pub fn duplicate(&self) -> (r: Self)
        requires
            self.wf(),
        ensures
            r.wf(),
            r@ == self@,
    {
        let mut accounts: AssocList<Address, AccountOverride> = AssocList::new();
        let n: usize = self.accounts.len();
        let mut i: usize = 0;
        let ghost s = self.accounts.pairs();
        while i < n
            invariant
                self.wf(),
                s == self.accounts.pairs(),
                n == s.len(),
                i <= n,
                accounts.wf(),
                forall|a: Address| #[trigger]
                    accounts@.contains_key(a) <==> has_key(s.take(i as int), a),
                forall|j: int| 0 <= j < i ==> accounts@[(#[trigger] s[j]).0]@ == s[j].1@
                    && accounts@[s[j].0].wf(),
            decreases n - i,
        {
            let k = self.accounts.key_at(i);
            proof {
                self.accounts.lemma_pair_in_view(i as int);
            }
            let v = self.accounts.value_at(i).duplicate();
            let ghost prev = accounts@;
            accounts.insert(k, v);
            proof {
                let t = s.take(i as int);
                let t1 = s.take(i + 1);
                assert(t1[i as int] == s[i as int]);
                assert forall|a: Address| #[trigger]
                    accounts@.contains_key(a) <==> has_key(t1, a) by {
                    if has_key(t1, a) {
                        let j = index_of(t1, a);
                        if j < i {
                            assert(t[j].0 == a);
                        }
                    }
                    if has_key(t, a) {
                        let j = index_of(t, a);
                        assert(t1[j].0 == a);
                    }
                }
                assert forall|j: int| 0 <= j < i + 1 implies accounts@[(#[trigger] s[j]).0]@
                    == s[j].1@ && accounts@[s[j].0].wf() by {
                    if j < i {
                        assert(s[j].0 != s[i as int].0);
                    }
                }
            }
            i += 1;
        }
        let r = StateDiff { accounts };
        proof {
            assert(s.take(n as int) =~= s);
            assert forall|a: Address| #[trigger] r.accounts@.contains_key(a) implies r.accounts@[a].wf()
                && self.accounts@.contains_key(a) && r.accounts@[a]@ == self.accounts@[a]@ by {
                let j = index_of(s, a);
                self.accounts.lemma_pair_in_view(j);
            }
            assert(r@ =~= self@);
        }
        r
    }
}

} // verus!
