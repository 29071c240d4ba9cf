use call_trace::account::{merge_account_state_in_overrides, AccountOverride, AccountState};
use call_trace::assoc::AssocList;
use call_trace::diff::StateDiff;
use call_trace::options::{get_trace_options_with_override, Tracer};
use call_trace::primitives::{Address, Key, Word};

fn w(value: u128) -> Word {
    Word::from_u128(value)
}

fn report(balance: Option<u128>, nonce: Option<u64>, code: Option<Vec<u8>>, storage: Vec<(u128, u128)>) -> AccountState {
    AccountState {
        balance: balance.map(w),
        nonce,
        code,
        storage: storage.into_iter().map(|(k, v)| (w(k), w(v))).collect(),
    }
}

#[test]
fn keys_compare_by_value() {
    assert!(Address::new(1, 2).same(&Address::new(1, 2)));
    assert!(!Address::new(1, 2).same(&Address::new(1, 3)));
    assert!(!Address::new(0, 2).same(&Address::new(1, 2)));
    assert!(Word::new(7, 9).same(&Word::new(7, 9)));
    assert!(!Word::new(7, 9).same(&Word::new(9, 7)));
    assert_eq!(Word::from_u128(5), Word { hi: 0, lo: 5 });
}

#[test]
fn assoc_list_insert_get_remove() {
    let mut m: AssocList<Word, Word> = AssocList::new();
    assert_eq!(m.len(), 0);
    assert_eq!(m.get(&w(1)), None);
    m.insert(w(1), w(10));
    m.insert(w(2), w(20));
    m.insert(w(1), w(11));
    assert_eq!(m.len(), 2);
    assert_eq!(m.get(&w(1)), Some(&w(11)));
    assert_eq!(m.get(&w(2)), Some(&w(20)));
    assert!(m.contains_key(&w(2)));
    assert_eq!(m.position(&w(2)), Some(1));
    assert_eq!(m.key_at(0), w(1));
    assert_eq!(*m.value_at(0), w(11));
    assert_eq!(m.remove(&w(1)), Some(w(11)));
    assert_eq!(m.remove(&w(1)), None);
    assert_eq!(m.len(), 1);
    assert!(!m.contains_key(&w(1)));
    assert_eq!(m.get(&w(2)), Some(&w(20)));
}

#[test]
fn merge_overwrites_balance_nonce_code() {
    let mut acc = AccountOverride::new();
    merge_account_state_in_overrides(&mut acc, report(Some(100), Some(1), Some(vec![0x60, 0x00]), vec![]));
    assert_eq!(acc.balance, Some(w(100)));
    assert_eq!(acc.nonce, Some(1));
    assert_eq!(acc.code, Some(vec![0x60, 0x00]));
    assert_eq!(acc.storage.len(), 0);
    merge_account_state_in_overrides(&mut acc, report(Some(90), None, None, vec![]));
    assert_eq!(acc.balance, Some(w(90)));
    assert_eq!(acc.nonce, None);
    assert_eq!(acc.code, None);
}

#[test]
fn merge_storage_slot_by_slot() {
    let mut acc = AccountOverride::new();
    merge_account_state_in_overrides(&mut acc, report(None, None, None, vec![(1, 10), (2, 20)]));
    merge_account_state_in_overrides(&mut acc, report(None, None, None, vec![(2, 21), (3, 30), (3, 31)]));
    assert_eq!(acc.storage.len(), 3);
    assert_eq!(acc.storage.get(&w(1)), Some(&w(10)));
    assert_eq!(acc.storage.get(&w(2)), Some(&w(21)));
    assert_eq!(acc.storage.get(&w(3)), Some(&w(31)));
}

#[test]
fn merging_in_two_steps_is_one_pass_over_both() {
    let x = Address::new(0, 1);
    let y = Address::new(0, 2);
    let a = || vec![(x, report(Some(1), Some(1), None, vec![(1, 1)])), (y, report(Some(5), None, None, vec![]))];
    let b = || vec![(x, report(Some(2), None, Some(vec![1]), vec![(2, 2), (1, 3)]))];

    let mut stepwise = StateDiff::new();
    stepwise.merge_trace(a());
    stepwise.merge_trace(b());

    let mut both = a();
    both.extend(b());
    let mut single = StateDiff::new();
    single.merge_trace(both);

    for diff in [&stepwise, &single] {
        assert_eq!(diff.len(), 2);
        let ax = diff.get(&x).unwrap();
        assert_eq!(ax.balance, Some(w(2)));
        assert_eq!(ax.nonce, None);
        assert_eq!(ax.code, Some(vec![1]));
        assert_eq!(ax.storage.len(), 2);
        assert_eq!(ax.storage.get(&w(1)), Some(&w(3)));
        assert_eq!(ax.storage.get(&w(2)), Some(&w(2)));
        let ay = diff.get(&y).unwrap();
        assert_eq!(ay.balance, Some(w(5)));
        assert_eq!(ay.storage.len(), 0);
    }
}

#[test]
fn merge_trace_applies_reports_in_order() {
    let x = Address::new(3, 4);
    let mut diff = StateDiff::new();
    assert!(diff.is_empty());
    diff.merge_trace(vec![
        (x, report(Some(1), Some(1), None, vec![(7, 1)])),
        (x, report(Some(2), Some(2), None, vec![(7, 2)])),
    ]);
    assert!(!diff.is_empty());
    assert_eq!(diff.len(), 1);
    let acc = diff.get(&x).unwrap();
    assert_eq!(acc.balance, Some(w(2)));
    assert_eq!(acc.nonce, Some(2));
    assert_eq!(acc.storage.get(&w(7)), Some(&w(2)));
    assert!(diff.get(&Address::new(4, 3)).is_none());
}

#[test]
fn duplicate_is_an_equal_and_separate_diff() {
    let x = Address::new(0, 9);
    let mut diff = StateDiff::new();
    diff.merge_account(x, report(Some(4), Some(2), Some(vec![1, 2, 3]), vec![(1, 2), (3, 4)]));
    let copy = diff.duplicate();
    diff.merge_account(x, report(Some(5), None, None, vec![(1, 9)]));
    let acc = copy.get(&x).unwrap();
    assert_eq!(copy.len(), 1);
    assert_eq!(acc.balance, Some(w(4)));
    assert_eq!(acc.nonce, Some(2));
    assert_eq!(acc.code, Some(vec![1, 2, 3]));
    assert_eq!(acc.storage.len(), 2);
    assert_eq!(acc.storage.get(&w(1)), Some(&w(2)));
    assert_eq!(acc.storage.get(&w(3)), Some(&w(4)));
    assert_eq!(diff.get(&x).unwrap().storage.get(&w(1)), Some(&w(9)));
}

#[test]
fn trace_options_select_the_account_state_tracer() {
    let x = Address::new(0, 9);
    let mut diff = StateDiff::new();
    diff.merge_account(x, report(Some(4), None, None, vec![]));
    let opts = get_trace_options_with_override(diff);
    assert_eq!(opts.tracer, Tracer::PreState);
    assert!(!opts.disable_storage);
    assert!(opts.disable_memory);
    assert!(opts.disable_return_data);
    assert!(opts.disable_stack);
    assert_eq!(opts.state_overrides.get(&x).unwrap().balance, Some(w(4)));
}
