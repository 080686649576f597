use momento_ws::ledger::{PendingCommand, PendingLedger};

#[test]
fn take_finds_each_id_exactly_once() {
    let mut l = PendingLedger::new();
    l.push_tail(PendingCommand { id: 0, token: 100 });
    l.push_tail(PendingCommand { id: 1, token: 101 });
    l.push_tail(PendingCommand { id: 2, token: 102 });
    assert_eq!(l.len(), 3);
    assert_eq!(l.take(1), Some(101));
    assert_eq!(l.len(), 2);
    assert_eq!(l.take(1), None);
    assert_eq!(l.take(2), Some(102));
    assert_eq!(l.take(0), Some(100));
    assert_eq!(l.len(), 0);
}

#[test]
fn take_unknown_id_leaves_ledger_alone() {
    let mut l = PendingLedger::new();
    l.push_tail(PendingCommand { id: 4, token: 40 });
    l.push_tail(PendingCommand { id: 9, token: 90 });
    assert_eq!(l.take(7), None);
    assert_eq!(l.len(), 2);
}

#[test]
fn drain_hands_out_all_tokens_in_order() {
    let mut l = PendingLedger::new();
    l.push_tail(PendingCommand { id: 10, token: 1 });
    l.push_tail(PendingCommand { id: 20, token: 2 });
    l.push_tail(PendingCommand { id: 30, token: 3 });
    assert_eq!(l.drain(), vec![1, 2, 3]);
    assert_eq!(l.len(), 0);
    assert_eq!(l.drain(), Vec::<u64>::new());
}

#[test]
fn ordered_search_works_at_both_ends() {
    let mut l = PendingLedger::new();
    let mut id: u64 = 0;
    while id < 7 {
        l.push_tail(PendingCommand { id, token: 1000 + id });
        id += 1;
    }
    assert_eq!(l.take(0), Some(1000));
    assert_eq!(l.take(6), Some(1006));
    assert_eq!(l.take(3), Some(1003));
    assert_eq!(l.len(), 4);
}
