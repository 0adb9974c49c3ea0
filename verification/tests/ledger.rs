use subscrypt::ledger::{LinkedList, ProcessReturningData};

fn filled(entries: &[(u64, u128)]) -> LinkedList {
    let mut list = LinkedList::new();
    for (day, amount) in entries {
        assert!(list.can_add(*amount));
        list.add_entry(*day, *amount);
    }
    list
}

fn assert_chain(list: &LinkedList, days: &[u64]) {
    assert_eq!(list.occupied_days(), days.to_vec());
    assert_eq!(list.length(), days.len() as u128);
    if let (Some(first), Some(last)) = (days.first(), days.last()) {
        assert_eq!(list.head(), *first);
        assert_eq!(list.back(), *last);
    }
    for pair in days.windows(2) {
        assert!(pair[0] < pair[1]);
    }
}

#[test]
fn new_ledger_is_empty() {
    let list = LinkedList::new();
    assert_eq!(list.length(), 0);
    assert_eq!(list.total(), 0);
    assert_eq!(list.occupied_days(), Vec::<u64>::new());
    assert_eq!(list.locked_at(0), None);
    let same = LinkedList::default();
    assert_eq!(same.length(), 0);
    assert_eq!(same.head(), 0);
    assert_eq!(same.back(), 0);
}

#[test]
fn first_entry_is_head_and_back() {
    let list = filled(&[(7, 40)]);
    assert_chain(&list, &[7]);
    assert_eq!(list.locked_at(7), Some(40));
    assert_eq!(list.total(), 40);
}

#[test]
fn entry_before_the_head_becomes_the_head() {
    let list = filled(&[(7, 40), (3, 10)]);
    assert_chain(&list, &[3, 7]);
    assert_eq!(list.locked_at(3), Some(10));
    assert_eq!(list.locked_at(7), Some(40));
}

#[test]
fn entry_behind_the_back_becomes_the_back() {
    let list = filled(&[(7, 40), (9, 10), (12, 5)]);
    assert_chain(&list, &[7, 9, 12]);
    assert_eq!(list.total(), 55);
}

#[test]
fn entry_between_two_days_is_spliced_in() {
    let list = filled(&[(1, 1), (10, 10), (5, 5), (7, 7), (3, 3)]);
    assert_chain(&list, &[1, 3, 5, 7, 10]);
    assert_eq!(list.locked_at(5), Some(5));
    assert_eq!(list.locked_at(4), None);
    assert_eq!(list.locked_at(6), None);
}

#[test]
fn entry_on_an_occupied_day_adds_to_its_bucket() {
    let list = filled(&[(1, 1), (5, 5), (10, 10), (5, 20)]);
    assert_chain(&list, &[1, 5, 10]);
    assert_eq!(list.locked_at(5), Some(25));
    assert_eq!(list.total(), 36);
}

#[test]
fn entry_on_the_back_day_adds_to_the_back() {
    let list = filled(&[(1, 1), (5, 5), (10, 10), (10, 7)]);
    assert_chain(&list, &[1, 5, 10]);
    assert_eq!(list.locked_at(10), Some(17));
    assert_eq!(list.total(), 23);
}

#[test]
fn entry_on_the_head_day_adds_to_the_head() {
    let list = filled(&[(1, 1), (5, 5), (1, 9)]);
    assert_chain(&list, &[1, 5]);
    assert_eq!(list.locked_at(1), Some(10));
}

#[test]
fn entry_on_the_only_day_adds_to_it() {
    let list = filled(&[(4, 1), (4, 2), (4, 3)]);
    assert_chain(&list, &[4]);
    assert_eq!(list.locked_at(4), Some(6));
}

#[test]
fn entries_in_any_order_give_an_ascending_chain() {
    let list = filled(&[(50, 1), (20, 1), (90, 1), (30, 1), (10, 1), (70, 1), (60, 1), (20, 1), (90, 1), (0, 1), (u64::MAX, 1)]);
    assert_chain(&list, &[0, 10, 20, 30, 50, 60, 70, 90, u64::MAX]);
    assert_eq!(list.total(), 11);
}

#[test]
fn bucket_holds_entries_less_releases() {
    let mut list = filled(&[(5, 100), (9, 30), (5, 50)]);
    list.remove_entry(5, 70);
    assert_eq!(list.locked_at(5), Some(80));
    list.add_entry(5, 1);
    list.remove_entry(9, 30);
    assert_eq!(list.locked_at(5), Some(81));
    assert_eq!(list.locked_at(9), Some(0));
    assert_eq!(list.total(), 81);
}

#[test]
fn emptied_bucket_stays_in_the_chain() {
    let mut list = filled(&[(1, 5), (2, 6), (3, 7)]);
    list.remove_entry(2, 6);
    assert_chain(&list, &[1, 2, 3]);
    assert_eq!(list.locked_at(2), Some(0));
    let outcome = list.process(3);
    assert_eq!(outcome.reduced_length, 3);
    assert_eq!(outcome.withdrawing_amount, 12);
}

#[test]
fn process_sums_the_days_up_to_the_cutoff() {
    let list = filled(&[(1, 5), (4, 6), (9, 7)]);
    assert_eq!(
        list.process(4),
        ProcessReturningData { withdrawing_amount: 11, current_linked_list_head: 9, reduced_length: 2 }
    );
    assert_eq!(
        list.process(5),
        ProcessReturningData { withdrawing_amount: 11, current_linked_list_head: 9, reduced_length: 2 }
    );
    assert_eq!(
        list.process(0),
        ProcessReturningData { withdrawing_amount: 0, current_linked_list_head: 1, reduced_length: 0 }
    );
    assert_eq!(
        list.process(1),
        ProcessReturningData { withdrawing_amount: 5, current_linked_list_head: 4, reduced_length: 1 }
    );
}

#[test]
fn process_reaches_the_back() {
    let list = filled(&[(1, 5), (4, 6), (9, 7)]);
    assert_eq!(
        list.process(9),
        ProcessReturningData { withdrawing_amount: 18, current_linked_list_head: 9, reduced_length: 3 }
    );
    assert_eq!(
        list.process(u64::MAX),
        ProcessReturningData { withdrawing_amount: 18, current_linked_list_head: 9, reduced_length: 3 }
    );
}

#[test]
fn process_leaves_the_ledger_as_it_is() {
    let list = filled(&[(1, 5), (4, 6), (9, 7)]);
    let _ = list.process(4);
    assert_chain(&list, &[1, 4, 9]);
    assert_eq!(list.total(), 18);
    assert_eq!(list.locked_at(1), Some(5));
}

#[test]
fn process_of_an_empty_ledger_yields_nothing() {
    let list = LinkedList::new();
    assert_eq!(
        list.process(100),
        ProcessReturningData { withdrawing_amount: 0, current_linked_list_head: 0, reduced_length: 0 }
    );
}

#[test]
fn settle_moves_the_head_past_the_settled_days() {
    let mut list = filled(&[(1, 5), (4, 6), (9, 7), (12, 8)]);
    let outcome = list.settle(4);
    assert_eq!(outcome, ProcessReturningData { withdrawing_amount: 11, current_linked_list_head: 9, reduced_length: 2 });
    assert_chain(&list, &[9, 12]);
    assert_eq!(list.locked_at(9), Some(7));
    assert_eq!(list.locked_at(12), Some(8));
    assert_eq!(list.locked_at(1), None);
    assert_eq!(list.locked_at(4), None);
    assert_eq!(list.total(), 15);
}

#[test]
fn settle_twice_yields_nothing_the_second_time() {
    let mut list = filled(&[(1, 5), (4, 6), (9, 7)]);
    assert_eq!(list.settle(4).withdrawing_amount, 11);
    let again = list.settle(4);
    assert_eq!(again, ProcessReturningData { withdrawing_amount: 0, current_linked_list_head: 9, reduced_length: 0 });
    let earlier = list.settle(2);
    assert_eq!(earlier.withdrawing_amount, 0);
    assert_chain(&list, &[9]);
}

#[test]
fn settle_of_everything_empties_the_ledger() {
    let mut list = filled(&[(1, 5), (4, 6)]);
    let outcome = list.settle(10);
    assert_eq!(outcome, ProcessReturningData { withdrawing_amount: 11, current_linked_list_head: 4, reduced_length: 2 });
    assert_eq!(list.length(), 0);
    assert_eq!(list.total(), 0);
    assert_eq!(list.occupied_days(), Vec::<u64>::new());
    assert_eq!(list.process(10).withdrawing_amount, 0);
}

#[test]
fn entry_on_a_settled_day_starts_a_new_bucket() {
    let mut list = filled(&[(1, 5), (4, 6), (9, 7)]);
    list.settle(4);
    list.add_entry(4, 2);
    assert_chain(&list, &[4, 9]);
    assert_eq!(list.locked_at(4), Some(2));
    list.add_entry(1, 3);
    assert_chain(&list, &[1, 4, 9]);
    assert_eq!(list.locked_at(1), Some(3));
    assert_eq!(list.total(), 12);
}

#[test]
fn entry_between_days_around_a_settled_day() {
    let mut list = filled(&[(5, 50), (10, 100)]);
    list.settle(5);
    list.add_entry(3, 30);
    assert_chain(&list, &[3, 10]);
    assert_eq!(list.locked_at(5), None);
    list.add_entry(5, 7);
    assert_chain(&list, &[3, 5, 10]);
    assert_eq!(list.locked_at(5), Some(7));
    assert_eq!(list.total(), 137);
}

#[test]
fn entry_into_an_emptied_ledger_starts_a_new_chain() {
    let mut list = filled(&[(1, 5), (4, 6)]);
    list.settle(4);
    list.add_entry(2, 9);
    assert_chain(&list, &[2]);
    assert_eq!(list.total(), 9);
    assert_eq!(list.locked_at(1), None);
}

#[test]
fn ledger_refuses_an_amount_beyond_128_bits() {
    let list = filled(&[(1, u128::MAX - 5)]);
    assert!(list.can_add(5));
    assert!(!list.can_add(6));
    assert!(!filled(&[(1, 1)]).can_add(u128::MAX));
}

#[test]
fn zero_amount_still_creates_a_bucket() {
    let list = filled(&[(3, 0)]);
    assert_chain(&list, &[3]);
    assert_eq!(list.locked_at(3), Some(0));
}

#[test]
fn default_ledger_is_empty() {
    let list: LinkedList = Default::default();
    assert_eq!(list.length(), 0);
    assert_eq!(list.total(), 0);
    assert!(list.can_add(u128::MAX));
}
