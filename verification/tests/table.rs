use mtproxy::framing::Framing;
use mtproxy::relay::{Phase, Settings, Side};
use mtproxy::table::{Table, MAX_SLOTS};

fn settings() -> Settings {
    Settings { buffer_capacity: 256, idle_timeout: 100, backend_framing: Framing::Intermediate }
}

fn tear_down(table: &mut Table, key: usize) {
    let slot = table.slot_mut(key).unwrap();
    slot.on_hangup(Side::Client);
    assert!(slot.try_close());
}

#[test]
fn new_table_is_empty() {
    let table = Table::new(10);
    assert_eq!(table.len(), 0);
    assert_eq!(table.capacity(), 10);
    assert_eq!(table.available(), 10);
    assert!(table.get(0).is_none());
}

#[test]
fn table_limit_is_cut_down_to_the_maximum() {
    assert_eq!(Table::new(usize::MAX).capacity(), MAX_SLOTS);
    assert_eq!(Table::new(MAX_SLOTS).capacity(), MAX_SLOTS);
}

#[test]
fn allocate_hands_out_keys_in_order() {
    let mut table = Table::new(10);
    assert_eq!(table.allocate(&settings(), 0), Some(0));
    assert_eq!(table.allocate(&settings(), 0), Some(1));
    assert_eq!(table.allocate(&settings(), 0), Some(2));
    assert_eq!(table.len(), 3);
    assert_eq!(table.available(), 7);
    assert!(table.get(1).is_some());
    assert!(table.get(3).is_none());
}

#[test]
fn allocate_refuses_at_the_limit() {
    let mut table = Table::new(2);
    assert_eq!(table.allocate(&settings(), 0), Some(0));
    assert_eq!(table.allocate(&settings(), 0), Some(1));
    assert_eq!(table.allocate(&settings(), 0), None);
    assert_eq!(table.len(), 2);
    tear_down(&mut table, 0);
    assert!(table.release(0));
    assert_eq!(table.allocate(&settings(), 0), Some(0));
    assert_eq!(table.allocate(&settings(), 0), None);
}

#[test]
fn table_without_room_allocates_nothing() {
    let mut table = Table::new(0);
    assert_eq!(table.allocate(&settings(), 0), None);
    assert_eq!(table.len(), 0);
}

#[test]
fn live_slot_is_not_released() {
    let mut table = Table::new(4);
    let key = table.allocate(&settings(), 0).unwrap();
    assert!(!table.release(key));
    assert_eq!(table.len(), 1);
    table.slot_mut(key).unwrap().on_hangup(Side::Client);
    assert_eq!(table.get(key).unwrap().phase(), Phase::Closing);
    assert!(!table.release(key));
    assert!(table.slot_mut(key).unwrap().try_close());
    assert!(table.release(key));
    assert_eq!(table.len(), 0);
    assert!(table.get(key).is_none());
}

#[test]
fn release_of_a_key_that_is_not_in_use_is_refused() {
    let mut table = Table::new(4);
    assert!(!table.release(0));
    assert!(!table.release(17));
    let key = table.allocate(&settings(), 0).unwrap();
    tear_down(&mut table, key);
    assert!(table.release(key));
    assert!(!table.release(key));
    assert_eq!(table.len(), 0);
}

#[test]
fn slot_that_failed_during_the_handshake_is_released() {
    let mut table = Table::new(4);
    let key = table.allocate(&settings(), 0).unwrap();
    {
        let slot = table.slot_mut(key).unwrap();
        let mut directory = mtproxy::directory::Directory::new();
        directory.insert(mtproxy::directory::BackendEndpoint {
            dc_id: 1,
            address: mtproxy::directory::Address::V4(1),
            port: 443,
        });
        slot.on_client_data(&[0; 16], None, &directory, &[0u8; 64], 1);
        assert_eq!(slot.phase(), Phase::Closing);
        assert!(slot.try_close());
    }
    assert!(table.release(key));
    assert_eq!(table.available(), 4);
}

#[test]
fn released_keys_are_reused_last_first() {
    let mut table = Table::new(10);
    for _ in 0..3 {
        table.allocate(&settings(), 0).unwrap();
    }
    for key in 0..3 {
        tear_down(&mut table, key);
    }
    assert!(table.release(1));
    assert!(table.release(0));
    assert!(table.release(2));
    assert_eq!(table.len(), 0);
    assert_eq!(table.available(), 10);
    assert_eq!(table.allocate(&settings(), 0), Some(2));
    assert_eq!(table.allocate(&settings(), 0), Some(0));
    assert_eq!(table.allocate(&settings(), 0), Some(1));
    assert_eq!(table.allocate(&settings(), 0), Some(3));
}

#[test]
fn allocating_and_releasing_many_leaves_no_trace() {
    let mut table = Table::new(200);
    let kept = table.allocate(&settings(), 5).unwrap();
    for round in 0..3 {
        let mut keys = Vec::new();
        for _ in 0..100 {
            keys.push(table.allocate(&settings(), 0).unwrap());
        }
        assert_eq!(table.len(), 101);
        // Release in an order of their own.
        let mut order: Vec<usize> = Vec::new();
        for i in 0..100 {
            order.push(keys[(i * 37 + round * 11) % 100]);
        }
        for key in &order {
            tear_down(&mut table, *key);
            assert!(table.release(*key));
        }
        assert_eq!(table.len(), 1);
        assert_eq!(table.available(), 199);
        assert_eq!(table.capacity(), 200);
        assert_eq!(table.get(kept).unwrap().phase(), Phase::Handshaking);
        for key in &keys {
            assert!(table.get(*key).is_none());
        }
        // The keys come back, the one released last first, and no new key.
        let mut again = Vec::new();
        for _ in 0..100 {
            again.push(table.allocate(&settings(), 0).unwrap());
        }
        order.reverse();
        assert_eq!(again, order);
        assert!(again.iter().all(|key| *key <= 100));
        for key in &again {
            tear_down(&mut table, *key);
            assert!(table.release(*key));
        }
    }
}

#[test]
fn reused_slot_shows_nothing_of_its_past() {
    let mut table = Table::new(4);
    let key = table.allocate(&settings(), 0).unwrap();
    {
        let slot = table.slot_mut(key).unwrap();
        let directory = mtproxy::directory::Directory::new();
        slot.on_client_data(&[0; 16], None, &directory, &[1, 2, 3], 1);
        assert_eq!(slot.budget(Side::Client), 253);
        slot.on_hangup(Side::Backend);
        assert!(slot.try_close());
    }
    assert!(table.release(key));
    let again = table.allocate(&settings(), 77).unwrap();
    assert_eq!(again, key);
    let slot = table.get(again).unwrap();
    assert_eq!(slot.phase(), Phase::Handshaking);
    assert_eq!(slot.dc_id(), None);
    assert_eq!(slot.budget(Side::Client), 256);
    assert!(slot.pending(Side::Client).is_empty());
    assert!(slot.pending(Side::Backend).is_empty());
}

#[test]
fn slot_mut_of_a_key_that_is_not_in_use_is_none() {
    let mut table = Table::new(4);
    assert!(table.slot_mut(0).is_none());
    table.allocate(&settings(), 0).unwrap();
    assert!(table.slot_mut(0).is_some());
    assert!(table.slot_mut(1).is_none());
}

#[test]
fn slots_do_not_share_state() {
    let mut table = Table::new(4);
    let a = table.allocate(&settings(), 0).unwrap();
    let b = table.allocate(&settings(), 0).unwrap();
    table.slot_mut(a).unwrap().on_hangup(Side::Client);
    assert_eq!(table.get(a).unwrap().phase(), Phase::Closing);
    assert_eq!(table.get(b).unwrap().phase(), Phase::Handshaking);
}
