use std::cell::Cell;

use utilities::cache::object_pool::{make_fresh, PoolState};

#[test]
fn filled_pool_holds_fresh_objects() {
    let counter = Cell::new(0u32);
    let make = || {
        counter.set(counter.get() + 1);
        counter.get()
    };
    let pool = PoolState::filled(3, &make);
    assert_eq!(pool.available(), 3);
    assert_eq!(pool.capacity(), 3);
}

#[test]
fn take_one_hands_out_the_last_put_back() {
    let mut pool = PoolState::filled(2, &|| 0u32);
    assert_eq!(pool.take_one(), Some(0));
    assert_eq!(pool.put_back(7), None);
    assert_eq!(pool.take_one(), Some(7));
    assert_eq!(pool.take_one(), Some(0));
    assert_eq!(pool.take_one(), None);
    assert_eq!(pool.available(), 0);
}

#[test]
fn put_back_rejects_when_full() {
    let mut pool = PoolState::filled(1, &|| 1u8);
    assert_eq!(pool.put_back(2), Some(2));
    assert_eq!(pool.available(), 1);
    assert_eq!(pool.take_one(), Some(1));
}

#[test]
fn resize_keeps_oldest_and_makes_new_ones() {
    let mut pool = PoolState::filled(3, &|| 5u16);
    assert_eq!(pool.take_one(), Some(5));
    assert_eq!(pool.put_back(9), None); // pool: 5, 5, 9
    pool.resize(2, &|| 0u16); // pool: 5, 5
    assert_eq!(pool.capacity(), 2);
    assert_eq!(pool.available(), 2);
    pool.resize(4, &|| 1u16); // pool: 5, 5, 1, 1
    assert_eq!(pool.available(), 4);
    assert_eq!(pool.take_one(), Some(1));
    assert_eq!(pool.take_one(), Some(1));
    assert_eq!(pool.take_one(), Some(5));
    assert_eq!(pool.take_one(), Some(5));
    assert_eq!(pool.take_one(), None);
}

#[test]
fn refill_takes_in_order_while_there_is_room() {
    let mut pool = PoolState::filled(3, &|| 0u8);
    assert_eq!(pool.take_one(), Some(0));
    assert_eq!(pool.take_one(), Some(0)); // pool: 0
    pool.refill(vec![1, 2, 3]); // room for two: pool 0, 1, 2
    assert_eq!(pool.available(), 3);
    assert_eq!(pool.take_one(), Some(2));
    assert_eq!(pool.take_one(), Some(1));
    assert_eq!(pool.take_one(), Some(0));
}

#[test]
fn clear_keeps_capacity() {
    let mut pool = PoolState::filled(2, &|| 4u8);
    pool.clear();
    assert_eq!(pool.available(), 0);
    assert_eq!(pool.capacity(), 2);
    assert_eq!(pool.put_back(9), None);
}

#[test]
fn take_or_make_prefers_a_pooled_object() {
    let mut pool = PoolState::filled(2, &|| 5u8);
    pool.put_back(9);
    let mut pool2 = PoolState::filled(1, &|| 5u8);
    assert_eq!(pool2.take_or_make(&|| 1u8), 5);
    assert_eq!(pool2.available(), 0);
    assert_eq!(pool2.take_or_make(&|| 1u8), 1);
    assert_eq!(pool2.available(), 0);
    assert_eq!(pool2.capacity(), 1);
    assert_eq!(pool.take_or_make(&|| 1u8), 5);
}

#[test]
fn make_fresh_makes_objects_in_order() {
    let counter = Cell::new(0u8);
    let make = || {
        counter.set(counter.get() + 1);
        counter.get()
    };
    assert_eq!(make_fresh(3, &make), vec![1, 2, 3]);
}
