use smart_executor::executor::{
    map_sequential, restore_order, smart_execute, ExecuteError, OrderedItem, THRESHOLD,
};
use std::time::{Duration, SystemTime};

#[test]
fn return_ok_with_one_item() {
    let params = vec![1];
    let inc_function = |i| i + 1;
    let result = smart_execute(params, inc_function).unwrap();
    assert_eq!(1, result.len());
    let first_item = result.first().expect("Can't fetch first item");
    assert_eq!(2, *first_item)
}

#[test]
fn return_ok_with_multiple_items() {
    let params: Vec<i32> = (0..100).collect();
    let inc_function = |i| i + 1;
    let result = smart_execute(params.clone(), inc_function).unwrap();
    assert_eq!(params.len(), result.len());
    let expected: Vec<i32> = params.iter().map(|i| inc_function(*i)).collect();
    assert_eq!(expected, result)
}

fn get_duration<F: Fn() -> T, T>(f: F) -> Duration {
    let start = SystemTime::now();
    let _result = f();
    let end = SystemTime::now();
    end.duration_since(start).unwrap()
}

#[test]
fn return_result_faster_than_single_thread() {
    let params: Vec<i32> = (0..40).collect();
    let inc_function = |i| {
        let start = SystemTime::now();
        while start.elapsed().unwrap() < Duration::from_millis(200) {
            std::hint::spin_loop();
        }
        i + 1
    };
    let duration = get_duration(|| assert!(smart_execute(params.clone(), inc_function).is_ok()));
    assert!(duration.lt(&Duration::from_millis(8000)))
}

#[test]
fn empty_input_gives_empty_output() {
    let params: Vec<u32> = Vec::new();
    assert_eq!(Ok(Vec::<u32>::new()), smart_execute(params, |x: u32| x + 1));
}

#[test]
fn threshold_and_one_more_agree_with_reference_map() {
    for n in [THRESHOLD, THRESHOLD + 1] {
        let params: Vec<u64> = (0..n as u64).map(|x| x * 7 + 3).collect();
        let f = |x: u64| x * x + 1;
        let expected: Vec<u64> = params.iter().map(|x| f(*x)).collect();
        let result = smart_execute(params.clone(), f).unwrap();
        assert_eq!(n, result.len());
        assert_eq!(expected, result);
    }
}

#[test]
fn parallel_path_keeps_input_order_for_uneven_work() {
    let params: Vec<u64> = (0..64).rev().collect();
    let f = |x: u64| {
        let mut acc: u64 = 0;
        for i in 0..(x * 2000) {
            acc = acc.wrapping_add(i);
        }
        x * 10 + (acc % 1)
    };
    let result = smart_execute(params.clone(), f).unwrap();
    let expected: Vec<u64> = params.iter().map(|x| x * 10).collect();
    assert_eq!(expected, result);
}

#[test]
fn repeated_runs_give_identical_outputs() {
    let params: Vec<i64> = (-30..30).collect();
    let f = |x: i64| 3 * x - 5;
    let first = smart_execute(params.clone(), f);
    let second = smart_execute(params.clone(), f);
    assert_eq!(first, second);
    let small: Vec<i64> = vec![4, -2, 9];
    assert_eq!(smart_execute(small.clone(), f), smart_execute(small, f));
}

#[test]
fn map_sequential_applies_in_order() {
    let params = vec![5u8, 0, 250];
    let f = |x: u8| x / 5;
    assert_eq!(vec![1u8, 0, 50], map_sequential(&params, &f));
}

#[test]
fn restore_order_lays_items_out_by_tag() {
    let tagged = vec![
        OrderedItem::new('c', 2),
        OrderedItem::new('a', 0),
        OrderedItem::new('d', 3),
        OrderedItem::new('b', 1),
    ];
    assert_eq!(Ok(vec!['a', 'b', 'c', 'd']), restore_order(&tagged, 4));
}

#[test]
fn restore_order_of_nothing_is_empty() {
    let tagged: Vec<OrderedItem<u8>> = Vec::new();
    assert_eq!(Ok(Vec::<u8>::new()), restore_order(&tagged, 0));
}

#[test]
fn restore_order_rejects_a_repeated_tag() {
    let tagged = vec![OrderedItem::new(10, 0), OrderedItem::new(11, 0)];
    assert_eq!(Err(ExecuteError::IncompleteResults), restore_order(&tagged, 2));
}

#[test]
fn restore_order_rejects_a_tag_out_of_range() {
    let tagged = vec![OrderedItem::new(10, 0), OrderedItem::new(11, 2)];
    assert_eq!(Err(ExecuteError::IncompleteResults), restore_order(&tagged, 2));
}

#[test]
fn restore_order_rejects_a_missing_result() {
    let tagged = vec![OrderedItem::new(10, 1)];
    assert_eq!(Err(ExecuteError::IncompleteResults), restore_order(&tagged, 2));
}
