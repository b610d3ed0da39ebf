use trading::{LatestIter, LatestIterExt, LoopIter, LoopIterExt, SliceIter, SliceIterExt};

fn forward(mut it: LatestIter<i32>) -> Vec<i32> {
    let mut out = vec![];
    while let Some(x) = it.next() {
        out.push(x.clone());
    }
    out
}

fn backward(mut it: LatestIter<i32>) -> Vec<i32> {
    let mut out = vec![];
    while let Some(x) = it.next_back() {
        out.push(x.clone());
    }
    out
}

fn round(mut it: LoopIter<i32>) -> Vec<i32> {
    let mut out = vec![];
    while let Some(x) = it.next() {
        out.push(x.clone());
    }
    out
}

#[test]
fn latest() {
    let items: Vec<i32> = vec![0, 1, 2, 3, 4, 5, 6, 7, 8, 9];
    let out: Vec<i32> = forward(items.latest_iter(3, 0));
    assert_eq!(out, vec![7, 8, 9]);

    let out: Vec<i32> = backward(items.latest_iter(3, 0));
    assert_eq!(out, vec![9, 8, 7]);

    let out: Vec<i32> = forward(items.latest_iter(3, 3));
    assert_eq!(out, vec![4, 5, 6]);

    let out: Vec<i32> = forward(items.latest_iter(3, 8));
    assert_eq!(out, vec![0, 1]);

    let out: Vec<i32> = backward(items.latest_iter(3, 8));
    assert_eq!(out, vec![1, 0]);

    let out: Vec<i32> = forward(items.latest_iter(3, 9));
    assert_eq!(out, vec![0]);

    let out: Vec<i32> = forward(items.latest_iter(3, 10));
    assert!(out.is_empty());

    let out: Vec<i32> = forward(items.latest_iter(3, 11));
    assert!(out.is_empty());

    let out: Vec<i32> = forward(items.latest_iter(10, 5));
    assert_eq!(out, vec![0, 1, 2, 3, 4]);

    let out: Vec<i32> = backward(items.latest_iter(10, 5));
    assert_eq!(out, vec![4, 3, 2, 1, 0]);
}

#[test]
fn latest_empty() {
    let items: Vec<i32> = vec![0, 1, 2, 3, 4, 5, 6, 7, 8, 9];
    let out: Vec<i32> = forward(items.latest_iter(usize::MAX, 9));
    println!("{:?}", out);
    assert_eq!(out, vec![0]);
}

#[test]
fn latest_from_both_ends() {
    let items: Vec<i32> = vec![0, 1, 2, 3, 4, 5];
    let mut it = items.latest_iter(4, 1);
    assert_eq!(Some(&1), it.next());
    assert_eq!(Some(&4), it.next_back());
    assert_eq!(Some(&2), it.next());
    assert_eq!(Some(&3), it.next_back());
    assert_eq!(None, it.next());
    assert_eq!(None, it.next_back());
    let none: Vec<i32> = vec![];
    assert!(forward(none.latest_iter(3, 0)).is_empty());
    assert!(forward(items.latest_iter(0, 0)).is_empty());
    assert_eq!(forward(items.latest_iter(usize::MAX, usize::MAX)), Vec::<i32>::new());
    assert_eq!(forward(items.latest_iter(usize::MAX, 0)), items);
}

#[test]
fn iter() {
    let items = vec![0, 1, 2, 3, 4, 5, 6, 7, 8, 9];
    let mut it = items.loop_iter(1);

    let out = it.next().unwrap();
    assert_eq!(out, &1);

    let out = it.next().unwrap();
    assert_eq!(out, &2);

    let mut it = items.loop_iter(4);
    let out = it.next().unwrap();
    assert_eq!(out, &4);

    let b: Vec<i32> = round(items.loop_iter(3));
    assert_eq!(b, vec![3, 4, 5, 6, 7, 8, 9, 0, 1, 2]);
}

#[test]
fn loop_from_the_ends() {
    let items = vec![0, 1, 2];
    assert_eq!(round(items.loop_iter(0)), vec![0, 1, 2]);
    assert_eq!(round(items.loop_iter(2)), vec![2, 0, 1]);
    let one = vec![7];
    assert_eq!(round(one.loop_iter(0)), vec![7]);
    let mut past = items.loop_iter(5);
    assert_eq!(None, past.next());
}

#[derive(Debug)]
struct Num {
    n: i32,
}

impl Drop for Num {
    fn drop(&mut self) {
        println!("drop {}", self.n);
    }
}

#[test]
fn test() {
    let v: Vec<Num> = vec![1, 2, 3, 4, 5, 6, 7, 8, 9, 10].iter().map(|&n| Num { n }).collect();
    let mut v = v.slice_iter(3);
    for _ in 0..3 {
        let items = v.next();
        assert!(items.is_some());
        assert_eq!(3, items.unwrap().len());
    }

    let items = v.next();
    assert!(items.is_some());
    assert_eq!(1, items.unwrap().len());
}

#[test]
fn slices_hold_the_elements_in_order() {
    let items = vec![1, 2, 3, 4, 5];
    let mut it = SliceIter::new(&items, 2);
    assert_eq!(Some(vec![&1, &2]), it.next());
    assert_eq!(Some(vec![&3, &4]), it.next());
    assert_eq!(Some(vec![&5]), it.next());
    assert_eq!(None, it.next());
    assert_eq!(None, it.next());
    let mut none = items.slice_iter(0);
    assert_eq!(None, none.next());
    let mut all = items.slice_iter(usize::MAX);
    assert_eq!(5, all.next().unwrap().len());
    assert_eq!(None, all.next());
    let mut exact = items.slice_iter(5);
    assert_eq!(5, exact.next().unwrap().len());
    assert_eq!(None, exact.next());
}
