use frc::frac::Frac;
use frc::Frc;
use frc::MergeErrKind;
use std::sync::atomic::{AtomicUsize, Ordering};
use std::sync::Arc;

struct Counted {
    drops: Arc<AtomicUsize>,
    tag: u32,
}

impl Drop for Counted {
    fn drop(&mut self) {
        self.drops.fetch_add(1, Ordering::SeqCst);
    }
}

#[test]
fn single_threaded() {
    let mut first = Frc::new(8);
    let mut split = first.split();
    assert_eq!(*first, *split);
    split.merge(first);
    assert_eq!(split.try_unwrap().ok(), Some(8));
}

#[test]
fn new_then_unwrap_returns_the_value() {
    assert_eq!(Frc::new(8).try_unwrap().ok(), Some(8));
    assert_eq!(Frc::new(String::from("Abra cadabra")).try_unwrap().ok(), Some(String::from("Abra cadabra")));
    assert_eq!(Frc::new(vec![1234]).try_unwrap().ok(), Some(vec![1234]));
    assert_eq!(Frc::new(()).try_unwrap().ok(), Some(()));
}

#[test]
fn new_is_whole() {
    let handle = Frc::new(5u8);
    assert!(handle.is_whole());
    assert!(handle.fraction().is_one());
    assert_eq!(*handle.get(), 5);
}

#[test]
fn split_then_merge_then_unwrap() {
    let mut first = Frc::new(8);
    let mut split = first.split();
    let mut split = split_back(split.try_unwrap());
    split.merge(first);
    assert!(split.is_whole());
    let inner = split.try_unwrap();
    assert!(inner.is_ok());
    assert_eq!(inner.ok(), Some(8));
}

fn split_back<T>(outcome: Result<T, Frc<T>>) -> Frc<T> {
    match outcome {
        Ok(_) => panic!("a handle that is not whole gave up its value"),
        Err(handle) => handle,
    }
}

#[test]
fn split_shares_the_pointee() {
    let mut first = Frc::new("Abra cadabra");
    let second = first.split();
    assert_eq!(*first, *second);
    assert!(std::ptr::eq(first.get(), second.get()));
    assert_eq!(first.addr(), second.addr());
}

#[test]
fn split_halves_both_handles() {
    let mut first = Frc::new(1u64);
    let second = first.split();
    assert_eq!((first.fraction().num(), first.fraction().den()), (1, 2));
    assert_eq!((second.fraction().num(), second.fraction().den()), (1, 2));
    assert!(first.can_split());
}

#[test]
fn merge_of_differing_depths_in_both_directions() {
    // `deep` is split three times more than `shallow`.
    let mut shallow = Frc::new(vec![1, 2, 3]);
    let mut deep = shallow.split();
    let mut a = deep.split();
    let mut b = a.split();
    let c = b.split();
    // shallow 1/2, deep 1/4, a 1/8, b 1/16, c 1/16
    assert!(shallow.try_merge(c).is_ok());
    assert_eq!((shallow.fraction().num(), shallow.fraction().den()), (9, 5));
    assert!(b.try_merge(shallow).is_ok());
    assert_eq!((b.fraction().num(), b.fraction().den()), (5, 4));
    assert!(b.try_merge(deep).is_ok());
    assert_eq!((b.fraction().num(), b.fraction().den()), (7, 4));
    assert!(a.try_merge(b).is_ok());
    assert!(a.is_whole());
    assert_eq!(a.try_unwrap().ok(), Some(vec![1, 2, 3]));
}

#[test]
fn unrelated_handles_are_not_merged() {
    let mut first = Frc::new(vec![1234]);
    let other = Frc::new(vec![4321]);
    let other_addr = other.addr();

    let err = match first.try_merge(other) {
        Ok(()) => panic!("two allocations were merged"),
        Err(err) => err,
    };
    assert!(matches!(err.kind(), MergeErrKind::IncompatibleFrcs));
    assert_eq!(err.to_string(), "Tried merging two Frcs owning different data!");
    let other = err.other;
    assert_eq!(other.addr(), other_addr);
    assert!(other.is_whole());
    assert!(first.is_whole());
    assert_eq!(*first, vec![1234]);
    assert_eq!(*other, vec![4321]);

    let mut second = first.split();
    assert!(second.try_merge(first).is_ok());
    assert_eq!(second.try_unwrap().ok(), Some(vec![1234]));
    assert_eq!(other.try_unwrap().ok(), Some(vec![4321]));
}

#[test]
fn unrelated_handles_with_equal_values_are_not_merged() {
    let mut first = Frc::new(7u8);
    let other = Frc::new(7u8);
    assert_ne!(first.addr(), other.addr());
    let err = first.try_merge(other).unwrap_err();
    assert!(matches!(err.kind(), MergeErrKind::IncompatibleFrcs));
}

#[test]
fn premature_unwrap_returns_the_handle() {
    let mut first = Frc::new(String::from("still here"));
    let second = first.split();
    let addr = first.addr();
    let first = split_back(first.try_unwrap());
    assert_eq!(first.addr(), addr);
    assert_eq!((first.fraction().num(), first.fraction().den()), (1, 2));
    assert_eq!(*first, "still here");
    assert_eq!(*second, "still here");
    let second = split_back(second.try_unwrap());
    assert_eq!(*second, "still here");
}

#[test]
fn overflow_is_reported_and_changes_nothing() {
    let bits = usize::BITS as usize;
    let mut shallow = Frc::new(3u32);
    let mut deep = shallow.split();
    let mut rest = Vec::new();
    for _ in 0..bits {
        rest.push(deep.split());
    }
    assert_eq!((shallow.fraction().num(), shallow.fraction().den()), (1, 2));
    assert_eq!((deep.fraction().num(), deep.fraction().den()), (1, 2 + bits));

    let err = shallow.try_merge(deep).unwrap_err();
    match err.kind() {
        MergeErrKind::FractionOverflow(info) => {
            assert_eq!((info.0.num(), info.0.den()), (1, 2));
            assert_eq!((info.1.num(), info.1.den()), (1, 2 + bits));
        },
        MergeErrKind::IncompatibleFrcs => panic!("the handles alias the same allocation"),
    }
    assert_eq!(
        err.to_string(),
        format!(
            "The inner fractions are too different (1/((2^2) - 1) and 1/((2^{}) - 1)), and adding them together causes an overflow!",
            2 + bits
        )
    );
    let mut deep = err.other;
    assert_eq!((shallow.fraction().num(), shallow.fraction().den()), (1, 2));
    assert_eq!((deep.fraction().num(), deep.fraction().den()), (1, 2 + bits));
    assert_eq!(*shallow, 3);
    assert_eq!(*deep, 3);

    // The other direction overflows as well; merging the deep side first
    // brings the family together again.
    let err = deep.try_merge(shallow).unwrap_err();
    assert!(matches!(err.kind(), MergeErrKind::FractionOverflow(_)));
    let shallow = err.other;
    while let Some(next) = rest.pop() {
        assert!(deep.try_merge(next).is_ok());
    }
    assert_eq!((deep.fraction().num(), deep.fraction().den()), (1, 2));
    assert!(deep.try_merge(shallow).is_ok());
    assert_eq!(deep.try_unwrap().ok(), Some(3));
}

#[test]
fn merge_unchecked_adds_the_shares() {
    let mut first = Frc::new(1u8);
    let second = first.split();
    assert!(first.merge_unchecked(second).is_ok());
    assert!(first.is_whole());
}

#[test]
fn merge_unchecked_reports_overflow_with_both_fractions() {
    let mut first = Frc::new(1u8);
    let second = Frc::new(1u8);
    let err = first.merge_unchecked(second).unwrap_err();
    match err.kind() {
        MergeErrKind::FractionOverflow(info) => {
            assert!(info.0.is_one());
            assert!(info.1.is_one());
        },
        MergeErrKind::IncompatibleFrcs => panic!("merge_unchecked does not compare the allocations"),
    }
    assert!(err.other.is_whole());
    assert!(first.is_whole());
}

#[test]
fn storage_still_held_elsewhere_is_not_given_up() {
    // Shares from another allocation make `first` whole on paper while
    // `second` still holds its storage.
    let mut first = Frc::new(1u8);
    let second = first.split();
    let mut elsewhere = Frc::new(2u8);
    let stray = elsewhere.split();
    assert!(first.merge_unchecked(stray).is_ok());
    assert!(first.is_whole());
    let first = split_back(first.try_unwrap());
    assert!(first.is_whole());
    assert_eq!(*first, 1);
    assert_eq!(*second, 1);
}

#[test]
fn the_value_is_released_exactly_once() {
    let drops = Arc::new(AtomicUsize::new(0));
    let mut first = Frc::new(Counted { drops: drops.clone(), tag: 17 });
    let mut second = first.split();
    let mut third = second.split();
    let fourth = third.split();
    assert_eq!(drops.load(Ordering::SeqCst), 0);

    third.merge(fourth);
    first.merge(third);
    assert_eq!(drops.load(Ordering::SeqCst), 0);
    let second = split_back(second.try_unwrap());
    assert_eq!(drops.load(Ordering::SeqCst), 0);
    first.merge(second);
    assert_eq!(drops.load(Ordering::SeqCst), 0);

    let value = match first.try_unwrap() {
        Ok(value) => value,
        Err(_) => panic!("a whole handle kept its value"),
    };
    assert_eq!(value.tag, 17);
    assert_eq!(drops.load(Ordering::SeqCst), 0);
    drop(value);
    assert_eq!(drops.load(Ordering::SeqCst), 1);
}

#[test]
fn dropping_a_partial_handle_keeps_the_value_alive() {
    let drops = Arc::new(AtomicUsize::new(0));
    let mut first = Frc::new(Counted { drops: drops.clone(), tag: 4 });
    let second = first.split();
    drop(first);
    assert_eq!(drops.load(Ordering::SeqCst), 0);
    assert_eq!(second.tag, 4);
    let second = split_back(second.try_unwrap());
    assert_eq!(second.tag, 4);
}

#[test]
fn a_boxed_value_becomes_a_whole_handle() {
    let boxed: Box<[u8]> = vec![1, 2, 3].into_boxed_slice();
    let mut handle: Frc<[u8]> = Frc::from(boxed);
    assert!(handle.is_whole());
    assert_eq!(&*handle, &[1, 2, 3]);
    let mut other = handle.split();
    assert_eq!(other.len(), 3);
    other.merge(handle);
    assert!(other.is_whole());

    let text: Frc<str> = Frc::from_box(String::from("unsized").into_boxed_str());
    assert_eq!(&*text, "unsized");
}

#[test]
fn handles_can_move_to_another_owner() {
    fn assert_send<T: Send>(_: &T) {}
    let mut first = Frc::new(5u64);
    let second = first.split();
    assert_send(&second);
    let moved = second;
    first.merge(moved);
    assert_eq!(first.try_unwrap().ok(), Some(5));
}

#[test]
fn fraction_of_a_handle_is_a_copy() {
    let mut first = Frc::new(0u8);
    let before: Frac = first.fraction();
    let _second = first.split();
    assert!(before.is_one());
    assert!(!first.fraction().is_one());
}

#[test]
fn unwrap_unchecked_succeeds_once_no_other_handle_is_left() {
    let mut f = Frc::new(8);
    let mut split = f.split();
    let third = split.split();
    let split = split_back(split.unwrap_unchecked());
    drop(f);
    let split = split_back(split.unwrap_unchecked());
    drop(third);
    assert!(!split.is_whole());
    assert_eq!(split.unwrap_unchecked().ok(), Some(8));
}
