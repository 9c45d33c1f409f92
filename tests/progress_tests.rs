use timely_progress::antichain::MutableAntichain;
use timely_progress::capability::{Capability, CapabilityError, CapabilityTrait, InputCapability, Internal};
use timely_progress::change_batch::{ChangeBatch, ProgressError};
use timely_progress::channels::{Message, Tee};
use timely_progress::handles::{new_input_handle, OutputWrapper, PullCounter};
use timely_progress::order::Product;

fn batch(entries: &[(u64, i64)]) -> ChangeBatch<u64> {
    let mut b = ChangeBatch::new();
    for &(t, d) in entries {
        b.update(t, d);
    }
    b
}

#[test]
fn change_batch_sums_and_compacts() {
    let mut b = batch(&[(1, 2), (2, 5), (1, -2)]);
    assert_eq!(b.get(&1), 0);
    assert_eq!(b.get(&2), 5);
    assert_eq!(b.len(), 1);
    assert!(!b.is_empty());
    let mut other = batch(&[(2, -5), (3, 1)]);
    b.drain_into(&mut other);
    assert!(b.is_empty());
    assert_eq!(other.get(&2), 0);
    assert_eq!(other.get(&3), 1);
    assert_eq!(other.len(), 1);
}

#[test]
fn change_batch_try_update_refuses_overflow() {
    let mut b = batch(&[(1, i64::MAX)]);
    assert_eq!(b.try_update(1, 1), Err(ProgressError::CountOverflow));
    assert_eq!(b.get(&1), i64::MAX);
    assert_eq!(b.try_update(1, -1), Ok(()));
    assert_eq!(b.get(&1), i64::MAX - 1);
}

#[test]
fn frontier_holds_minimal_elements_of_a_partial_order() {
    let mut a: MutableAntichain<Product> = MutableAntichain::new();
    assert!(a.is_empty());
    let mut c = ChangeBatch::new();
    c.update(Product::new(0, 1), 1);
    c.update(Product::new(1, 0), 1);
    c.update(Product::new(1, 1), 2);
    assert_eq!(a.update_iter(&c), Ok(()));
    let f = a.frontier();
    assert_eq!(f.len(), 2);
    assert!(f.contains(&Product::new(0, 1)));
    assert!(f.contains(&Product::new(1, 0)));
    assert!(a.less_equal(&Product::new(1, 1)));
    assert!(a.less_than(&Product::new(1, 1)));
    assert!(!a.less_equal(&Product::new(0, 5)));

    let mut d = ChangeBatch::new();
    d.update(Product::new(0, 1), -1);
    assert_eq!(a.update_iter(&d), Ok(()));
    assert_eq!(a.frontier(), &vec![Product::new(1, 0)]);
    let mut e = ChangeBatch::new();
    e.update(Product::new(1, 0), -1);
    assert_eq!(a.update_iter(&e), Ok(()));
    assert_eq!(a.frontier(), &vec![Product::new(1, 1)]);
    assert!(!a.is_empty());
}

#[test]
fn frontier_refuses_underflow_and_overflow() {
    let mut a: MutableAntichain<u64> = MutableAntichain::new();
    assert_eq!(a.update_iter(&batch(&[(4, 1)])), Ok(()));
    assert_eq!(a.update_iter(&batch(&[(4, -2)])), Err(ProgressError::FrontierUnderflow));
    assert_eq!(a.frontier(), &vec![4]);
    assert_eq!(a.update_iter(&batch(&[(4, i64::MAX)])), Err(ProgressError::CountOverflow));
    assert_eq!(a.frontier(), &vec![4]);
    assert_eq!(a.update_iter(&batch(&[(4, -1), (2, 1)])), Ok(()));
    assert_eq!(a.frontier(), &vec![2]);
    assert!(a.less_than(&3));
    assert!(!a.less_than(&2));
    assert!(a.less_equal(&2));
}

#[test]
fn capabilities_conserve_counts() {
    let mut internal: Internal<u64> = Internal::new(7);
    let a = Capability::new(1u64, &mut internal);
    let b = a.duplicate(&mut internal);
    assert_eq!(internal.get(&1), 2);
    let c = a.delayed(&3, &mut internal);
    assert_eq!(*c.time(), 3);
    assert_eq!(internal.get(&1), 2);
    assert_eq!(internal.get(&3), 1);
    let mut d = b;
    d.downgrade(&3, &mut internal).unwrap();
    assert_eq!(internal.get(&1), 1);
    assert_eq!(internal.get(&3), 2);
    a.release(&mut internal);
    c.release(&mut internal);
    assert_eq!(internal.get(&1), 0);
    assert_eq!(internal.get(&3), 1);
    d.release(&mut internal);
    assert_eq!(internal.get(&3), 0);
}

#[test]
fn delayed_refuses_earlier_or_incomparable_times() {
    let mut internal: Internal<Product> = Internal::new(0);
    let a = Capability::new(Product::new(1, 1), &mut internal);
    assert!(matches!(a.try_delayed(&Product::new(0, 2), &mut internal), Err(CapabilityError::InvalidCapability)));
    assert!(matches!(a.try_delayed(&Product::new(0, 0), &mut internal), Err(CapabilityError::InvalidCapability)));
    assert_eq!(internal.get(&Product::new(0, 0)), 0);
    let b = a.try_delayed(&Product::new(1, 1), &mut internal).unwrap();
    assert_eq!(*b.time(), Product::new(1, 1));
    let c = a.delayed(&Product::new(2, 5), &mut internal);
    assert_eq!(*c.time(), Product::new(2, 5));
    let mut d = c;
    assert_eq!(d.downgrade(&Product::new(2, 4), &mut internal), Err(CapabilityError::InvalidCapability));
    assert_eq!(*d.time(), Product::new(2, 5));
}

#[test]
fn session_requires_capability_of_the_same_output() {
    let mut internal_a: Internal<u64> = Internal::new(1);
    let mut internal_b: Internal<u64> = Internal::new(2);
    let cap_a = Capability::new(5u64, &mut internal_a);
    let cap_b = Capability::new(5u64, &mut internal_b);
    let mut out_b: OutputWrapper<u64, u32> = OutputWrapper::new(2);
    let handle = out_b.activate();
    assert!(!cap_a.valid_for_output(2));
    assert_eq!(handle.try_session(&cap_a), Err(CapabilityError::InvalidCapability));
    assert_eq!(handle.try_session(&cap_b), Ok(()));
    handle.session_with_builder(&cap_b);
    handle.session(&cap_b);
    assert_eq!(handle.give(4), Ok(()));
    let mut more = vec![5, 6];
    assert_eq!(handle.give_container(&mut more), Ok(()));
    assert!(more.is_empty());
    handle.cease();
    let sent = handle.take_outbox();
    assert_eq!(sent.len(), 1);
    assert_eq!(sent[0].time, 5);
    assert_eq!(sent[0].data, vec![4, 5, 6]);
    assert_eq!(handle.take_produced().get(&5), 3);
}

#[test]
fn input_handle_hands_out_batches_with_capabilities() {
    let mut counter: PullCounter<u64, u32> = PullCounter::new();
    counter.receive(vec![Message::new(2, vec![1, 2]), Message::new(3, vec![3])]);
    let mut input = new_input_handle(counter, vec![4, 5]);
    let (cap, data) = input.next().unwrap();
    assert_eq!(*cap.time(), 2);
    assert!(cap.valid_for_output(4));
    assert!(cap.valid_for_output(5));
    assert!(!cap.valid_for_output(6));
    let mut other: Internal<u64> = Internal::new(5);
    let at_five = cap.delayed(&2, &mut other);
    assert_eq!(at_five.port(), 5);
    assert_eq!(other.get(&2), 1);
    at_five.release(&mut other);
    assert_eq!(data, vec![1, 2]);
    let mut internal: Internal<u64> = Internal::new(4);
    assert!(cap.try_delayed(&1, &mut internal).is_err());
    let kept = cap.delayed(&6, &mut internal);
    assert_eq!(internal.get(&6), 1);
    kept.release(&mut internal);
    let total = input.for_each(0usize, |n, _c: InputCapability<u64>, d: Vec<u32>| n + d.len());
    assert_eq!(total, 1);
    assert!(input.next().is_none());
    let consumed = input.take_consumed();
    assert_eq!(consumed.get(&2), 2);
    assert_eq!(consumed.get(&3), 1);
}

#[test]
fn tee_delivers_every_message_to_every_destination() {
    let mut tee: Tee<u64, u32> = Tee::new();
    let d0 = tee.add_pusher();
    let d1 = tee.add_pusher();
    let d2 = tee.add_pusher();
    tee.push(&Message::new(1, vec![10]));
    tee.push(&Message::new(2, vec![20, 21]));
    for d in [d0, d1, d2] {
        let got = tee.take(d);
        assert_eq!(got.len(), 2);
        assert_eq!((got[0].time, got[0].data.clone()), (1, vec![10]));
        assert_eq!((got[1].time, got[1].data.clone()), (2, vec![20, 21]));
    }
    assert_eq!(tee.destinations(), 3);
}

#[test]
fn release_after_teardown_is_ignored() {
    let mut record: Option<Internal<u64>> = Some(Internal::new(3));
    let a = Capability::new(2u64, record.as_mut().unwrap());
    let b = a.duplicate(record.as_mut().unwrap());
    a.release_if_live(&mut record);
    assert_eq!(record.as_ref().unwrap().get(&2), 1);
    let mut gone: Option<Internal<u64>> = None;
    b.release_if_live(&mut gone);
    assert!(gone.is_none());
}
