use timely_progress::capability::{Capability, Internal};
use timely_progress::change_batch::ChangeBatch;
use timely_progress::channels::Message;
use timely_progress::probe::{Handle, Probe, ProbeOperator};
use timely_progress::stream::{Scope, Source, StreamCore, Target};

/// The changes recorded at `internal`, moved into a fresh batch.
fn drained(internal: &mut Internal<u64>) -> ChangeBatch<u64> {
    let mut changes = ChangeBatch::new();
    internal.drain_into(&mut changes);
    changes
}

fn probed_input() -> (Scope<u64, u64>, StreamCore, Handle<u64>, ProbeOperator<u64, u64>) {
    let mut scope: Scope<u64, u64> = Scope::new(0);
    let registry = scope.new_tee();
    let stream = StreamCore::new(Source { node: 0, port: 0 }, registry, 0);
    let (handle, op) = stream.probe(&mut scope, 1);
    (scope, stream, handle, op)
}

#[test]
fn probe() {
    let (mut scope, _stream, mut probe, mut op) = probed_input();
    let mut internal: Internal<u64> = Internal::new(0);
    let mut cap = Capability::new(0u64, &mut internal);
    op.step(&mut scope, &mut probe, &drained(&mut internal)).unwrap();

    for round in 0..10u64 {
        assert!(!probe.done());
        assert!(probe.less_equal(&round));
        assert!(probe.less_than(&(round + 1)));
        cap.downgrade(&(round + 1), &mut internal).unwrap();
        op.step(&mut scope, &mut probe, &drained(&mut internal)).unwrap();
    }

    cap.release(&mut internal);
    op.step(&mut scope, &mut probe, &drained(&mut internal)).unwrap();
    op.step(&mut scope, &mut probe, &ChangeBatch::new()).unwrap();
    op.step(&mut scope, &mut probe, &ChangeBatch::new()).unwrap();
    op.step(&mut scope, &mut probe, &ChangeBatch::new()).unwrap();
    assert!(probe.done());
}

#[test]
fn probe_reports_each_round_and_finishes_after_last_drop() {
    let (mut scope, _stream, mut probe, mut op) = probed_input();
    let mut internal: Internal<u64> = Internal::new(0);
    let mut held = Capability::new(0u64, &mut internal);
    op.step(&mut scope, &mut probe, &drained(&mut internal)).unwrap();
    for round in 0..10u64 {
        assert!(probe.less_than(&(round + 1)));
        assert!(!probe.less_than(&round));
        assert!(!probe.done());
        let next = held.delayed(&(round + 1), &mut internal);
        held.release(&mut internal);
        held = next;
        op.step(&mut scope, &mut probe, &drained(&mut internal)).unwrap();
    }
    held.release(&mut internal);
    op.step(&mut scope, &mut probe, &drained(&mut internal)).unwrap();
    assert!(probe.done());
    // once done, later updates are ignored
    let mut late = ChangeBatch::new();
    late.update(20u64, 1);
    op.step(&mut scope, &mut probe, &late).unwrap();
    assert!(probe.done());
}

#[test]
fn probe_first_step_drops_initial_capability() {
    let (mut scope, _stream, mut probe, mut op) = probed_input();
    let progress = op.step(&mut scope, &mut probe, &ChangeBatch::new()).unwrap();
    assert_eq!(progress.internal.get(&0), -1);
    let progress = op.step(&mut scope, &mut probe, &ChangeBatch::new()).unwrap();
    assert_eq!(progress.internal.get(&0), 0);
}

#[test]
fn probe_counts_forwarded_records() {
    let (mut scope, stream, mut probe, mut op) = probed_input();
    scope.push(stream.ports(), &Message::new(3, vec![1, 2, 3]));
    scope.push(stream.ports(), &Message::new(4, vec![]));
    scope.push(stream.ports(), &Message::new(5, vec![9]));
    let mut frontier = ChangeBatch::new();
    frontier.update(3u64, 1);
    let progress = op.step(&mut scope, &mut probe, &frontier).unwrap();
    assert_eq!(progress.consumed.get(&3), 3);
    assert_eq!(progress.consumed.get(&4), 0);
    assert_eq!(progress.consumed.get(&5), 1);
    assert_eq!(progress.produced.get(&3), 3);
    assert_eq!(progress.produced.get(&5), 1);
    assert!(probe.less_equal(&3));
    assert!(!probe.less_than(&3));
}

#[test]
fn probe_rejects_underflow() {
    let (mut scope, _stream, mut probe, mut op) = probed_input();
    let mut frontier = ChangeBatch::new();
    frontier.update(1u64, -1);
    assert!(op.step(&mut scope, &mut probe, &frontier).is_err());
    assert!(probe.done());
}

#[test]
fn probe_output_stream_connects_downstream() {
    let mut scope: Scope<u64, u64> = Scope::new(0);
    let registry = scope.new_tee();
    let stream = StreamCore::new(Source { node: 0, port: 0 }, registry, 0);
    let mut handle = Handle::new();
    let (mut op, out) = stream.probe_with(&mut scope, &mut handle, 1);
    let dest = out.connect_to(&mut scope, Target { node: 2, port: 0 }, 9);
    scope.push(registry, &Message::new(1, vec![10, 20]));
    op.step(&mut scope, &mut handle, &ChangeBatch::new()).unwrap();
    let got = scope.take(out.ports(), dest);
    assert_eq!(got.len(), 1);
    assert_eq!(got[0].time, 1);
    assert_eq!(got[0].data, vec![10, 20]);
    assert_eq!(*out.name(), Source { node: 1, port: 0 });
}
