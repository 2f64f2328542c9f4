use wfqueue::{DequeueCtx, EnqueueCtx, Index, NonZeroWord, WfQueue, MAX_TRY};

fn word(w: usize) -> NonZeroWord {
    NonZeroWord::new(w).unwrap()
}

#[test]
fn one_thread() {
    let queue = WfQueue::new(3);
    let mut ecx = EnqueueCtx::new();
    let mut dcx = DequeueCtx::new();

    let val = word(0x42);
    assert!(queue.try_enqueue(&mut ecx, val));
    let val2 = queue.try_dequeue(&mut dcx).unwrap();
    assert_eq!(val, val2);

    assert!(queue.try_dequeue(&mut dcx).is_none());

    let valx = word(0x42);
    let valy = word(0x43);
    let valz = word(0x44);
    assert!(queue.try_enqueue(&mut ecx, valx));
    assert!(queue.try_enqueue(&mut ecx, valy));
    assert!(queue.try_enqueue(&mut ecx, valz));
    assert!(!queue.try_enqueue(&mut ecx, valz));

    let valx2 = queue.try_dequeue(&mut dcx).unwrap();
    let valy2 = queue.try_dequeue(&mut dcx).unwrap();
    let valz2 = queue.try_dequeue(&mut dcx).unwrap();
    assert_eq!(valx, valx2);
    assert_eq!(valy, valy2);
    assert_eq!(valz, valz2);
}

#[test]
fn codegen_test_codegen_simple() {
    let queue = WfQueue::new(3);
    let mut ecx = EnqueueCtx::new();
    let mut dcx = DequeueCtx::new();

    assert!(queue.try_enqueue(&mut ecx, word(0x42)));
    let output = queue.try_dequeue(&mut dcx).unwrap();

    assert_eq!(output.get(), 0x42);
}

#[test]
fn round_trip_then_empty() {
    let queue = WfQueue::new(3);
    let mut ecx = EnqueueCtx::new();
    let mut dcx = DequeueCtx::new();

    assert!(queue.try_enqueue(&mut ecx, word(0x42)));
    assert_eq!(queue.try_dequeue(&mut dcx), Some(word(0x42)));
    assert_eq!(queue.try_dequeue(&mut dcx), None);
}

#[test]
fn fill_to_capacity() {
    let queue = WfQueue::new(3);
    let mut ecx = EnqueueCtx::new();
    let mut dcx = DequeueCtx::new();

    assert!(queue.try_enqueue(&mut ecx, word(0x42)));
    assert!(queue.try_enqueue(&mut ecx, word(0x43)));
    assert!(queue.try_enqueue(&mut ecx, word(0x44)));
    assert!(!queue.try_enqueue(&mut ecx, word(0x44)));

    let mut out: Vec<usize> = Vec::new();
    for _ in 0..3 {
        out.push(queue.try_dequeue(&mut dcx).unwrap().get());
    }
    out.sort();
    assert_eq!(out, vec![0x42, 0x43, 0x44]);
    assert_eq!(queue.try_dequeue(&mut dcx), None);
}

/// Pushes `items` through `queue`, taking a word out whenever the queue is
/// busy, then drains what is left.
fn pass_through(queue: &WfQueue, items: &[usize]) -> Vec<usize> {
    let mut ecx = EnqueueCtx::new();
    let mut dcx = DequeueCtx::new();
    let mut out: Vec<usize> = Vec::new();
    for &i in items {
        let mut tries = 0;
        while !queue.try_enqueue(&mut ecx, word(i)) {
            if let Some(w) = queue.try_dequeue(&mut dcx) {
                out.push(w.get());
            }
            tries += 1;
            assert!(tries < 100);
        }
    }
    let mut tries = 0;
    while out.len() < items.len() {
        if let Some(w) = queue.try_dequeue(&mut dcx) {
            out.push(w.get());
        }
        tries += 1;
        assert!(tries < 100);
    }
    out
}

#[test]
fn five_items_through_three_cells() {
    let queue = WfQueue::new(3);
    let mut out = pass_through(&queue, &[0x42, 0x43, 0x44, 0x45, 0x46]);
    out.sort();
    assert_eq!(out, vec![0x42, 0x43, 0x44, 0x45, 0x46]);
    assert!(queue.try_dequeue(&mut DequeueCtx::new()).is_none());
}

#[test]
fn two_producers_one_consumer_interleaved() {
    let queue = WfQueue::new(3);
    let mut e1 = EnqueueCtx::new();
    let mut e2 = EnqueueCtx::new();
    let mut dcx = DequeueCtx::new();
    assert!(queue.try_enqueue(&mut e1, word(0x42)));
    assert!(queue.try_enqueue(&mut e2, word(0x44)));
    assert!(queue.try_enqueue(&mut e1, word(0x43)));
    let mut out: Vec<usize> = Vec::new();
    out.push(queue.try_dequeue(&mut dcx).unwrap().get());
    assert!(queue.try_enqueue(&mut e2, word(0x45)));
    let mut tries = 0;
    while out.len() < 4 {
        if let Some(w) = queue.try_dequeue(&mut dcx) {
            out.push(w.get());
        }
        tries += 1;
        assert!(tries < 100);
    }
    out.sort();
    assert_eq!(out, vec![0x42, 0x43, 0x44, 0x45]);
}

#[test]
fn one_producer_two_consumers_interleaved() {
    let queue = WfQueue::new(3);
    let mut ecx = EnqueueCtx::new();
    let mut d1 = DequeueCtx::new();
    let mut d2 = DequeueCtx::new();
    let mut first: Vec<usize> = Vec::new();
    let mut second: Vec<usize> = Vec::new();
    assert!(queue.try_enqueue(&mut ecx, word(0x42)));
    assert!(queue.try_enqueue(&mut ecx, word(0x43)));
    first.push(queue.try_dequeue(&mut d1).unwrap().get());
    assert!(queue.try_enqueue(&mut ecx, word(0x44)));
    let mut tries = 0;
    while !queue.try_enqueue(&mut ecx, word(0x45)) {
        tries += 1;
        assert!(tries < 100);
    }
    let mut tries = 0;
    while second.len() < 2 {
        if let Some(w) = queue.try_dequeue(&mut d2) {
            second.push(w.get());
        }
        tries += 1;
        assert!(tries < 100);
    }
    let mut tries = 0;
    while first.len() < 2 {
        if let Some(w) = queue.try_dequeue(&mut d1) {
            first.push(w.get());
        }
        tries += 1;
        assert!(tries < 100);
    }
    first.append(&mut second);
    first.sort();
    assert_eq!(first, vec![0x42, 0x43, 0x44, 0x45]);
}

#[test]
fn busy_enqueue_keeps_the_word_and_hints_the_claimed_cell() {
    let queue = WfQueue::new(1);
    let mut ecx = EnqueueCtx::new();
    let mut dcx = DequeueCtx::new();
    assert!(queue.try_enqueue(&mut ecx, word(7)));
    let rejected = word(8);
    assert!(!queue.try_enqueue(&mut ecx, rejected));
    assert_eq!(rejected.get(), 8);
    assert_eq!(queue.try_dequeue(&mut dcx), Some(word(7)));
    // The hinted cell is tried first and is empty now.
    assert!(queue.try_enqueue(&mut ecx, rejected));
    assert_eq!(queue.try_dequeue(&mut dcx), Some(word(8)));
    assert_eq!(queue.try_dequeue(&mut dcx), None);
}

#[test]
fn empty_dequeue_then_later_word_arrives() {
    let queue = WfQueue::new(2);
    let mut ecx = EnqueueCtx::new();
    let mut dcx = DequeueCtx::new();
    assert_eq!(queue.try_dequeue(&mut dcx), None);
    assert!(queue.try_enqueue(&mut ecx, word(0x99)));
    assert_eq!(queue.try_dequeue(&mut dcx), Some(word(0x99)));
}

#[test]
fn observers_are_advisory() {
    let queue = WfQueue::new(3);
    let mut ecx = EnqueueCtx::new();
    assert_eq!(queue.capacity(), 3);
    assert_eq!(queue.len(), 0);
    assert!(queue.is_empty());
    assert!(!queue.is_full());
    assert!(queue.try_enqueue(&mut ecx, word(1)));
    assert!(queue.try_enqueue(&mut ecx, word(2)));
    assert!(queue.try_enqueue(&mut ecx, word(3)));
    assert_eq!(queue.len(), 3);
    assert!(queue.is_full());
    // A busy enqueue still claims a slot, so the count overshoots the capacity.
    assert!(!queue.try_enqueue(&mut ecx, word(4)));
    assert_eq!(queue.len(), 4);
    assert!(!queue.is_full());
    assert!(!queue.is_empty());
    assert_eq!(queue.capacity(), 3);
}

#[test]
fn consumer_ahead_of_producer_reads_zero_len() {
    let queue = WfQueue::new(2);
    let mut dcx = DequeueCtx::new();
    assert_eq!(queue.try_dequeue(&mut dcx), None);
    assert_eq!(queue.try_dequeue(&mut dcx), None);
    assert_eq!(queue.len(), 0);
    assert!(queue.is_empty());
}

#[test]
fn bounded_retries_constant() {
    assert_eq!(MAX_TRY, 128);
}

#[test]
fn zero_is_not_a_word() {
    assert!(NonZeroWord::new(0).is_none());
    assert_eq!(NonZeroWord::new(usize::MAX).unwrap().get(), usize::MAX);
    assert_eq!(NonZeroWord::new(1).unwrap().get(), 1);
}

#[test]
fn index_encoding() {
    let mut index = Index::none();
    assert_eq!(index.load(), None);
    index.store(0);
    assert_eq!(index.load(), Some(0));
    index.store(5);
    assert_eq!(index.load(), Some(5));
    index.store(usize::MAX - 1);
    assert_eq!(index.load(), Some(usize::MAX - 1));
    index.clean();
    assert_eq!(index.load(), None);
}

#[test]
fn len_of_counter_readings() {
    assert_eq!(wfqueue::len_of(7, 3), 4);
    assert_eq!(wfqueue::len_of(3, 3), 0);
    assert_eq!(wfqueue::len_of(2, 5), 0);
    assert_eq!(wfqueue::len_of(usize::MAX, 0), usize::MAX);
}

#[test]
fn next_hint_per_phase_outcome() {
    // The hinted cell served the call: the hint is cleared.
    assert_eq!(wfqueue::next_hint(Some(2), true, 0, true, 3), None);
    // The claimed cell served the call: the hint is kept.
    assert_eq!(wfqueue::next_hint(Some(2), false, 7, true, 3), Some(2));
    assert_eq!(wfqueue::next_hint(None, false, 7, true, 3), None);
    // Neither did: the claimed cell is remembered.
    assert_eq!(wfqueue::next_hint(None, false, 7, false, 3), Some(1));
    assert_eq!(wfqueue::next_hint(Some(2), false, 9, false, 3), Some(0));
}

#[test]
fn empty_and_full_from_counter_readings() {
    assert!(wfqueue::is_empty_of(3, 3));
    assert!(wfqueue::is_empty_of(2, 5));
    assert!(!wfqueue::is_empty_of(4, 3));
    assert!(wfqueue::is_full_of(5, 2, 3));
    assert!(!wfqueue::is_full_of(6, 2, 3));
    assert!(!wfqueue::is_full_of(2, 2, 3));
}
