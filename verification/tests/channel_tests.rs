use ferriscuit::channel::{channel, sync_channel, Receiver, Sender, SyncSender};
use std::sync::atomic::{AtomicBool, Ordering};
use std::sync::Arc;
use std::time::Duration;

#[test]
fn ping_pong() {
    let (mut tx, mut rx): (Sender<usize>, Receiver<usize>) = channel();
    tx.send(7);
    assert_eq!(Some(7), rx.recv());
}

#[test]
fn closed() {
    let (tx, mut rx) = channel::<()>();
    drop(tx);
    assert_eq!(rx.recv(), None);
}

#[test]
fn fifo_order_kept() {
    let (mut tx, mut rx): (Sender<u32>, Receiver<u32>) = channel();
    for n in 0..100u32 {
        tx.send(n);
    }
    for n in 0..100u32 {
        assert_eq!(rx.recv(), Some(n));
    }
}

#[test]
fn closed_stays_closed() {
    let (mut tx, mut rx) = channel::<u8>();
    tx.send(1);
    tx.send(2);
    drop(tx);
    assert_eq!(rx.recv(), Some(1));
    assert_eq!(rx.recv(), Some(2));
    assert_eq!(rx.recv(), None);
    assert_eq!(rx.recv(), None);
    assert_eq!(rx.recv(), None);
}

#[test]
fn fan_in_no_loss_no_duplication() {
    let (tx, mut rx) = channel::<u64>();
    let mut senders: Vec<Sender<u64>> = Vec::new();
    for k in 0..4u64 {
        let mut t = tx.clone();
        // each sender contributes its own distinct range
        for m in 0..8u64 {
            t.send(k * 100 + m);
        }
        senders.push(t);
    }
    drop(tx);
    drop(senders);
    let mut seen: Vec<u64> = Vec::new();
    while let Some(v) = rx.recv() {
        seen.push(v);
    }
    assert_eq!(seen.len(), 32);
    let mut sorted = seen.clone();
    sorted.sort();
    sorted.dedup();
    assert_eq!(sorted.len(), 32);
}

#[test]
fn batched_drain_returns_in_order() {
    let (mut tx, mut rx) = channel::<i32>();
    tx.send(1);
    tx.send(2);
    tx.send(3);
    assert_eq!(rx.recv(), Some(1));
    assert_eq!(rx.recv(), Some(2));
    assert_eq!(rx.recv(), Some(3));
}

#[test]
fn bounded_scenario_backpressure() {
    let rt = tokio::runtime::Builder::new_multi_thread()
        .worker_threads(2)
        .enable_time()
        .build()
        .unwrap();
    let (mut tx, mut rx) = sync_channel::<u32>(2);
    tx.send(1);
    tx.send(2);
    let third_sent = Arc::new(AtomicBool::new(false));
    let flag = Arc::clone(&third_sent);
    let tx2 = tx.clone();
    let handle = rt.spawn_blocking(move || {
        let mut tx2 = tx2;
        tx2.send(3);
        flag.store(true, Ordering::SeqCst);
    });
    // The queue sits at its bound, so the third send cannot finish yet.
    rt.block_on(async {
        tokio::time::sleep(Duration::from_millis(200)).await;
    });
    assert!(!third_sent.load(Ordering::SeqCst));
    assert_eq!(rx.recv(), Some(1));
    rt.block_on(handle).unwrap();
    assert!(third_sent.load(Ordering::SeqCst));
    assert_eq!(rx.recv(), Some(2));
    assert_eq!(rx.recv(), Some(3));
    drop(tx);
    assert_eq!(rx.recv(), None);
}

#[test]
fn bounded_ping_pong() {
    let (mut tx, mut rx): (SyncSender<&'static str>, Receiver<&'static str>) = sync_channel(4);
    tx.send("a");
    tx.send("b");
    assert_eq!(rx.recv(), Some("a"));
    assert_eq!(rx.recv(), Some("b"));
}
