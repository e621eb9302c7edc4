use gridgame::queue::{EntityIdGenerator, GameQueue};

#[test]
fn queue_drains_in_push_order() {
    let mut q: GameQueue<u32> = GameQueue::new();
    q.push(3);
    q.push(1);
    q.push(2);
    let mut d = q.drain();
    assert_eq!(d.next(), Some(3));
    assert_eq!(d.next(), Some(1));
    assert_eq!(d.next(), Some(2));
    assert_eq!(d.next(), None);
    assert_eq!(d.next(), None);
}

#[test]
fn queue_is_empty_after_full_drain() {
    let mut q: GameQueue<&str> = GameQueue::new();
    q.push("a");
    {
        let mut first = q.drain();
        assert_eq!(first.next(), Some("a"));
        assert_eq!(first.next(), None);
    }
    q.push("b");
    {
        let mut second = q.drain();
        assert_eq!(second.next(), Some("b"));
        assert_eq!(second.next(), None);
    }
    let mut third = q.drain();
    assert_eq!(third.next(), None);
}

#[test]
fn dropped_drain_leaves_the_rest_queued() {
    let mut q: GameQueue<u8> = GameQueue::new();
    q.push(1);
    q.push(2);
    q.push(3);
    {
        let mut d = q.drain();
        assert_eq!(d.next(), Some(1));
    }
    assert_eq!(q.pop_front(), Some(2));
    assert_eq!(q.pop_front(), Some(3));
    assert_eq!(q.pop_front(), None);
}

#[test]
fn unused_drain_takes_nothing() {
    let mut q: GameQueue<u8> = GameQueue::new();
    q.push(9);
    {
        let _d = q.drain();
    }
    let mut d = q.drain();
    assert_eq!(d.next(), Some(9));
    assert_eq!(d.next(), None);
}

#[test]
fn pop_front_takes_the_oldest() {
    let mut q: GameQueue<i32> = GameQueue::new();
    assert_eq!(q.pop_front(), None);
    q.push(-1);
    q.push(5);
    assert_eq!(q.pop_front(), Some(-1));
    q.push(7);
    assert_eq!(q.pop_front(), Some(5));
    assert_eq!(q.pop_front(), Some(7));
    assert_eq!(q.pop_front(), None);
}

#[test]
fn ids_count_up_from_one() {
    let mut g = EntityIdGenerator::new();
    assert_eq!(g.peek(), 1);
    assert_eq!(g.next(), 1);
    assert_eq!(g.next(), 2);
    assert_eq!(g.next(), 3);
    assert_eq!(g.peek(), 4);
}

#[test]
fn ids_never_repeat() {
    let mut g = EntityIdGenerator::new();
    let mut seen = std::collections::BTreeSet::new();
    for _ in 0..1000 {
        assert!(seen.insert(g.next()));
    }
}
