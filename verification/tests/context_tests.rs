use sentinel::context::ContextManager;
use sentinel::context::Frame;

#[test]
fn test_frame_creation() {
    let frame = Frame::new("test_id", "test content");
    assert_eq!(frame.id(), "test_id");
    assert_eq!(frame.content(), "test content");
    assert_eq!(frame.priority(), 0);
    assert_eq!(frame.accessed(), 0);
}

#[test]
fn test_frame_with_priority() {
    let frame = Frame::with_priority("id", "content", 100);
    assert_eq!(frame.priority(), 100);
}

#[test]
fn test_frame_memory_size() {
    let frame = Frame::new("abc", "12345");
    assert_eq!(frame.memory_size(), 17);
}

#[test]
fn test_push_and_get() {
    let mut ctx = ContextManager::new(10);
    ctx.push(Frame::new("a", "content a"));
    ctx.push(Frame::new("b", "content b"));

    assert_eq!(ctx.len(), 2);
    assert_eq!(ctx.get("a").unwrap().content(), "content a");
    assert_eq!(ctx.get("b").unwrap().content(), "content b");
    assert!(ctx.get("c").is_none());
}

#[test]
fn test_auto_eviction() {
    let mut ctx = ContextManager::new(3);
    ctx.push(Frame::new("a", "1"));
    ctx.push(Frame::new("b", "2"));
    ctx.push(Frame::new("c", "3"));

    assert!(ctx.is_full());

    let evicted = ctx.push(Frame::new("d", "4"));
    assert!(evicted.is_some());
    assert_eq!(evicted.unwrap().id(), "a");

    assert_eq!(ctx.len(), 3);
    assert!(ctx.peek("a").is_none());
    assert!(ctx.peek("d").is_some());
}

#[test]
fn test_flush() {
    let mut ctx = ContextManager::new(10);
    for i in 0..10 {
        ctx.push(Frame::new(&format!("{}", i), "x"));
    }

    let evicted = ctx.flush(3);
    assert_eq!(evicted, 3);
    assert_eq!(ctx.len(), 7);
    assert_eq!(ctx.evicted_count(), 3);

    assert!(ctx.peek("0").is_none());
    assert!(ctx.peek("1").is_none());
    assert!(ctx.peek("2").is_none());
    assert!(ctx.peek("3").is_some());
}

#[test]
fn test_flush_low_priority() {
    let mut ctx = ContextManager::new(10);
    ctx.push(Frame::new("low1", "x"));
    ctx.push(Frame::with_priority("high1", "x", 10));
    ctx.push(Frame::new("low2", "x"));
    ctx.push(Frame::with_priority("high2", "x", 10));

    let evicted = ctx.flush_low_priority(5);
    assert_eq!(evicted, 2);
    assert_eq!(ctx.len(), 2);
    assert!(ctx.peek("high1").is_some());
    assert!(ctx.peek("high2").is_some());
    assert!(ctx.peek("low1").is_none());
}

#[test]
fn test_clear() {
    let mut ctx = ContextManager::new(10);
    for i in 0..5 {
        ctx.push(Frame::new(&format!("{}", i), "x"));
    }
    assert_eq!(ctx.len(), 5);

    ctx.clear();
    assert_eq!(ctx.len(), 0);
    assert!(ctx.is_empty());
    assert_eq!(ctx.evicted_count(), 5);
}

#[test]
fn test_peek_vs_get() {
    let mut ctx = ContextManager::new(10);
    ctx.push(Frame::new("a", "x"));

    let ts_before = ctx.peek("a").unwrap().accessed();
    let _ = ctx.peek("a");
    let ts_after = ctx.peek("a").unwrap().accessed();
    assert_eq!(ts_before, ts_after);

    let _ = ctx.get("a");
    let ts_updated = ctx.peek("a").unwrap().accessed();
    assert!(ts_updated > ts_before);
}

#[test]
fn test_validate_capacity() {
    let ctx = ContextManager::new(10);
    assert!(ctx.validate_capacity().is_ok());
}

#[test]
fn test_memory_usage() {
    let mut ctx = ContextManager::new(10);
    ctx.push(Frame::new("abc", "12345"));
    ctx.push(Frame::new("xy", "abc"));
    assert_eq!(ctx.memory_usage(), 31);
}

// context boundedness observed on a concrete run: the store never
// outgrows its capacity, whatever is pushed
#[test]
fn test_security_bounded_growth() {
    let mut ctx = ContextManager::new(5);

    for i in 0..100 {
        ctx.push(Frame::new(&format!("{}", i), "x"));
        assert!(ctx.len() <= 5);
    }

    assert_eq!(ctx.len(), 5);
    assert_eq!(ctx.evicted_count(), 95);
}

#[test]
fn test_flush_more_than_available() {
    let mut ctx = ContextManager::new(10);
    for i in 0..5 {
        ctx.push(Frame::new(&format!("{}", i), "x"));
    }

    let evicted = ctx.flush(100);
    assert_eq!(evicted, 5);
    assert!(ctx.is_empty());
}

#[test]
fn test_should_flush_at_threshold() {
    let mut ctx = ContextManager::with_threshold(100, 80);
    assert!(!ctx.should_flush());
    for i in 0..85 {
        ctx.push(Frame::new(&format!("{}", i), "x"));
    }
    assert!(ctx.should_flush());
}

#[test]
fn test_flush_to_utilization_target() {
    let mut ctx = ContextManager::new(100);
    for i in 0..80 {
        ctx.push(Frame::new(&format!("{}", i), "x"));
    }

    let evicted = ctx.flush_to_utilization(50);
    assert_eq!(evicted, 30);
    assert_eq!(ctx.len(), 50);
}
