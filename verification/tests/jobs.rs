use search_agent::jobs::JobQueue;

#[test]
fn jobs_come_out_in_order() {
    let mut q = JobQueue::new();
    q.push(1);
    q.push(2);
    assert_eq!(q.pop(), Some(1));
    q.push(3);
    assert_eq!(q.pop(), Some(2));
    assert_eq!(q.pop(), Some(3));
    assert_eq!(q.pop(), None);
}
