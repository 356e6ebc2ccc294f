use thread_pool::JobChannel;

#[test]
fn new_channel_is_empty() {
    let channel: JobChannel<u32> = JobChannel::new(3);
    assert_eq!(channel.len(), 0);
    assert_eq!(channel.receivers(), 3);
    assert!(channel.is_open());
}

#[test]
fn channel_without_receivers_is_closed() {
    let channel: JobChannel<u32> = JobChannel::new(0);
    assert_eq!(channel.receivers(), 0);
    assert!(!channel.is_open());
}

#[test]
fn channel_is_first_in_first_out() {
    let mut channel: JobChannel<u32> = JobChannel::new(1);
    assert_eq!(channel.send(10), Ok(()));
    assert_eq!(channel.send(20), Ok(()));
    assert_eq!(channel.send(10), Ok(()));
    assert_eq!(channel.len(), 3);
    assert_eq!(channel.try_recv(), Some(10));
    assert_eq!(channel.len(), 2);
    assert_eq!(channel.send(30), Ok(()));
    assert_eq!(channel.try_recv(), Some(20));
    assert_eq!(channel.try_recv(), Some(10));
    assert_eq!(channel.try_recv(), Some(30));
    assert_eq!(channel.len(), 0);
}

#[test]
fn empty_channel_gives_nothing() {
    let mut channel: JobChannel<u32> = JobChannel::new(2);
    assert_eq!(channel.try_recv(), None);
    assert_eq!(channel.len(), 0);
    assert_eq!(channel.send(1), Ok(()));
    assert_eq!(channel.try_recv(), Some(1));
    assert_eq!(channel.try_recv(), None);
    assert_eq!(channel.receivers(), 2);
}

#[test]
fn channel_takes_any_backlog() {
    let mut channel: JobChannel<usize> = JobChannel::new(1);
    for job in 0..10_000usize {
        assert_eq!(channel.send(job), Ok(()));
    }
    assert_eq!(channel.len(), 10_000);
    for job in 0..10_000usize {
        assert_eq!(channel.try_recv(), Some(job));
    }
    assert_eq!(channel.try_recv(), None);
}

#[test]
fn send_on_closed_channel_gives_the_job_back() {
    let mut channel: JobChannel<String> = JobChannel::new(0);
    assert_eq!(channel.send(String::from("lost")), Err(String::from("lost")));
    assert_eq!(channel.len(), 0);
    assert_eq!(channel.try_recv(), None);
}

#[test]
fn channel_closes_with_its_last_receiver() {
    let mut channel: JobChannel<u32> = JobChannel::new(2);
    assert_eq!(channel.send(1), Ok(()));
    channel.drop_receiver();
    assert_eq!(channel.receivers(), 1);
    assert!(channel.is_open());
    assert_eq!(channel.send(2), Ok(()));
    channel.drop_receiver();
    assert_eq!(channel.receivers(), 0);
    assert!(!channel.is_open());
    assert_eq!(channel.send(3), Err(3));
    // What was sent before stays in the channel.
    assert_eq!(channel.len(), 2);
    assert_eq!(channel.try_recv(), Some(1));
    assert_eq!(channel.try_recv(), Some(2));
    assert_eq!(channel.try_recv(), None);
}
