use std::cell::RefCell;
use std::rc::Rc;
use taskpool::channel::Channel;
use taskpool::message::Message;
use taskpool::model::{Stop, WorkerState};
use taskpool::worker::{Run, Worker};

type Job = Box<dyn FnOnce()>;

fn logging_job(log: &Rc<RefCell<Vec<u32>>>, tag: u32) -> Job {
    let log = Rc::clone(log);
    Box::new(move || log.borrow_mut().push(tag))
}

#[test]
fn new_worker_runs_and_keeps_its_id() {
    let worker = Worker::new(3);
    assert_eq!(worker.id(), 3);
    assert_eq!(worker.state(), WorkerState::Running);
}

#[test]
fn receive_hands_out_the_oldest_job() {
    let mut channel = Channel::new();
    assert!(channel.send(Message::NewJob(11u32)).is_ok());
    assert!(channel.send(Message::NewJob(22u32)).is_ok());
    let mut worker = Worker::new(0);
    assert_eq!(worker.receive(&mut channel), Ok(11));
    assert_eq!(worker.state(), WorkerState::Running);
    assert_eq!(channel.len(), 1);
    assert_eq!(worker.receive(&mut channel), Ok(22));
    assert_eq!(worker.receive(&mut channel), Err(Stop::Idle));
    assert_eq!(worker.state(), WorkerState::Running);
}

#[test]
fn receive_of_marker_ends_the_worker() {
    let mut channel: Channel<Message<u32>> = Channel::new();
    assert!(channel.send(Message::Terminate).is_ok());
    assert!(channel.send(Message::NewJob(5)).is_ok());
    let mut worker = Worker::new(1);
    assert_eq!(worker.receive(&mut channel), Err(Stop::Terminated));
    assert_eq!(worker.state(), WorkerState::Exited);
    assert_eq!(worker.id(), 1);
    // An exited worker takes nothing more.
    assert_eq!(worker.receive(&mut channel), Err(Stop::Exited));
    assert_eq!(channel.len(), 1);
}

#[test]
fn receive_on_closed_empty_channel_reports_disconnected() {
    let mut channel: Channel<Message<u32>> = Channel::new();
    channel.close();
    let mut worker = Worker::new(0);
    assert_eq!(worker.receive(&mut channel), Err(Stop::Disconnected));
    assert_eq!(worker.state(), WorkerState::Running);
}

#[test]
fn run_invokes_jobs_in_order_up_to_the_first_marker() {
    let log = Rc::new(RefCell::new(Vec::new()));
    let mut channel: Channel<Message<Job>> = Channel::new();
    for tag in [1u32, 2, 3] {
        assert!(channel.send(Message::NewJob(logging_job(&log, tag))).is_ok());
    }
    assert!(channel.send(Message::Terminate).is_ok());
    assert!(channel.send(Message::NewJob(logging_job(&log, 4))).is_ok());
    let mut worker = Worker::new(0);
    let run = worker.run(&mut channel);
    assert_eq!(run, Run { jobs_run: 3, stop: Stop::Terminated });
    assert_eq!(*log.borrow(), vec![1, 2, 3]);
    assert_eq!(worker.state(), WorkerState::Exited);
    assert_eq!(channel.len(), 1);
    // A second run does nothing.
    let again = worker.run(&mut channel);
    assert_eq!(again, Run { jobs_run: 0, stop: Stop::Exited });
    assert_eq!(*log.borrow(), vec![1, 2, 3]);
    assert_eq!(channel.len(), 1);
}

#[test]
fn run_without_marker_drains_and_stays_live() {
    let log = Rc::new(RefCell::new(Vec::new()));
    let mut channel: Channel<Message<Job>> = Channel::new();
    assert!(channel.send(Message::NewJob(logging_job(&log, 8))).is_ok());
    let mut worker = Worker::new(2);
    assert_eq!(worker.run(&mut channel), Run { jobs_run: 1, stop: Stop::Idle });
    assert_eq!(worker.state(), WorkerState::Running);
    assert!(channel.is_empty());
    channel.close();
    assert_eq!(worker.run(&mut channel), Run { jobs_run: 0, stop: Stop::Disconnected });
    assert_eq!(*log.borrow(), vec![8]);
}

#[test]
fn join_goes_through_once_and_only_after_exit() {
    let mut channel: Channel<Message<u32>> = Channel::new();
    let mut worker = Worker::new(0);
    assert!(!worker.join());
    assert_eq!(worker.state(), WorkerState::Running);
    assert!(channel.send(Message::Terminate).is_ok());
    assert_eq!(worker.receive(&mut channel), Err(Stop::Terminated));
    assert!(worker.join());
    assert_eq!(worker.state(), WorkerState::Joined);
    assert!(!worker.join());
    assert_eq!(worker.state(), WorkerState::Joined);
    assert_eq!(worker.receive(&mut channel), Err(Stop::Exited));
}
