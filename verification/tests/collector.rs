use rust_examples::collector::{send_queue_step, CollectorError, SendAction, SendEvent};
use std::collections::VecDeque;

#[test]
fn error_messages() {
    assert_eq!("unable to connect to server", CollectorError::UnableToConnect.message());
    assert_eq!("sending the data failed", CollectorError::UnableToSend.message());
}

#[test]
fn connect_failure_keeps_queue() {
    let mut queue: VecDeque<Vec<u8>> = VecDeque::from(vec![vec![1u8], vec![2u8]]);
    match send_queue_step(&mut queue, SendEvent::ConnectFailed) {
        SendAction::Finish(Err(e)) => assert_eq!(CollectorError::UnableToConnect, e),
        _ => panic!("expected to stop"),
    }
    assert_eq!(2, queue.len());
}

#[test]
fn sends_in_order_then_finishes() {
    let mut queue: VecDeque<Vec<u8>> = VecDeque::from(vec![vec![1u8], vec![2u8, 3u8]]);
    let mut sent = Vec::new();
    let mut event = SendEvent::Connected;
    loop {
        match send_queue_step(&mut queue, event) {
            SendAction::Write(bytes) => {
                sent.push(bytes);
                event = SendEvent::WriteOk;
            }
            SendAction::Finish(result) => {
                assert_eq!(Ok(()), result);
                break;
            }
        }
    }
    assert_eq!(vec![vec![1u8], vec![2u8, 3u8]], sent);
    assert!(queue.is_empty());
}

#[test]
fn failed_write_restores_queue() {
    let mut queue: VecDeque<Vec<u8>> = VecDeque::from(vec![vec![7u8], vec![8u8]]);
    let first = match send_queue_step(&mut queue, SendEvent::Connected) {
        SendAction::Write(bytes) => bytes,
        _ => panic!("expected a write"),
    };
    assert_eq!(vec![7u8], first);
    assert_eq!(1, queue.len());
    match send_queue_step(&mut queue, SendEvent::WriteFailed(first)) {
        SendAction::Finish(Err(e)) => assert_eq!(CollectorError::UnableToSend, e),
        _ => panic!("expected to stop"),
    }
    assert_eq!(VecDeque::from(vec![vec![7u8], vec![8u8]]), queue);
}

#[test]
fn empty_queue_finishes_at_once() {
    let mut queue: VecDeque<Vec<u8>> = VecDeque::new();
    match send_queue_step(&mut queue, SendEvent::Connected) {
        SendAction::Finish(result) => assert_eq!(Ok(()), result),
        _ => panic!("nothing to write"),
    }
}
