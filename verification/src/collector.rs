//! The collector's send queue: encoded commands wait in a queue and are sent
//! to the server in order; a command whose sending failed goes back to the
//! front of the queue.
//!
//! The network work is done by the caller. [`send_queue_step`] decides, from
//! the queue and what just happened, what to do next.

use std::collections::VecDeque;
use vstd::prelude::*;

verus! {

/// Why sending the queue stopped.
#[derive(Debug, PartialEq, Eq, Clone, Copy, Structural)]
pub enum CollectorError {
    UnableToConnect,
    UnableToSend,
}

/// The message of each error.
pub open spec fn collector_error_message(e: CollectorError) -> Seq<char> {
    match e {
        CollectorError::UnableToConnect => "unable to connect to server"@,
        CollectorError::UnableToSend => "sending the data failed"@,
    }
}

impl CollectorError {
    /// The human-readable message of the error.
    pub fn message(&self) -> (m: String)
        ensures
            m@ == collector_error_message(*self),
    {
        match self {
            CollectorError::UnableToConnect => String::from_str("unable to connect to server"),
            CollectorError::UnableToSend => String::from_str("sending the data failed"),
        }
    }
}

/// A collector as the server lists it.
pub struct Collector {
    pub id: i32,
    pub collector_id: String,
    pub last_seen: i64,
}

/// What happened since the last step.
pub enum SendEvent {
    /// Connecting to the server failed.
    ConnectFailed,
    /// The connection to the server is open.
    Connected,
    /// The last command was written.
    WriteOk,
    /// Writing the given command failed.
    WriteFailed(Vec<u8>),
}

/// What to do next.
pub enum SendAction {
    /// Write this command to the server.
    Write(Vec<u8>),
    /// Stop, with this outcome.
    Finish(Result<(), CollectorError>),
}

/// The queue and the action after `event`.
pub open spec fn send_step(queue: Seq<Vec<u8>>, event: SendEvent) -> (Seq<Vec<u8>>, SendAction) {
    match event {
        SendEvent::ConnectFailed => (queue, SendAction::Finish(Err(CollectorError::UnableToConnect))),
        SendEvent::WriteFailed(command) => (
            seq![command] + queue,
            SendAction::Finish(Err(CollectorError::UnableToSend)),
        ),
        _ => if queue.len() == 0 {
            (queue, SendAction::Finish(Ok(())))
        } else {
            (queue.drop_first(), SendAction::Write(queue[0]))
        },
    }
}

/// One step of sending the queue: after a failed connection, stop with
/// `UnableToConnect`; after connecting or a successful write, take the next
/// command from the front (or stop with `Ok` when none is left); after a failed
/// write, put the command back at the front and stop with `UnableToSend`.
pub fn send_queue_step(queue: &mut VecDeque<Vec<u8>>, event: SendEvent) -> (action: SendAction)
    ensures
        (final(queue)@, action) == send_step(old(queue)@, event),
{
    match event {
        SendEvent::ConnectFailed => SendAction::Finish(Err(CollectorError::UnableToConnect)),
        SendEvent::WriteFailed(command) => {
            queue.push_front(command);
            SendAction::Finish(Err(CollectorError::UnableToSend))
        },
        _ => match queue.pop_front() {
            Some(command) => {
                assert(old(queue)@.subrange(1, old(queue)@.len() as int) =~= old(queue)@.drop_first());
                SendAction::Write(command)
            },
            None => SendAction::Finish(Ok(())),
        },
    }
}

/// A failed write undoes the step that handed the command out: the queue is
/// exactly as it was before, and sending stops with `UnableToSend`.
pub proof fn lemma_failed_write_restores_queue(queue: Seq<Vec<u8>>, event: SendEvent)
    requires
        queue.len() > 0,
        event is Connected || event is WriteOk,
    ensures
        ({
            let (rest, action) = send_step(queue, event);
            &&& action == SendAction::Write(queue[0])
            &&& send_step(rest, SendEvent::WriteFailed(queue[0])) == (
                queue,
                SendAction::Finish(Err(CollectorError::UnableToSend)),
            )
        }),
{
    assert(seq![queue[0]] + queue.drop_first() =~= queue);
}

/// Commands leave the queue front first: after `n` successful writes the
/// commands handed out are the first `n` of the queue, in order, and the rest
/// is still queued.
pub open spec fn sent_after(queue: Seq<Vec<u8>>, n: nat) -> (Seq<Vec<u8>>, Seq<Vec<u8>>)
    decreases n,
{
    if n == 0 {
        (Seq::empty(), queue)
    } else {
        let (sent, rest) = sent_after(queue, (n - 1) as nat);
        match send_step(rest, SendEvent::WriteOk).1 {
            SendAction::Write(c) => (sent.push(c), send_step(rest, SendEvent::WriteOk).0),
            SendAction::Finish(_) => (sent, rest),
        }
    }
}

/// Sending in steps hands the commands out in queue order.
pub proof fn lemma_sent_in_order(queue: Seq<Vec<u8>>, n: nat)
    requires
        n <= queue.len(),
    ensures
        sent_after(queue, n).0 == queue.take(n as int),
        sent_after(queue, n).1 == queue.skip(n as int),
    decreases n,
{
    if n > 0 {
        lemma_sent_in_order(queue, (n - 1) as nat);
        assert(queue.skip(n - 1)[0] == queue[n - 1]);
        assert(queue.take(n - 1).push(queue[n - 1]) =~= queue.take(n as int));
        assert(queue.skip(n - 1).drop_first() =~= queue.skip(n as int));
    }
}

} // verus!
