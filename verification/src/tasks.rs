//! The work of the asynchronous examples.

use vstd::prelude::*;

verus! {

/// Twice `n`.
pub fn double(n: u32) -> (r: u32)
    requires
        2 * n <= u32::MAX,
    ensures
        r == 2 * n,
{
    n * 2
}

/// The two kinds of channel a count can be sent on.
#[derive(Debug, PartialEq, Eq, Clone, Copy, Structural)]
pub enum Channel {
    Mpsc,
    Broadcast,
}

/// Even counts go over the mpsc channel, odd ones are broadcast.
pub fn channel_for(count: u32) -> (channel: Channel)
    ensures
        channel == if count % 2 == 0 {
            Channel::Mpsc
        } else {
            Channel::Broadcast
        },
{
    if count % 2 == 0 {
        Channel::Mpsc
    } else {
        Channel::Broadcast
    }
}

/// A command for the greeting thread.
#[derive(Debug, PartialEq, Eq, Clone, Copy, Structural)]
pub enum Command {
    SayHello,
    Quit,
}

/// What the greeting thread prints for a command, and whether it stops
/// afterwards: `SayHello` prints `hello` and goes on, `Quit` prints
/// `quiting` and stops.
pub fn command_step(command: Command) -> (res: (String, bool))
    ensures
        res.0@ == match command {
            Command::SayHello => "hello"@,
            Command::Quit => "quiting"@,
        },
        res.1 == (command == Command::Quit),
{
    match command {
        Command::SayHello => (String::from_str("hello"), false),
        Command::Quit => (String::from_str("quiting"), true),
    }
}

} // verus!
