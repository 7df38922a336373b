//! Per-connection decision logic: one step of the read/dispatch/respond loop.
//!
//! The surrounding server loop reads a line from the socket (or sees the peer
//! disconnect), hands the event to [`handler_step`], and then performs the
//! returned action: write the reply, keep reading, or close the connection.
//! All protocol decisions live here; the loop itself only moves bytes.

use vstd::prelude::*;

use crate::codec::Command;
use crate::codec::Error;
use crate::codec::SpecCommand;
use crate::codec::parse;
use crate::codec::spec_parse;
use crate::mailbox::Mailbox;
use crate::mailbox::spec_snapshot;
use crate::text::push_char;

verus! {

/// What the transport observed on a connection: one full line, or the peer
/// closing its end with nothing read.
pub enum ConnEvent {
    Line(String),
    Disconnect,
}

/// What the connection loop must do next.
pub enum HandlerAction {
    /// Keep reading; nothing is written (a publish sends no acknowledgement).
    Continue,
    /// Write this text to the socket, then keep reading.
    Reply(String),
    /// Close the connection, after logging the error when one is carried.
    Close(Option<Error>),
}

/// One step of a connection: dispatch one event against the shared mailbox.
///
/// A clean disconnect closes the connection.  A `PUBLISH` line appends its
/// message and answers nothing; a `RETRIEVE` line leaves the mailbox as it is
/// and replies with the snapshot followed by one newline; a line that does
/// not parse leaves the mailbox as it is and closes the connection, handing
/// the error out for the log.
pub fn handler_step(mailbox: &mut Mailbox, event: ConnEvent) -> (a: HandlerAction)
    ensures
        ({
            let mb0 = old(mailbox)@;
            let mb1 = final(mailbox)@;
            match event {
                ConnEvent::Disconnect => mb1 == mb0 && a matches HandlerAction::Close(None),
                ConnEvent::Line(l) => match spec_parse(l@) {
                    Ok(SpecCommand::Publish(m)) => mb1 == mb0.insert(0, m)
                        && a matches HandlerAction::Continue,
                    Ok(SpecCommand::Retrieve) => mb1 == mb0 && (a matches HandlerAction::Reply(s)
                        && s@ == spec_snapshot(mb0) + seq!['\n']),
                    Err(e) => mb1 == mb0 && (a matches HandlerAction::Close(oe) && oe matches Some(
                        err,
                    ) && err@ == e),
                },
            }
        }),
{
    match event {
        ConnEvent::Disconnect => HandlerAction::Close(None),
        ConnEvent::Line(l) => match parse(l.as_str()) {
            Ok(Command::Publish(m)) => {
                mailbox.append(m.as_str());
                HandlerAction::Continue
            },
            Ok(Command::Retrieve) => {
                let mut s = mailbox.snapshot();
                push_char(&mut s, '\n');
                proof {
                    assert(s@ =~= spec_snapshot(old(mailbox)@) + seq!['\n']);
                }
                HandlerAction::Reply(s)
            },
            Err(e) => HandlerAction::Close(Some(e)),
        },
    }
}

} // verus!
