use vstd::prelude::*;
use crate::cmd::Cmd;
use crate::display::{execute_ops, execute_spec, view_wf, DisplayServer, TermOp};
use crate::protocol::{size_reply, size_reply_text};

verus! {

/// What the program does with one command.
#[derive(Debug)]
pub enum Reaction {
    /// Send this answer to the driven process.
    Reply(String),
    /// Write these operations to the terminal and flush it.
    Frame(Vec<TermOp>),
    /// Nothing leaves the program: the drawing is buffered.
    Buffered,
}

/// Carries out one command read from the driven process: a size query is
/// answered with the display's size, a flush gives the frame to write, and
/// any other command changes the display only.
pub fn react(server: &mut DisplayServer, cmd: Cmd) -> (r: Reaction)
    requires
        old(server).wf(),
    ensures
        final(server).wf(),
        final(server)@ == execute_spec(old(server)@, cmd),
        match cmd {
            Cmd::QuerySize => r matches Reaction::Reply(s) && s@ == size_reply_text(
                old(server)@.width as u16,
                old(server)@.height as u16,
            ),
            Cmd::Flush => r matches Reaction::Frame(ops) && ops@ == execute_ops(old(server)@, cmd),
            _ => r is Buffered,
        },
{
    proof {
        old(server).lemma_wf();
    }
    match cmd {
        Cmd::QuerySize => {
            let (w, h) = server.get_size();
            Reaction::Reply(size_reply(w, h))
        },
        Cmd::Flush => Reaction::Frame(server.execute(cmd)),
        _ => {
            server.execute(cmd);
            Reaction::Buffered
        },
    }
}

} // verus!
