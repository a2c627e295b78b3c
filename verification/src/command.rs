//! The in-process control messages the worker consumes, and their queue.
//!
//! The queue stands for the multi-producer, single-consumer channel
//! between the commit paths and the worker: commands are taken in send
//! order, and the worker can both take the next command and scan the
//! whole backlog for a shutdown request without consuming it.

use vstd::prelude::*;

verus! {

/// A control message for the worker: prune every store toward its own
/// target version, or stop.
pub enum Command {
    Prune { target_db_versions: Vec<u64> },
    Quit,
}

/// Whether a shutdown request is queued anywhere in `cmds`.
pub open spec fn has_quit(cmds: Seq<Command>) -> bool {
    exists|i: int| 0 <= i < cmds.len() && (#[trigger] cmds[i]) is Quit
}

/// The worker's command queue, in send order.
pub struct CommandQueue {
    items: Vec<Command>,
}

impl View for CommandQueue {
    type V = Seq<Command>;

    closed spec fn view(&self) -> Seq<Command> {
        self.items@
    }
}

impl CommandQueue {
    pub fn new() -> (q: CommandQueue)
        ensures
            q@ == Seq::<Command>::empty(),
    {
        CommandQueue { items: Vec::new() }
    }

    pub fn is_empty(&self) -> (r: bool)
        ensures
            r <==> self@.len() == 0,
    {
        self.items.is_empty()
    }

    /// Enqueue a command behind everything already queued.
    pub fn send(&mut self, cmd: Command)
        ensures
            final(self)@ == old(self)@.push(cmd),
    {
        self.items.push(cmd);
    }

    /// Take the oldest queued command, if any.
    pub fn pop_front(&mut self) -> (r: Option<Command>)
        ensures
            old(self)@.len() == 0 ==> r is None && final(self)@ == old(self)@,
            old(self)@.len() > 0 ==> r == Option::Some(old(self)@[0]) && final(self)@ == old(
                self,
            )@.skip(1),
    {
        if self.items.is_empty() {
            None
        } else {
            let c = self.items.remove(0);
            proof {
                assert(self.items@ =~= old(self)@.skip(1));
            }
            Some(c)
        }
    }

    /// Whether a shutdown request is queued, without consuming anything.
    pub fn contains_quit(&self) -> (r: bool)
        ensures
            r <==> has_quit(self@),
    {
        let mut i: usize = 0;
        while i < self.items.len()
            invariant
                i <= self.items.len(),
                forall|k: int| 0 <= k < i ==> !((#[trigger] self.items@[k]) is Quit),
            decreases self.items.len() - i,
        {
            let is_quit = match &self.items[i] {
                Command::Quit => true,
                Command::Prune { .. } => false,
            };
            if is_quit {
                proof {
                    assert(self@[i as int] is Quit);
                }
                return true;
            }
            i = i + 1;
        }
        false
    }

    /// Discard every queued command.
    pub fn clear(&mut self)
        ensures
            final(self)@ == Seq::<Command>::empty(),
    {
        self.items.clear();
    }
}

} // verus!
