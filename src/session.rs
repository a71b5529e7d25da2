use vstd::prelude::*;
use crate::nick::{message_ok, nick_ok, valid_message};
use crate::protocol::{event_line, event_text, roster_line, roster_text, strip_line_end, trim_line_end};
use crate::room::{deliver, nicks_of, present, ChatEvent, EventView, JoinError, MemberView, Room};

verus! {

/// Where one connection stands: waiting for its nick, in the room under a
/// nick, or finished.
pub enum Session {
    AwaitingNick,
    Joined { nick: String },
    Closed,
}

/// What the connection must do after the session took in a line.
pub enum Action {
    /// Write this text to the connection.
    Send(String),
    /// Nothing to write; keep reading.
    Continue,
    /// The join was refused: close the connection.
    Reject(JoinError),
    /// Close the connection.
    Close,
}

impl Session {
    /// A fresh connection, before its nick is known.
    pub fn new() -> (r: Session)
        ensures
            r is AwaitingNick,
    {
        Session::AwaitingNick
    }

    /// Takes in one line read from the connection, line terminator included.
    ///
    /// Awaiting a nick, the line without its terminator is the nick: the
    /// session joins the room under it and answers with the roster line,
    /// or closes on a refused join. Joined, a line with nothing before its
    /// terminator does nothing, a line longer than the room relays leaves the
    /// room and closes, and any other line is broadcast, terminator and all,
    /// to the other members.
    /// A closed session only asks to close.
    pub fn on_line(&mut self, room: &mut Room, line: &String) -> (r: Action)
        requires
            old(room).wf(),
        ensures
            final(room).wf(),
            match *old(self) {
                Session::AwaitingNick => {
                    let nick = strip_line_end(line@);
                    if !nick_ok(nick) {
                        &&& r == Action::Reject(JoinError::InvalidNick)
                        &&& *final(self) is Closed
                        &&& final(room)@ == old(room)@
                    } else if present(old(room)@, nick) {
                        &&& r == Action::Reject(JoinError::NickTaken)
                        &&& *final(self) is Closed
                        &&& final(room)@ == old(room)@
                    } else {
                        &&& r matches Action::Send(t) && t@ == roster_text(nicks_of(old(room)@))
                        &&& *final(self) matches Session::Joined { nick: n } && n@ == nick
                        &&& final(room)@ == old(room)@.push((nick, Seq::<EventView>::empty()))
                    }
                },
                Session::Joined { nick } => {
                    if strip_line_end(line@).len() == 0 {
                        &&& r is Continue
                        &&& *final(self) == *old(self)
                        &&& final(room)@ == old(room)@
                    } else if !message_ok(line@) {
                        &&& r is Close
                        &&& *final(self) is Closed
                        &&& !present(final(room)@, nick@)
                        &&& (!present(old(room)@, nick@) ==> final(room)@ == old(room)@)
                        &&& forall|i: int|
                            0 <= i < old(room)@.len() && (#[trigger] old(room)@[i]).0 == nick@
                                ==> final(room)@ == old(room)@.remove(i)
                    } else {
                        &&& r is Continue
                        &&& *final(self) == *old(self)
                        &&& final(room)@ == old(room)@.map_values(
                            |m: MemberView| deliver(m, nick@, line@),
                        )
                    }
                },
                Session::Closed => {
                    &&& r is Close
                    &&& *final(self) is Closed
                    &&& final(room)@ == old(room)@
                },
            },
    {
        match self {
            Session::AwaitingNick => {
                let nick = trim_line_end(line);
                match room.try_join(&nick) {
                    Ok(roster) => {
                        let t = roster_line(&roster);
                        *self = Session::Joined { nick };
                        Action::Send(t)
                    },
                    Err(e) => {
                        *self = Session::Closed;
                        Action::Reject(e)
                    },
                }
            },
            Session::Joined { nick } => {
                if trim_line_end(line).as_str().unicode_len() == 0 {
                    Action::Continue
                } else if !valid_message(line.clone()) {
                    room.leave(nick);
                    *self = Session::Closed;
                    Action::Close
                } else {
                    room.broadcast(nick, line);
                    Action::Continue
                }
            },
            Session::Closed => Action::Close,
        }
    }

    /// The connection went away, or reading from or writing to it failed:
    /// the session leaves the room, if it was in it, and is closed.
    pub fn on_disconnect(&mut self, room: &mut Room)
        requires
            old(room).wf(),
        ensures
            final(room).wf(),
            *final(self) is Closed,
            match *old(self) {
                Session::Joined { nick } => {
                    &&& !present(final(room)@, nick@)
                    &&& (!present(old(room)@, nick@) ==> final(room)@ == old(room)@)
                    &&& forall|i: int|
                        0 <= i < old(room)@.len() && (#[trigger] old(room)@[i]).0 == nick@
                            ==> final(room)@ == old(room)@.remove(i)
                },
                _ => final(room)@ == old(room)@,
            },
    {
        if let Session::Joined { nick } = self {
            room.leave(nick);
        }
        *self = Session::Closed;
    }

    /// The lines to write to the connection for the events waiting in this
    /// session's mailbox, oldest first; the mailbox is left empty. A session
    /// that is not in the room has nothing waiting.
    pub fn drain(&self, room: &mut Room) -> (r: Vec<String>)
        requires
            old(room).wf(),
        ensures
            final(room).wf(),
            match *self {
                Session::Joined { nick } => {
                    &&& (!present(old(room)@, nick@) ==> final(room)@ == old(room)@ && r@.len() == 0)
                    &&& forall|i: int|
                        0 <= i < old(room)@.len() && (#[trigger] old(room)@[i]).0 == nick@
                            ==> r@.map_values(|s: String| s@) == old(room)@[i].1.map_values(
                            |e: EventView| event_text(e),
                        ) && final(room)@ == old(room)@.update(
                            i,
                            (nick@, Seq::<EventView>::empty()),
                        )
                },
                _ => final(room)@ == old(room)@ && r@.len() == 0,
            },
    {
        match self {
            Session::Joined { nick } => {
                let events = room.take_pending(nick);
                let mut out: Vec<String> = Vec::new();
                let mut i: usize = 0;
                while i < events.len()
                    invariant
                        i <= events@.len(),
                        out@.len() == i,
                        forall|j: int| 0 <= j < i ==> (#[trigger] out@[j])@ == event_text(events@[j]@),
                    decreases events@.len() - i,
                {
                    out.push(event_line(&events[i]));
                    i = i + 1;
                }
                assert(out@.map_values(|s: String| s@) =~= events@.map_values(|e: ChatEvent| e@).map_values(
                    |e: EventView| event_text(e),
                ));
                out
            },
            _ => Vec::new(),
        }
    }
}

} // verus!
