//! Server logic for a handful of line- and frame-oriented network services.
//!
//! Chief among them is a multi-user chat room: nick validation (`nick`), the
//! registry of present users with their mailboxes (`room`), the wire text
//! (`protocol`) and the per-connection state machine (`session`). Beside it
//! stand a per-client store of timestamped prices that answers mean queries
//! (`prices`) and a primality check (`prime`).

pub mod nick;
pub mod room;
pub mod protocol;
pub mod session;
pub mod prices;
pub mod prime;
