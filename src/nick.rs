use vstd::prelude::*;
use vstd::string::*;
use vstd::utf8::encode_utf8;

verus! {

/// Longest nick, in characters, that a user may join with.
pub const MAX_NICK_LEN: usize = 128;

/// Longest chat line, in UTF-8 bytes, that the room relays.
pub const MAX_MESSAGE_LEN: usize = 1000;

/// Characters allowed in a nick: ASCII letters and digits.
pub open spec fn is_nick_char(c: char) -> bool {
    ('a' <= c && c <= 'z') || ('A' <= c && c <= 'Z') || ('0' <= c && c <= '9')
}

/// A nick is one to `MAX_NICK_LEN` ASCII letters and digits.
pub open spec fn nick_ok(s: Seq<char>) -> bool {
    1 <= s.len() <= MAX_NICK_LEN && forall|i: int| 0 <= i < s.len() ==> is_nick_char(#[trigger] s[i])
}

/// A chat line is at most `MAX_MESSAGE_LEN` bytes once encoded as UTF-8.
pub open spec fn message_ok(s: Seq<char>) -> bool {
    encode_utf8(s).len() <= MAX_MESSAGE_LEN
}

/// Whether `nick` may be used to join the room.
pub fn valid_nick(nick: &String) -> (r: bool)
    ensures
        r == nick_ok(nick@),
{
    let s = nick.as_str();
    let n = s.unicode_len();
    if n == 0 || n > MAX_NICK_LEN {
        return false;
    }
    let mut i: usize = 0;
    while i < n
        invariant
            n == s@.len(),
            s@ == nick@,
            i <= n,
            forall|j: int| 0 <= j < i ==> is_nick_char(#[trigger] s@[j]),
        decreases n - i,
    {
        let c = s.get_char(i);
        if !(('a' <= c && c <= 'z') || ('A' <= c && c <= 'Z') || ('0' <= c && c <= '9')) {
            return false;
        }
        i = i + 1;
    }
    true
}

/// Whether `message` is short enough to be relayed to the room.
pub fn valid_message(message: String) -> (r: bool)
    ensures
        r == message_ok(message@),
{
    message.as_str().as_bytes().len() <= MAX_MESSAGE_LEN
}

} // verus!
