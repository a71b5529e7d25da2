use vstd::prelude::*;
use vstd::pervasive::VecAdditionalExecFns;
use crate::nick::{nick_ok, valid_nick};

verus! {

/// A chat event as the room sees it: the sender's nick and the text.
pub type EventView = (Seq<char>, Seq<char>);

/// A member as the room sees it: the nick and the events still waiting in
/// the member's mailbox, oldest first.
pub type MemberView = (Seq<char>, Seq<EventView>);

/// One line of chat, tagged with the nick of the user who sent it.
pub struct ChatEvent {
    pub from: String,
    pub text: String,
}

impl View for ChatEvent {
    type V = EventView;

    open spec fn view(&self) -> EventView {
        (self.from@, self.text@)
    }
}

/// Why a join attempt was turned away.
#[derive(Debug, Clone, Copy, PartialEq, Eq, Structural)]
pub enum JoinError {
    /// The nick is empty, too long, or holds a character other than an ASCII
    /// letter or digit.
    InvalidNick,
    /// A present member already uses the nick.
    NickTaken,
}

struct Member {
    nick: String,
    mailbox: Vec<ChatEvent>,
}

/// The registry of present users, in the order in which they joined, each
/// with a mailbox of chat events not yet relayed to them.
///
/// Mailboxes are unbounded FIFO queues: a broadcast appends to every other
/// member's mailbox and never waits on a slow reader, and no event is dropped.
pub struct Room {
    members: Vec<Member>,
}

/// The nicks of the members, in join order.
pub open spec fn nicks_of(v: Seq<MemberView>) -> Seq<Seq<char>> {
    v.map_values(|m: MemberView| m.0)
}

/// Whether `nick` belongs to a present member.
pub open spec fn present(v: Seq<MemberView>, nick: Seq<char>) -> bool {
    exists|i: int| 0 <= i < v.len() && (#[trigger] v[i]).0 == nick
}

/// Every nick is well formed and no two members share one.
pub open spec fn room_wf(v: Seq<MemberView>) -> bool {
    &&& forall|i: int| 0 <= i < v.len() ==> nick_ok((#[trigger] v[i]).0)
    &&& forall|i: int, j: int| 0 <= i < v.len() && 0 <= j < v.len() && i != j
            ==> (#[trigger] v[i]).0 != (#[trigger] v[j]).0
}

/// A member after `text` from `from` was broadcast: every member but the
/// sender gets the event at the end of its mailbox.
pub open spec fn deliver(m: MemberView, from: Seq<char>, text: Seq<char>) -> MemberView {
    if m.0 == from {
        m
    } else {
        (m.0, m.1.push((from, text)))
    }
}

/// The room reached from an empty one by admitting `names` in order.
pub open spec fn joined_in_order(names: Seq<Seq<char>>) -> Seq<MemberView> {
    names.map_values(|n: Seq<char>| (n, Seq::<EventView>::empty()))
}

/// Admitting well-formed, pairwise distinct nicks one after another into an
/// empty room: before the `k`-th join the room holds exactly the first `k`
/// nicks, so that join succeeds, its roster is exactly those nicks, and the
/// room it leaves is the one for the first `k + 1`.
pub proof fn lemma_distinct_joins(names: Seq<Seq<char>>, k: int)
    requires
        0 <= k < names.len(),
        forall|i: int| 0 <= i < names.len() ==> nick_ok(#[trigger] names[i]),
        forall|i: int, j: int|
            0 <= i < names.len() && 0 <= j < names.len() && i != j ==> (#[trigger] names[i]) != (
            #[trigger] names[j]),
    ensures
        room_wf(joined_in_order(names.take(k))),
        nick_ok(names[k]),
        !present(joined_in_order(names.take(k)), names[k]),
        nicks_of(joined_in_order(names.take(k))) == names.take(k),
        joined_in_order(names.take(k)).push((names[k], Seq::<EventView>::empty()))
            == joined_in_order(names.take(k + 1)),
{
    let v = joined_in_order(names.take(k));
    assert(nicks_of(v) =~= names.take(k));
    assert(joined_in_order(names.take(k)).push((names[k], Seq::<EventView>::empty()))
        =~= joined_in_order(names.take(k + 1)));
    assert forall|i: int, j: int| 0 <= i < v.len() && 0 <= j < v.len() && i != j implies
        (#[trigger] v[i]).0 != (#[trigger] v[j]).0 by {
        assert(v[i].0 == names[i] && v[j].0 == names[j]);
    }
    if present(v, names[k]) {
        let i = choose|i: int| 0 <= i < v.len() && (#[trigger] v[i]).0 == names[k];
        assert(v[i].0 == names[i]);
    }
}

/// Of two attempts to join under one well-formed nick that is not present,
/// the first succeeds and the second finds the nick taken: the room then
/// holds exactly one member under that nick.
pub proof fn lemma_same_nick_once(v: Seq<MemberView>, nick: Seq<char>)
    requires
        room_wf(v),
        nick_ok(nick),
        !present(v, nick),
    ensures
        room_wf(v.push((nick, Seq::<EventView>::empty()))),
        present(v.push((nick, Seq::<EventView>::empty())), nick),
        forall|i: int|
            0 <= i < v.len() + 1 && (#[trigger] v.push((nick, Seq::<EventView>::empty()))[i]).0
                == nick ==> i == v.len(),
{
    let w = v.push((nick, Seq::<EventView>::empty()));
    assert(w[v.len() as int].0 == nick);
    assert forall|i: int, j: int| 0 <= i < w.len() && 0 <= j < w.len() && i != j implies
        (#[trigger] w[i]).0 != (#[trigger] w[j]).0 by {
        if i < v.len() {
            assert(w[i] == v[i]);
        }
        if j < v.len() {
            assert(w[j] == v[j]);
        }
    }
    assert forall|i: int| 0 <= i < v.len() + 1 && (#[trigger] w[i]).0 == nick implies i == v.len() by {
        if i < v.len() {
            assert(w[i] == v[i]);
        }
    }
}

/// Two broadcasts by one sender: the sender's mailbox is untouched, and every
/// other member gets each text exactly once, the earlier one first.
pub proof fn lemma_broadcast_fan_out(
    v: Seq<MemberView>,
    from: Seq<char>,
    first: Seq<char>,
    second: Seq<char>,
)
    ensures
        ({
            let w = v.map_values(|m: MemberView| deliver(m, from, first)).map_values(
                |m: MemberView| deliver(m, from, second),
            );
            &&& w.len() == v.len()
            &&& forall|i: int| 0 <= i < v.len() && (#[trigger] v[i]).0 == from ==> w[i] == v[i]
            &&& forall|i: int|
                0 <= i < v.len() && (#[trigger] v[i]).0 != from ==> w[i] == (
                    v[i].0,
                    v[i].1 + seq![(from, first), (from, second)],
                )
        }),
{
    let u = v.map_values(|m: MemberView| deliver(m, from, first));
    let w = u.map_values(|m: MemberView| deliver(m, from, second));
    assert forall|i: int| 0 <= i < v.len() && (#[trigger] v[i]).0 != from implies w[i] == (
        v[i].0,
        v[i].1 + seq![(from, first), (from, second)],
    ) by {
        assert(u[i] == deliver(v[i], from, first));
        assert(v[i].1.push((from, first)).push((from, second)) =~= v[i].1 + seq![
            (from, first),
            (from, second),
        ]);
    }
    assert forall|i: int| 0 <= i < v.len() && (#[trigger] v[i]).0 == from implies w[i] == v[i] by {
        assert(u[i] == v[i]);
    }
}

/// Once the member at `i` has left, its nick is free for a new join, and a
/// broadcast reaches only the members that remain: none of them is the one
/// that left.
pub proof fn lemma_leave_frees_nick(v: Seq<MemberView>, i: int, from: Seq<char>, text: Seq<char>)
    requires
        room_wf(v),
        0 <= i < v.len(),
    ensures
        room_wf(v.remove(i)),
        nick_ok(v[i].0),
        !present(v.remove(i), v[i].0),
        !present(v.remove(i).map_values(|m: MemberView| deliver(m, from, text)), v[i].0),
        nicks_of(v.remove(i).map_values(|m: MemberView| deliver(m, from, text))) == nicks_of(
            v.remove(i),
        ),
{
    let u = v.remove(i);
    let w = u.map_values(|m: MemberView| deliver(m, from, text));
    assert forall|a: int| 0 <= a < u.len() implies (#[trigger] u[a]).0 != v[i].0 by {
        if a < i {
            assert(u[a] == v[a]);
        } else {
            assert(u[a] == v[a + 1]);
        }
    }
    assert forall|a: int, b: int| 0 <= a < u.len() && 0 <= b < u.len() && a != b implies
        (#[trigger] u[a]).0 != (#[trigger] u[b]).0 by {
        let a2 = if a < i { a } else { a + 1 };
        let b2 = if b < i { b } else { b + 1 };
        assert(u[a] == v[a2] && u[b] == v[b2]);
    }
    assert forall|a: int| 0 <= a < u.len() implies nick_ok((#[trigger] u[a]).0) by {
        if a < i {
            assert(u[a] == v[a]);
        } else {
            assert(u[a] == v[a + 1]);
        }
    }
    assert(nicks_of(w) =~= nicks_of(u));
    assert forall|a: int| 0 <= a < w.len() implies (#[trigger] w[a]).0 != v[i].0 by {
        assert(w[a].0 == u[a].0);
    }
}

/// A malformed nick is never present in a room that keeps its invariant, so
/// no roster ever lists it.
pub proof fn lemma_invalid_nick_absent(v: Seq<MemberView>, nick: Seq<char>)
    requires
        room_wf(v),
        !nick_ok(nick),
    ensures
        !present(v, nick),
        !nicks_of(v).contains(nick),
{
    if nicks_of(v).contains(nick) {
        let i = choose|i: int| 0 <= i < nicks_of(v).len() && nicks_of(v)[i] == nick;
        assert(v[i].0 == nick);
    }
}

impl View for Room {
    type V = Seq<MemberView>;

    closed spec fn view(&self) -> Seq<MemberView> {
        self.members@.map_values(|m: Member| member_view(m))
    }
}

spec fn member_view(m: Member) -> MemberView {
    (m.nick@, m.mailbox@.map_values(|e: ChatEvent| e@))
}

impl Room {
    /// The room's invariant.
    pub open spec fn wf(&self) -> bool {
        room_wf(self@)
    }

    /// An empty room.
    pub fn new() -> (r: Room)
        ensures
            r@ == Seq::<MemberView>::empty(),
            r.wf(),
    {
        let r = Room { members: Vec::new() };
        assert(r@ =~= Seq::<MemberView>::empty());
        r
    }

    /// Number of present members.
    pub fn len(&self) -> (r: usize)
        ensures
            r == self@.len(),
    {
        self.members.len()
    }

    /// Position of the member called `nick`, if one is present.
    fn find(&self, nick: &String) -> (r: Option<usize>)
        ensures
            match r {
                Some(i) => i < self@.len() && self@[i as int].0 == nick@,
                None => !present(self@, nick@),
            },
    {
        let mut i: usize = 0;
        while i < self.members.len()
            invariant
                i <= self@.len(),
                self@.len() == self.members@.len(),
                forall|j: int| 0 <= j < i ==> (#[trigger] self@[j]).0 != nick@,
            decreases self.members@.len() - i,
        {
            if self.members[i].nick == *nick {
                return Some(i);
            }
            i = i + 1;
        }
        None
    }

    /// Whether a member called `nick` is present.
    pub fn has_user(&self, nick: &String) -> (r: bool)
        ensures
            r == present(self@, nick@),
    {
        self.find(nick).is_some()
    }

    /// The nicks of all present members, in join order.
    pub fn nicks(&self) -> (r: Vec<String>)
        ensures
            r@.map_values(|s: String| s@) == nicks_of(self@),
    {
        let mut out: Vec<String> = Vec::new();
        let mut i: usize = 0;
        while i < self.members.len()
            invariant
                i <= self@.len(),
                self@.len() == self.members@.len(),
                out@.len() == i,
                forall|j: int| 0 <= j < i ==> (#[trigger] out@[j])@ == self@[j].0,
            decreases self.members@.len() - i,
        {
            out.push(self.members[i].nick.clone());
            i = i + 1;
        }
        assert(out@.map_values(|s: String| s@) =~= nicks_of(self@));
        out
    }
    /// Admits a user called `nick`. On success the nick joins the end of the
    /// room with an empty mailbox, and the result holds the nicks that were
    /// present before, in join order; the newcomer's own nick is not among
    /// them. A malformed or already present nick leaves the room unchanged.
    pub fn try_join(&mut self, nick: &String) -> (r: Result<Vec<String>, JoinError>)
        requires
            old(self).wf(),
        ensures
            final(self).wf(),
            !nick_ok(nick@) ==> r == Err::<Vec<String>, JoinError>(JoinError::InvalidNick),
            nick_ok(nick@) && present(old(self)@, nick@) ==> r == Err::<Vec<String>, JoinError>(
                JoinError::NickTaken,
            ),
            r.is_err() ==> final(self)@ == old(self)@,
            r.is_ok() <==> nick_ok(nick@) && !present(old(self)@, nick@),
            r matches Ok(roster) ==> roster@.map_values(|s: String| s@) == nicks_of(old(self)@)
                && final(self)@ == old(self)@.push((nick@, Seq::<EventView>::empty())),
    {
        if !valid_nick(nick) {
            return Err(JoinError::InvalidNick);
        }
        if self.find(nick).is_some() {
            return Err(JoinError::NickTaken);
        }
        let roster = self.nicks();
        let ghost before = self@;
        let m = Member { nick: nick.clone(), mailbox: Vec::new() };
        assert(m.mailbox@.map_values(|e: ChatEvent| e@) =~= Seq::<EventView>::empty());
        self.members.push(m);
        assert(self@ =~= before.push((nick@, Seq::<EventView>::empty())));
        assert forall|i: int, j: int|
            0 <= i < self@.len() && 0 <= j < self@.len() && i != j implies
            (#[trigger] self@[i]).0 != (#[trigger] self@[j]).0 by {
            if i == before.len() {
                assert(before[j] == self@[j]);
            } else if j == before.len() {
                assert(before[i] == self@[i]);
            }
        }
        Ok(roster)
    }

    /// Removes the member called `nick` and discards its mailbox. Removing
    /// a nick that is not present changes nothing.
    pub fn leave(&mut self, nick: &String)
        requires
            old(self).wf(),
        ensures
            final(self).wf(),
            !present(old(self)@, nick@) ==> final(self)@ == old(self)@,
            forall|i: int|
                0 <= i < old(self)@.len() && (#[trigger] old(self)@[i]).0 == nick@
                    ==> final(self)@ == old(self)@.remove(i),
    {
        match self.find(nick) {
            None => {},
            Some(i) => {
                let ghost before = self@;
                self.members.remove(i);
                assert(self@ =~= before.remove(i as int));
                assert forall|k: int|
                    0 <= k < before.len() && (#[trigger] before[k]).0 == nick@
                        implies k == i as int by {}
            },
        }
    }

    /// Sends `text` from `from` to every member but `from`: each other
    /// member's mailbox gets the event at its end. Nobody joins or leaves.
    pub fn broadcast(&mut self, from: &String, text: &String)
        requires
            old(self).wf(),
        ensures
            final(self).wf(),
            final(self)@ == old(self)@.map_values(|m: MemberView| deliver(m, from@, text@)),
    {
        let ghost before = self@;
        let n = self.members.len();
        let mut i: usize = 0;
        while i < n
            invariant
                n == self.members@.len(),
                before.len() == n,
                i <= n,
                self@.len() == n,
                forall|j: int| 0 <= j < i ==> #[trigger] self@[j] == deliver(before[j], from@, text@),
                forall|j: int| i <= j < n ==> #[trigger] self@[j] == before[j],
            decreases n - i,
        {
            assert(self@[i as int] == member_view(self.members@[i as int]));
            let ghost cur = self@;
            if self.members[i].nick != *from {
                let mut m = Member { nick: String::new(), mailbox: Vec::new() };
                self.members.set_and_swap(i, &mut m);
                assert(member_view(m) == before[i as int]);
                let ghost mid = m.mailbox@;
                m.mailbox.push(ChatEvent { from: from.clone(), text: text.clone() });
                assert(m.mailbox@.map_values(|e: ChatEvent| e@) =~= mid.map_values(
                    |e: ChatEvent| e@,
                ).push((from@, text@)));
                assert(member_view(m) == deliver(before[i as int], from@, text@));
                self.members.set_and_swap(i, &mut m);
            }
            assert(self@ =~= cur.update(i as int, deliver(before[i as int], from@, text@)));
            i = i + 1;
        }
        assert(self@ =~= before.map_values(|m: MemberView| deliver(m, from@, text@)));
    }

    /// Hands over, oldest first, the events waiting in the mailbox of the
    /// member called `nick`, and leaves that mailbox empty. A nick that is
    /// not present has nothing waiting.
    pub fn take_pending(&mut self, nick: &String) -> (r: Vec<ChatEvent>)
        requires
            old(self).wf(),
        ensures
            final(self).wf(),
            !present(old(self)@, nick@) ==> final(self)@ == old(self)@ && r@.len() == 0,
            forall|i: int|
                0 <= i < old(self)@.len() && (#[trigger] old(self)@[i]).0 == nick@
                    ==> r@.map_values(|e: ChatEvent| e@) == old(self)@[i].1
                    && final(self)@ == old(self)@.update(i, (nick@, Seq::<EventView>::empty())),
    {
        match self.find(nick) {
            None => Vec::new(),
            Some(i) => {
                let ghost before = self@;
                let mut m = Member { nick: String::new(), mailbox: Vec::new() };
                self.members.set_and_swap(i, &mut m);
                let out = m.mailbox;
                let mut emptied = Member { nick: m.nick, mailbox: Vec::new() };
                assert(emptied.mailbox@.map_values(|e: ChatEvent| e@) =~= Seq::<EventView>::empty());
                self.members.set_and_swap(i, &mut emptied);
                assert(self@ =~= before.update(i as int, (nick@, Seq::<EventView>::empty())));
                assert forall|k: int|
                    0 <= k < before.len() && (#[trigger] before[k]).0 == nick@
                        implies k == i as int by {}
                out
            },
        }
    }
}

} // verus!
