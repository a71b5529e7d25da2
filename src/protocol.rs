use vstd::prelude::*;
use vstd::string::*;
use crate::room::ChatEvent;

verus! {

/// The nicks joined in order, with a comma and a space between two of them.
pub open spec fn join_nicks(s: Seq<Seq<char>>) -> Seq<char>
    decreases s.len(),
{
    if s.len() == 0 {
        Seq::empty()
    } else if s.len() == 1 {
        s[0]
    } else {
        join_nicks(s.drop_last()) + ", "@ + s.last()
    }
}

/// The greeting that lists the members present before a user joined.
pub open spec fn roster_text(s: Seq<Seq<char>>) -> Seq<char> {
    "* The room contains: "@ + join_nicks(s) + "\n"@
}

/// How an event is shown to the members it is delivered to.
pub open spec fn event_text(e: (Seq<char>, Seq<char>)) -> Seq<char> {
    "["@ + e.0 + "]: "@ + e.1
}

/// `s` without one trailing `"\n"`, and then without one trailing `"\r"`.
pub open spec fn strip_line_end(s: Seq<char>) -> Seq<char> {
    let t = if s.len() > 0 && s.last() == '\n' { s.drop_last() } else { s };
    if t.len() > 0 && t.last() == '\r' { t.drop_last() } else { t }
}

/// The prompt that asks a new connection for its nick.
pub fn nick_prompt() -> (r: String)
    ensures
        r@ == "Nick?\n"@,
{
    String::from_str("Nick?\n")
}

/// The roster line for the nicks in `roster`, in their order.
pub fn roster_line(roster: &Vec<String>) -> (r: String)
    ensures
        r@ == roster_text(roster@.map_values(|s: String| s@)),
{
    let ghost names = roster@.map_values(|s: String| s@);
    let mut out = String::from_str("* The room contains: ");
    let mut i: usize = 0;
    while i < roster.len()
        invariant
            i <= roster@.len(),
            names == roster@.map_values(|s: String| s@),
            out@ == "* The room contains: "@ + join_nicks(names.take(i as int)),
        decreases roster@.len() - i,
    {
        let ghost prev = out@;
        if i > 0 {
            out.append(", ");
        }
        out.append(roster[i].as_str());
        assert(names.take(i + 1).drop_last() =~= names.take(i as int));
        assert(i == 0 ==> names.take(i + 1) =~= seq![names[0]]);
        assert(names.take(i + 1).last() == roster@[i as int]@);
        if i == 0 {
            assert(join_nicks(names.take(0)) =~= Seq::<char>::empty());
            assert(out@ =~= "* The room contains: "@ + join_nicks(names.take(i + 1)));
        } else {
            assert(out@ =~= "* The room contains: "@ + join_nicks(names.take(i + 1)));
        }
        i = i + 1;
    }
    assert(names.take(i as int) =~= names);
    out.append("\n");
    out
}

/// The line that relays `e` to another member.
pub fn event_line(e: &ChatEvent) -> (r: String)
    ensures
        r@ == event_text(e@),
{
    let mut out = String::from_str("[");
    out.append(e.from.as_str());
    out.append("]: ");
    out.append(e.text.as_str());
    out
}

/// A received line without its line terminator (`"\n"` or `"\r\n"`).
pub fn trim_line_end(line: &String) -> (r: String)
    ensures
        r@ == strip_line_end(line@),
{
    let s = line.as_str();
    let n = s.unicode_len();
    let mut end = n;
    if end > 0 && s.get_char(end - 1) == '\n' {
        end = end - 1;
        assert(line@.drop_last() =~= line@.subrange(0, end as int));
    } else {
        assert(line@ =~= line@.subrange(0, end as int));
    }
    let ghost mid = line@.subrange(0, end as int);
    if end > 0 && s.get_char(end - 1) == '\r' {
        end = end - 1;
        assert(mid.drop_last() =~= line@.subrange(0, end as int));
    }
    let r = String::from_str(s.substring_char(0, end));
    r
}

} // verus!
