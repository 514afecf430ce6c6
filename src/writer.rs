use vstd::prelude::*;

verus! {

/// `JOIN <channel>`
pub open spec fn join_line(chan: Seq<char>) -> Seq<char> {
    seq!['J', 'O', 'I', 'N', ' '] + chan
}

/// `PRIVMSG <target> :<text>`
pub open spec fn privmsg_line(target: Seq<char>, text: Seq<char>) -> Seq<char> {
    seq!['P', 'R', 'I', 'V', 'M', 'S', 'G', ' '] + target + seq![' ', ':'] + text
}

/// `PONG <token>`
pub open spec fn pong_line(token: Seq<char>) -> Seq<char> {
    seq!['P', 'O', 'N', 'G', ' '] + token
}

/// `NICK <nick>`
pub open spec fn nick_line(nick: Seq<char>) -> Seq<char> {
    seq!['N', 'I', 'C', 'K', ' '] + nick
}

/// `USER <nick> 0 * :<description>`
pub open spec fn user_line(nick: Seq<char>, descr: Seq<char>) -> Seq<char> {
    seq!['U', 'S', 'E', 'R', ' '] + nick + seq![' ', '0', ' ', '*', ' ', ':'] + descr
}

/// A string of `head` followed by `tail`.
pub(crate) fn glue(head: &str, tail: &str) -> (r: String)
    ensures
        r@ == head@ + tail@,
{
    let mut r = String::from_str(head);
    r.append(tail);
    r
}

/// The request to join `chan`.
pub fn join(chan: &str) -> (r: String)
    ensures
        r@ == join_line(chan@),
{
    proof {
        reveal_strlit("JOIN ");
    }
    glue("JOIN ", chan)
}

/// The request to send `text` to `target`.
pub fn privmsg(target: &str, text: &str) -> (r: String)
    ensures
        r@ == privmsg_line(target@, text@),
{
    proof {
        reveal_strlit("PRIVMSG ");
        reveal_strlit(" :");
    }
    let mut r = glue("PRIVMSG ", target);
    r.append(" :");
    r.append(text);
    assert(r@ =~= privmsg_line(target@, text@));
    r
}

/// The answer to a keepalive that carried `token`.
pub fn pong(token: &str) -> (r: String)
    ensures
        r@ == pong_line(token@),
{
    proof {
        reveal_strlit("PONG ");
    }
    glue("PONG ", token)
}

/// The two lines that register a session: the nickname claim, then the user line.
pub fn identify(nick: &str, descr: &str) -> (r: Vec<String>)
    ensures
        r@.len() == 2,
        r@[0]@ == nick_line(nick@),
        r@[1]@ == user_line(nick@, descr@),
{
    proof {
        reveal_strlit("NICK ");
        reveal_strlit("USER ");
        reveal_strlit(" 0 * :");
    }
    let first = glue("NICK ", nick);
    let mut second = glue("USER ", nick);
    second.append(" 0 * :");
    second.append(descr);
    assert(second@ =~= user_line(nick@, descr@));
    let mut r: Vec<String> = Vec::new();
    r.push(first);
    r.push(second);
    r
}

} // verus!
