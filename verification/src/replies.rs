//! The replies of the bot's own commands.
use vstd::prelude::*;
use crate::text::views;

verus! {

/// The `help` command: a channel message that asks the sender what they want.
pub fn help_func(from: &str, channel: &str, _argv: Vec<String>) -> (r: Vec<String>)
    ensures
        views(r@) == seq!["PRIVMSG "@ + channel@ + " :"@ + from@ + ": melp?"@],
{
    let mut line = "PRIVMSG ".to_owned();
    line.append(channel);
    line.append(" :");
    line.append(from);
    line.append(": melp?");
    let mut ret: Vec<String> = Vec::new();
    ret.push(line);
    assert(views(ret@) =~= seq!["PRIVMSG "@ + channel@ + " :"@ + from@ + ": melp?"@]);
    ret
}

/// The `melp` command: a CTCP ACTION in the channel.
pub fn melp_func(_from: &str, channel: &str, _argv: Vec<String>) -> (r: Vec<String>)
    ensures
        views(r@) == seq!["PRIVMSG "@ + channel@ + " :\x01ACTION explodes.\x01"@],
{
    let mut line = "PRIVMSG ".to_owned();
    line.append(channel);
    line.append(" :\x01ACTION explodes.\x01");
    let mut ret: Vec<String> = Vec::new();
    ret.push(line);
    assert(views(ret@) =~= seq!["PRIVMSG "@ + channel@ + " :\x01ACTION explodes.\x01"@]);
    ret
}

} // verus!
