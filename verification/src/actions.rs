//! Messages the client sends of its own accord: registration, joining and
//! leaving channels, answering pings.
use vstd::prelude::*;
use crate::irc::{Irc, IrcResult, IrcView, VoidResult};
use crate::text::{join_all, join_with, views};

verus! {

impl<F> Irc<F> {
    /// Joins the channels (one `JOIN` with the names separated by commas).
    pub fn join(&mut self, channels: Vec<String>) -> (r: VoidResult)
        ensures
            r is Ok,
            final(self)@ == old(self)@.send("JOIN "@ + join_with(views(channels@), ","@)),
    {
        let list = join_all(&channels, ",");
        let mut msg = "JOIN ".to_owned();
        msg.append(list.as_str());
        self.send(msg.as_str())
    }

    /// Leaves the channels (one `PART` with the names separated by commas).
    pub fn part(&mut self, channels: Vec<String>) -> (r: VoidResult)
        ensures
            r is Ok,
            final(self)@ == old(self)@.send("PART "@ + join_with(views(channels@), ","@)),
    {
        let list = join_all(&channels, ",");
        let mut msg = "PART ".to_owned();
        msg.append(list.as_str());
        self.send(msg.as_str())
    }

    /// Answers a ping with the same token.
    pub fn pong(&mut self, ping_msg: &str) -> (r: VoidResult)
        ensures
            r is Ok,
            final(self)@ == old(self)@.send("PONG "@ + ping_msg@),
    {
        let mut msg = "PONG ".to_owned();
        msg.append(ping_msg);
        self.send(msg.as_str())
    }

    /// Records the user and real name and sends `USER` then `NICK`; never fails.
    pub fn register(self, user: &str, real_name: &str) -> (r: IrcResult<F>)
        ensures
            r matches Ok(irc) && irc@ == (IrcView {
                user: Some(user@),
                real_name: Some(real_name@),
                ..self@
            }).send("USER "@ + user@ + " 0 * :"@ + real_name@).send("NICK "@ + self@.nick),
    {
        let mut irc = self;
        irc.set_user(user.to_owned());
        irc.set_real(real_name.to_owned());
        let mut first = "USER ".to_owned();
        first.append(user);
        first.append(" 0 * :");
        first.append(real_name);
        let _ = irc.send(first.as_str());
        let mut second = "NICK ".to_owned();
        second.append(irc.nick().as_str());
        let _ = irc.send(second.as_str());
        Ok(irc)
    }
}

} // verus!
