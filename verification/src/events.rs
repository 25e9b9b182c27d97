//! What the client does on each server event: a console line, and for pings,
//! channel messages and private messages, the answer.
use vstd::prelude::*;
use crate::dispatch::{command_done, invocation_defined};
use crate::irc::{Irc, IrcView, VoidResult};
use crate::protocol::{bool_string, bool_text, decimal, decimal_string};
use crate::text::{
    borrow_all,
    drop_first_char,
    is_one_byte,
    join_all,
    join_with,
    lemma_split_on_nonempty,
    split_on,
    split_on_char,
    str_views,
    views,
};

verus! {

pub open spec fn connect_note(host: Seq<char>, port: u16, ssl: bool) -> Seq<char> {
    "[*] Connected to "@ + host + ":"@ + decimal(port as nat) + " (ssl: "@ + bool_text(ssl) + ")!"@
}

pub open spec fn channels_joined_note(channels: Seq<Seq<char>>) -> Seq<char> {
    "[*] Channels "@ + join_with(channels, ","@) + " joined."@
}

pub open spec fn ping_note(msg: Seq<char>) -> Seq<char> {
    "[*] Ping! ("@ + msg + ")"@
}

pub open spec fn join_note(from: Seq<char>, channel: Seq<char>) -> Seq<char> {
    "[*] "@ + from + " joined "@ + channel
}

pub open spec fn mode_note(
    from: Seq<char>,
    channel: Seq<char>,
    mode: Seq<char>,
    targets: Seq<Seq<char>>,
) -> Seq<char> {
    "[*] "@ + from + " set "@ + mode + " to "@ + join_with(targets, ","@) + " in "@ + channel
}

pub open spec fn topic_note(from: Seq<char>, channel: Seq<char>, topic: Seq<char>) -> Seq<char> {
    "[*] "@ + from + " set the topic of "@ + channel + " to "@ + topic
}

pub open spec fn nick_note(from: Seq<char>, new_nick: Seq<char>) -> Seq<char> {
    "[*] "@ + from + " is now "@ + new_nick
}

pub open spec fn notice_note(from: Seq<char>, target: Seq<char>, message: Seq<char>) -> Seq<char> {
    "[*] Notice from "@ + from + " to "@ + target + " -> "@ + message
}

pub open spec fn kick_note(
    from: Seq<char>,
    channel: Seq<char>,
    who: Seq<char>,
    reason: Seq<char>,
) -> Seq<char> {
    "[!] "@ + from + " kicked "@ + who + " from "@ + channel + " -> "@ + reason
}

pub open spec fn invite_note(from: Seq<char>, who: Seq<char>, channel: Seq<char>) -> Seq<char> {
    "[*] "@ + from + " Invited "@ + who + " to "@ + channel
}

pub open spec fn message_note(from: Seq<char>, channel: Seq<char>, message: Seq<char>) -> Seq<char> {
    "[*] Message from "@ + from + " in channel "@ + channel + " -> "@ + message + "."@
}

pub open spec fn part_note(from: Seq<char>, channel: Seq<char>, message: Seq<char>) -> Seq<char> {
    "[*] "@ + from + " part from "@ + channel + " -> "@ + message
}

pub open spec fn private_message_note(from: Seq<char>, message: Seq<char>) -> Seq<char> {
    "[*] Private Message from "@ + from + " -> "@ + message + "."@
}

pub open spec fn quit_note(reason: Seq<char>) -> Seq<char> {
    "[x] Quit! Reason: "@ + reason
}

/// A message invokes a command when it starts with the command prefix.
pub open spec fn invokes(prefix: Option<char>, message: Seq<char>) -> bool {
    prefix is Some && message.len() > 0 && message[0] == prefix->0
}

/// The words of an invocation: the message without its prefix, split at spaces.
pub open spec fn invocation_words(message: Seq<char>) -> Seq<Seq<char>> {
    split_on(message.drop_first(), ' ')
}

/// The words of an invocation are the message after its prefix, cut at each
/// space: joined with single spaces they give that text back, and none holds
/// a space.
pub proof fn law_invocation_words(message: Seq<char>)
    ensures
        join_with(invocation_words(message), " "@) == message.drop_first(),
        invocation_words(message).len() >= 1,
        forall|i: int|
            0 <= i < invocation_words(message).len() ==> !(#[trigger] invocation_words(
                message,
            )[i]).contains(' '),
{
    reveal_strlit(" ");
    assert(" "@ =~= seq![' ']);
    crate::text::law_split_join(message.drop_first(), ' ');
    crate::text::law_split_pieces_lack_sep(message.drop_first(), ' ');
    lemma_split_on_nonempty(message.drop_first(), ' ');
}

/// A message that does not start with the command prefix runs nothing: it
/// only adds its console line, and succeeds.
pub proof fn law_plain_message<F: Fn(&str, &str, Vec<String>) -> Vec<String>>(
    before: IrcView<F>,
    after: IrcView<F>,
    r: Result<(), crate::enums::IrcErrors>,
    from: Seq<char>,
    channel: Seq<char>,
    message: Seq<char>,
    private: bool,
)
    requires
        message_done(before, after, r, from, channel, message, private),
        !(before.prefix is Some && message.len() > 0 && message[0] == before.prefix->0),
    ensures
        r is Ok,
        after.outputs.len() == before.outputs.len() + 1,
        after.outputs.last() is Print,
        after.outputs.take(before.outputs.len() as int) == before.outputs,
{
    assert(after.outputs.take(before.outputs.len() as int) =~= before.outputs);
}

/// A message can be handled without panicking: when it invokes a command, the
/// prefix is one byte long (the message is cut after it) and the master check
/// the command needs can be made.
pub open spec fn message_defined<F>(
    s: IrcView<F>,
    from: Seq<char>,
    message: Seq<char>,
    private: bool,
) -> bool {
    invokes(s.prefix, message) ==> is_one_byte(s.prefix->0) && invocation_defined(
        s,
        from,
        invocation_words(message)[0],
        private,
    )
}

/// What handling a message (in a channel, or private) does and returns: a
/// console line, then the command it invokes, if any.
pub open spec fn message_done<F: Fn(&str, &str, Vec<String>) -> Vec<String>>(
    before: IrcView<F>,
    after: IrcView<F>,
    r: Result<(), crate::enums::IrcErrors>,
    from: Seq<char>,
    channel: Seq<char>,
    message: Seq<char>,
    private: bool,
) -> bool {
    let noted = before.print(
        if private {
            private_message_note(from, message)
        } else {
            message_note(from, channel, message)
        },
    );
    if invokes(before.prefix, message) {
        command_done(noted, after, r, from, channel, invocation_words(message), private)
    } else {
        r is Ok && after == noted
    }
}

impl<F> Irc<F> {
    /// Notes the connection on the console.
    pub fn on_connect(&mut self, host: &str, port: u16, ssl: bool) -> (r: VoidResult)
        ensures
            r is Ok,
            final(self)@ == old(self)@.print(connect_note(host@, port, ssl)),
    {
        let mut s = "[*] Connected to ".to_owned();
        s.append(host);
        s.append(":");
        s.append(decimal_string(port).as_str());
        s.append(" (ssl: ");
        s.append(bool_string(ssl).as_str());
        s.append(")!");
        self.print(s);
        Ok(())
    }

    /// Notes the disconnection on the console.
    pub fn on_disconnect(&mut self) -> (r: VoidResult)
        ensures
            r is Ok,
            final(self)@ == old(self)@.print("[*] Disconnected"@),
    {
        self.print("[*] Disconnected".to_owned());
        Ok(())
    }

    /// Notes the joined channels on the console.
    pub fn on_join_channels(&mut self, channels: Vec<String>) -> (r: VoidResult)
        ensures
            r is Ok,
            final(self)@ == old(self)@.print(channels_joined_note(views(channels@))),
    {
        let mut s = "[*] Channels ".to_owned();
        s.append(join_all(&channels, ",").as_str());
        s.append(" joined.");
        self.print(s);
        Ok(())
    }

    /// Notes the ping and answers it.
    pub fn on_ping(&mut self, ping_msg: &str) -> (r: VoidResult)
        ensures
            r is Ok,
            final(self)@ == old(self)@.print(ping_note(ping_msg@)).send("PONG "@ + ping_msg@),
    {
        let mut s = "[*] Ping! (".to_owned();
        s.append(ping_msg);
        s.append(")");
        self.print(s);
        self.pong(ping_msg)
    }

    pub fn on_join(&mut self, from: &str, channel: &str) -> (r: VoidResult)
        ensures
            r is Ok,
            final(self)@ == old(self)@.print(join_note(from@, channel@)),
    {
        let mut s = "[*] ".to_owned();
        s.append(from);
        s.append(" joined ");
        s.append(channel);
        self.print(s);
        Ok(())
    }

    pub fn on_mode(&mut self, from: &str, channel: &str, mode: &str, target: Vec<&str>) -> (r:
        VoidResult)
        ensures
            r is Ok,
            final(self)@ == old(self)@.print(mode_note(from@, channel@, mode@, str_views(target@))),
    {
        let targets = crate::text::owned_strings(&target);
        let mut s = "[*] ".to_owned();
        s.append(from);
        s.append(" set ");
        s.append(mode);
        s.append(" to ");
        s.append(join_all(&targets, ",").as_str());
        s.append(" in ");
        s.append(channel);
        self.print(s);
        Ok(())
    }

    pub fn on_topic(&mut self, from: &str, channel: &str, topic: &str) -> (r: VoidResult)
        ensures
            r is Ok,
            final(self)@ == old(self)@.print(topic_note(from@, channel@, topic@)),
    {
        let mut s = "[*] ".to_owned();
        s.append(from);
        s.append(" set the topic of ");
        s.append(channel);
        s.append(" to ");
        s.append(topic);
        self.print(s);
        Ok(())
    }

    pub fn on_nick(&mut self, from: &str, new_nick: &str) -> (r: VoidResult)
        ensures
            r is Ok,
            final(self)@ == old(self)@.print(nick_note(from@, new_nick@)),
    {
        let mut s = "[*] ".to_owned();
        s.append(from);
        s.append(" is now ");
        s.append(new_nick);
        self.print(s);
        Ok(())
    }

    pub fn on_notice(&mut self, from: &str, target: &str, message: &str) -> (r: VoidResult)
        ensures
            r is Ok,
            final(self)@ == old(self)@.print(notice_note(from@, target@, message@)),
    {
        let mut s = "[*] Notice from ".to_owned();
        s.append(from);
        s.append(" to ");
        s.append(target);
        s.append(" -> ");
        s.append(message);
        self.print(s);
        Ok(())
    }

    pub fn on_kick(&mut self, from: &str, channel: &str, who: &str, reason: &str) -> (r:
        VoidResult)
        ensures
            r is Ok,
            final(self)@ == old(self)@.print(kick_note(from@, channel@, who@, reason@)),
    {
        let mut s = "[!] ".to_owned();
        s.append(from);
        s.append(" kicked ");
        s.append(who);
        s.append(" from ");
        s.append(channel);
        s.append(" -> ");
        s.append(reason);
        self.print(s);
        Ok(())
    }

    pub fn on_invite(&mut self, from: &str, who: &str, channel: &str) -> (r: VoidResult)
        ensures
            r is Ok,
            final(self)@ == old(self)@.print(invite_note(from@, who@, channel@)),
    {
        let mut s = "[*] ".to_owned();
        s.append(from);
        s.append(" Invited ");
        s.append(who);
        s.append(" to ");
        s.append(channel);
        self.print(s);
        Ok(())
    }

    pub fn on_nick_in_use(&mut self) -> (r: VoidResult)
        ensures
            r is Ok,
            final(self)@ == old(self)@.print("[x] Nick already in use."@),
    {
        self.print("[x] Nick already in use.".to_owned());
        Ok(())
    }

    pub fn on_part(&mut self, from: &str, channel: &str, message: &str) -> (r: VoidResult)
        ensures
            r is Ok,
            final(self)@ == old(self)@.print(part_note(from@, channel@, message@)),
    {
        let mut s = "[*] ".to_owned();
        s.append(from);
        s.append(" part from ");
        s.append(channel);
        s.append(" -> ");
        s.append(message);
        self.print(s);
        Ok(())
    }

    pub fn on_quit(&mut self, reason: &str) -> (r: VoidResult)
        ensures
            r is Ok,
            final(self)@ == old(self)@.print(quit_note(reason@)),
    {
        let mut s = "[x] Quit! Reason: ".to_owned();
        s.append(reason);
        self.print(s);
        Ok(())
    }
}

impl<F: Fn(&str, &str, Vec<String>) -> Vec<String>> Irc<F> {
    /// Whether `message` invokes a command: the prefix is set and the message
    /// starts with it.
    fn starts_with_prefix(&self, message: &str) -> (r: bool)
        ensures
            r == invokes(self@.prefix, message@),
    {
        match self.prefix() {
            Some(p) => {
                let n = message.unicode_len();
                n > 0 && message.get_char(0) == *p
            },
            None => false,
        }
    }

    /// The words of an invocation, for a message whose prefix is one byte.
    fn words_of(message: &str) -> (r: Vec<String>)
        requires
            message@.len() > 0,
            is_one_byte(message@[0]),
        ensures
            views(r@) == invocation_words(message@),
            r@.len() >= 1,
    {
        let rest = drop_first_char(message);
        proof {
            lemma_split_on_nonempty(rest@, ' ');
        }
        split_on_char(rest.as_str(), ' ')
    }

    /// Notes a channel message; when it starts with the command prefix, runs
    /// the command it invokes.
    pub fn on_message(&mut self, from: &str, channel: &str, message: &str) -> (r: VoidResult)
        requires
            old(self)@.handlers_accept_all(),
            message_defined(old(self)@, from@, message@, false),
        ensures
            message_done(old(self)@, final(self)@, r, from@, channel@, message@, false),
    {
        let mut s = "[*] Message from ".to_owned();
        s.append(from);
        s.append(" in channel ");
        s.append(channel);
        s.append(" -> ");
        s.append(message);
        s.append(".");
        self.print(s);
        if self.starts_with_prefix(message) {
            let words = Self::words_of(message);
            let argv = borrow_all(&words);
            self.handle_command(from, channel, argv)
        } else {
            Ok(())
        }
    }

    /// Notes a private message; when it starts with the command prefix, runs
    /// the command it invokes.
    pub fn on_private_message(&mut self, from: &str, message: &str) -> (r: VoidResult)
        requires
            old(self)@.handlers_accept_all(),
            message_defined(old(self)@, from@, message@, true),
        ensures
            message_done(old(self)@, final(self)@, r, from@, Seq::empty(), message@, true),
    {
        let mut s = "[*] Private Message from ".to_owned();
        s.append(from);
        s.append(" -> ");
        s.append(message);
        s.append(".");
        self.print(s);
        if self.starts_with_prefix(message) {
            let words = Self::words_of(message);
            let argv = borrow_all(&words);
            self.handle_private_command(from, argv)
        } else {
            Ok(())
        }
    }
}

} // verus!
