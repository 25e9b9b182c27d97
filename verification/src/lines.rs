//! Reading a server line: what event it carries, and the client's response.
use vstd::prelude::*;
use crate::enums::{IrcErrors, StatusCode};
use crate::dispatch::{invocation_defined, command_done, echoed_sends, invocation, nick_of, private_invocation_note, sends, Invocation};
use crate::events::{
    invocation_words,
    invokes,
    message_note,
    private_message_note,
    invite_note,
    join_note,
    kick_note,
    message_defined,
    message_done,
    mode_note,
    nick_note,
    notice_note,
    part_note,
    ping_note,
    quit_note,
    topic_note,
};
use crate::irc::{Irc, IrcView, VoidResult};
use crate::protocol::status_of;
use crate::text::{
    is_one_byte,
    borrow_all,
    can_drop_first_byte,
    clone_strings,
    drop_first_char,
    join_from,
    join_with,
    lemma_split_on_nonempty,
    split_on,
    split_on_char,
    str_eq,
    views,
};

verus! {

/// What a server line carries.
pub enum Event {
    Ping(String),
    Quit(String),
    NickInUse,
    Welcome,
    Join { from: String, channel: String },
    Part { from: String, channel: String, message: String },
    Mode { from: String, channel: String, mode: String, targets: Vec<String> },
    Nick { from: String, new_nick: String },
    Notice { from: String, target: String, message: String },
    Kick { from: String, channel: String, who: String, reason: String },
    Invite { from: String, who: String, channel: String },
    Topic { from: String, channel: String, topic: String },
    ChannelMessage { from: String, channel: String, message: String },
    PrivateMessage { from: String, message: String },
    /// A `PRIVMSG` with an empty target.
    NoTarget,
    /// A status the client does not know.
    Unrecognized,
    /// A known status the client does nothing about.
    Ignored,
}

/// The mathematical value of an [`Event`].
pub enum EventView {
    Ping(Seq<char>),
    Quit(Seq<char>),
    NickInUse,
    Welcome,
    Join { from: Seq<char>, channel: Seq<char> },
    Part { from: Seq<char>, channel: Seq<char>, message: Seq<char> },
    Mode { from: Seq<char>, channel: Seq<char>, mode: Seq<char>, targets: Seq<Seq<char>> },
    Nick { from: Seq<char>, new_nick: Seq<char> },
    Notice { from: Seq<char>, target: Seq<char>, message: Seq<char> },
    Kick { from: Seq<char>, channel: Seq<char>, who: Seq<char>, reason: Seq<char> },
    Invite { from: Seq<char>, who: Seq<char>, channel: Seq<char> },
    Topic { from: Seq<char>, channel: Seq<char>, topic: Seq<char> },
    ChannelMessage { from: Seq<char>, channel: Seq<char>, message: Seq<char> },
    PrivateMessage { from: Seq<char>, message: Seq<char> },
    NoTarget,
    Unrecognized,
    Ignored,
}

impl View for Event {
    type V = EventView;

    open spec fn view(&self) -> EventView {
        match self {
            Event::Ping(m) => EventView::Ping(m@),
            Event::Quit(m) => EventView::Quit(m@),
            Event::NickInUse => EventView::NickInUse,
            Event::Welcome => EventView::Welcome,
            Event::Join { from, channel } => EventView::Join { from: from@, channel: channel@ },
            Event::Part { from, channel, message } => EventView::Part {
                from: from@,
                channel: channel@,
                message: message@,
            },
            Event::Mode { from, channel, mode, targets } => EventView::Mode {
                from: from@,
                channel: channel@,
                mode: mode@,
                targets: views(targets@),
            },
            Event::Nick { from, new_nick } => EventView::Nick { from: from@, new_nick: new_nick@ },
            Event::Notice { from, target, message } => EventView::Notice {
                from: from@,
                target: target@,
                message: message@,
            },
            Event::Kick { from, channel, who, reason } => EventView::Kick {
                from: from@,
                channel: channel@,
                who: who@,
                reason: reason@,
            },
            Event::Invite { from, who, channel } => EventView::Invite {
                from: from@,
                who: who@,
                channel: channel@,
            },
            Event::Topic { from, channel, topic } => EventView::Topic {
                from: from@,
                channel: channel@,
                topic: topic@,
            },
            Event::ChannelMessage { from, channel, message } => EventView::ChannelMessage {
                from: from@,
                channel: channel@,
                message: message@,
            },
            Event::PrivateMessage { from, message } => EventView::PrivateMessage {
                from: from@,
                message: message@,
            },
            Event::NoTarget => EventView::NoTarget,
            Event::Unrecognized => EventView::Unrecognized,
            Event::Ignored => EventView::Ignored,
        }
    }
}

/// The words of a line from the `k`th on, joined with spaces again.
pub open spec fn rest_of(items: Seq<Seq<char>>, k: int) -> Seq<char> {
    join_with(items.skip(k), " "@)
}

/// The event a line carries: its words are split at spaces; the first is the
/// source (`:` and the sender) or `PING`, the second the status. `None` where
/// reading the line needs a word that is missing, or cuts the first character
/// off a word that is empty or starts with a character of more than one byte.
pub open spec fn event_of(line: Seq<char>) -> Option<EventView> {
    let items = split_on(line, ' ');
    let n = items.len();
    if items[0] == "PING"@ {
        if n >= 2 && can_drop_first_byte(items[1]) {
            Some(EventView::Ping(items[1].drop_first()))
        } else {
            None
        }
    } else if items[0] == ":Closing Link:"@ {
        if n >= 3 {
            Some(EventView::Quit(rest_of(items, 3)))
        } else {
            None
        }
    } else if n < 2 || !can_drop_first_byte(items[0]) {
        None
    } else {
        let from = items[0].drop_first();
        match status_of(items[1]) {
            StatusCode::ERR_NICKNAMEINUSE => Some(EventView::NickInUse),
            StatusCode::RPL_WELCOME => Some(EventView::Welcome),
            StatusCode::JOIN => if n >= 3 && can_drop_first_byte(items[2]) {
                Some(EventView::Join { from, channel: items[2].drop_first() })
            } else {
                None
            },
            StatusCode::PART => if n >= 3 && can_drop_first_byte(rest_of(items, 3)) {
                Some(
                    EventView::Part {
                        from,
                        channel: items[2],
                        message: rest_of(items, 3).drop_first(),
                    },
                )
            } else {
                None
            },
            StatusCode::MODE => if n >= 4 {
                Some(
                    EventView::Mode {
                        from,
                        channel: items[2],
                        mode: items[3],
                        targets: items.skip(4),
                    },
                )
            } else {
                None
            },
            StatusCode::NICK => if n >= 3 && can_drop_first_byte(items[2]) {
                Some(EventView::Nick { from, new_nick: items[2].drop_first() })
            } else {
                None
            },
            StatusCode::NOTICE => if n >= 3 && can_drop_first_byte(rest_of(items, 3)) {
                Some(
                    EventView::Notice {
                        from,
                        target: items[2],
                        message: rest_of(items, 3).drop_first(),
                    },
                )
            } else {
                None
            },
            StatusCode::KICK => if n >= 4 && can_drop_first_byte(rest_of(items, 4)) {
                Some(
                    EventView::Kick {
                        from,
                        channel: items[2],
                        who: items[3],
                        reason: rest_of(items, 4).drop_first(),
                    },
                )
            } else {
                None
            },
            StatusCode::INVITE => if n >= 4 && can_drop_first_byte(items[3]) {
                Some(EventView::Invite { from, who: items[2], channel: items[3].drop_first() })
            } else {
                None
            },
            StatusCode::TOPIC => if n >= 3 && can_drop_first_byte(rest_of(items, 3)) {
                Some(
                    EventView::Topic {
                        from,
                        channel: items[2],
                        topic: rest_of(items, 3).drop_first(),
                    },
                )
            } else {
                None
            },
            StatusCode::PRIVMSG => if n >= 3 && can_drop_first_byte(rest_of(items, 3)) {
                let message = rest_of(items, 3).drop_first();
                if items[2].len() == 0 {
                    Some(EventView::NoTarget)
                } else if items[2][0] == '#' {
                    Some(EventView::ChannelMessage { from, channel: items[2], message })
                } else {
                    Some(EventView::PrivateMessage { from, message })
                }
            } else {
                None
            },
            StatusCode::UNKNOWN => Some(EventView::Unrecognized),
            _ => Some(EventView::Ignored),
        }
    }
}

/// The client can take the line: it carries an event, and a message event
/// can be handled (see [`message_defined`]).
pub open spec fn line_defined<F>(s: IrcView<F>, line: Seq<char>) -> bool {
    match event_of(line) {
        None => false,
        Some(e) => match e {
            EventView::ChannelMessage { from, channel, message } => message_defined(
                s,
                from,
                message,
                false,
            ),
            EventView::PrivateMessage { from, message } => message_defined(s, from, message, true),
            _ => true,
        },
    }
}

/// Every line that reads as an event can be taken, except a message that
/// invokes a command which cannot be run without panicking: one whose prefix
/// is longer than a byte, or whose master check meets a mask that does not
/// compile. A line that does not read as an event cannot be taken.
pub proof fn law_line_defined<F>(s: IrcView<F>, line: Seq<char>)
    ensures
        event_of(line) is None ==> !line_defined(s, line),
        event_of(line) matches Some(e) && !(e is ChannelMessage) && !(e is PrivateMessage)
            ==> line_defined(s, line),
        event_of(line) matches Some(EventView::ChannelMessage { from, channel, message }) ==> (
        line_defined(s, line) <==> (invokes(s.prefix, message) ==> is_one_byte(s.prefix->0)
            && invocation_defined(s, from, invocation_words(message)[0], false))),
        event_of(line) matches Some(EventView::PrivateMessage { from, message }) ==> (line_defined(
            s,
            line,
        ) <==> (invokes(s.prefix, message) ==> is_one_byte(s.prefix->0) && invocation_defined(
            s,
            from,
            invocation_words(message)[0],
            true,
        ))),
{
}

/// The client's response to an event: the state after it and the result.
pub open spec fn event_done<F: Fn(&str, &str, Vec<String>) -> Vec<String>>(
    before: IrcView<F>,
    after: IrcView<F>,
    r: Result<(), IrcErrors>,
    e: EventView,
) -> bool {
    match e {
        EventView::Ping(m) => r is Ok && after == before.print(ping_note(m)).send("PONG "@ + m),
        EventView::Quit(reason) => r is Ok && after == before.print(quit_note(reason)),
        EventView::NickInUse => r is Ok && after == before.print("[x] Nick already in use."@),
        EventView::Welcome => r is Ok && after == before.send(
            "JOIN "@ + join_with(before.channels, ","@),
        ),
        EventView::Join { from, channel } => r is Ok && after == before.print(
            join_note(from, channel),
        ),
        EventView::Part { from, channel, message } => r is Ok && after == before.print(
            part_note(from, channel, message),
        ),
        EventView::Mode { from, channel, mode, targets } => r is Ok && after == before.print(
            mode_note(from, channel, mode, targets),
        ),
        EventView::Nick { from, new_nick } => r is Ok && after == before.print(
            nick_note(from, new_nick),
        ),
        EventView::Notice { from, target, message } => r is Ok && after == before.print(
            notice_note(from, target, message),
        ),
        EventView::Kick { from, channel, who, reason } => r is Ok && after == before.print(
            kick_note(from, channel, who, reason),
        ),
        EventView::Invite { from, who, channel } => r is Ok && after == before.print(
            invite_note(from, who, channel),
        ),
        EventView::Topic { from, channel, topic } => r is Ok && after == before.print(
            topic_note(from, channel, topic),
        ),
        EventView::ChannelMessage { from, channel, message } => message_done(
            before,
            after,
            r,
            from,
            channel,
            message,
            false,
        ),
        EventView::PrivateMessage { from, message } => message_done(
            before,
            after,
            r,
            from,
            Seq::empty(),
            message,
            true,
        ),
        EventView::NoTarget => r == Err::<(), IrcErrors>(IrcErrors::Unknown) && after == before,
        EventView::Unrecognized => r == Err::<(), IrcErrors>(IrcErrors::Unknown) && after == before,
        EventView::Ignored => r is Ok && after == before,
    }
}

/// `after` is `before` with outputs added after the old ones, and nothing
/// else changed.
pub open spec fn only_appended<F>(before: IrcView<F>, after: IrcView<F>) -> bool {
    &&& after == (IrcView { outputs: after.outputs, ..before })
    &&& after.outputs.len() >= before.outputs.len()
    &&& after.outputs.take(before.outputs.len() as int) == before.outputs
}

proof fn lemma_appended_trans<F>(a: IrcView<F>, b: IrcView<F>, c: IrcView<F>)
    requires
        only_appended(a, b),
        only_appended(b, c),
    ensures
        only_appended(a, c),
{
    assert(c.outputs.take(a.outputs.len() as int) =~= b.outputs.take(a.outputs.len() as int));
}

proof fn lemma_appended_by<F>(a: IrcView<F>, extra: Seq<crate::enums::OutputView>)
    ensures
        only_appended(a, IrcView { outputs: a.outputs + extra, ..a }),
{
    assert((a.outputs + extra).take(a.outputs.len() as int) =~= a.outputs);
}

proof fn lemma_command_only_appends<F: Fn(&str, &str, Vec<String>) -> Vec<String>>(
    before: IrcView<F>,
    after: IrcView<F>,
    r: Result<(), IrcErrors>,
    from: Seq<char>,
    target: Seq<char>,
    argv: Seq<Seq<char>>,
    private: bool,
)
    requires
        command_done(before, after, r, from, target, argv, private),
    ensures
        only_appended(before, after),
{
    let noted = if private {
        before.print(private_invocation_note(from, argv[0]))
    } else {
        before
    };
    let to = if private {
        nick_of(from)
    } else {
        target
    };
    lemma_appended_by(before, Seq::<crate::enums::OutputView>::empty());
    assert(before.outputs + Seq::<crate::enums::OutputView>::empty() =~= before.outputs);
    if private {
        lemma_appended_by(before, seq![crate::enums::OutputView::Print(private_invocation_note(from, argv[0]))]);
        assert(before.outputs + seq![crate::enums::OutputView::Print(private_invocation_note(from, argv[0]))] =~= noted.outputs);
    }
    assert(only_appended(before, noted));
    match invocation(before, from, argv[0], private) {
        Invocation::Run(f) => {
            let (a, b, v, out) = choose|a: &str, b: &str, v: Vec<String>, out: Vec<String>|
                a@ == from && b@ == to && views(v@) == argv && #[trigger] call_ensures(f, (a, b, v), out)
                    && after == (IrcView {
                    outputs: noted.outputs + (if private {
                        echoed_sends(views(out@))
                    } else {
                        sends(views(out@))
                    }),
                    ..noted
                });
            lemma_appended_by(noted, if private {
                echoed_sends(views(out@))
            } else {
                sends(views(out@))
            });
            lemma_appended_trans(before, noted, after);
        },
        _ => {},
    }
}

/// Responding to a line changes nothing in the client but its outputs, and
/// only adds outputs after those already there.
pub proof fn law_line_only_appends<F: Fn(&str, &str, Vec<String>) -> Vec<String>>(
    before: IrcView<F>,
    after: IrcView<F>,
    r: Result<(), IrcErrors>,
    e: EventView,
)
    requires
        event_done(before, after, r, e),
    ensures
        only_appended(before, after),
{
    lemma_appended_by(before, Seq::<crate::enums::OutputView>::empty());
    assert(before.outputs + Seq::<crate::enums::OutputView>::empty() =~= before.outputs);
    match e {
        EventView::ChannelMessage { from, channel, message } => {
            let noted = before.print(message_note(from, channel, message));
            lemma_appended_by(before, seq![crate::enums::OutputView::Print(message_note(from, channel, message))]);
            assert(before.outputs + seq![crate::enums::OutputView::Print(message_note(from, channel, message))] =~= noted.outputs);
            if invokes(before.prefix, message) {
                lemma_command_only_appends(noted, after, r, from, channel, invocation_words(message), false);
                lemma_appended_trans(before, noted, after);
            }
        },
        EventView::PrivateMessage { from, message } => {
            let noted = before.print(private_message_note(from, message));
            lemma_appended_by(before, seq![crate::enums::OutputView::Print(private_message_note(from, message))]);
            assert(before.outputs + seq![crate::enums::OutputView::Print(private_message_note(from, message))] =~= noted.outputs);
            if invokes(before.prefix, message) {
                lemma_command_only_appends(noted, after, r, from, Seq::empty(), invocation_words(message), true);
                lemma_appended_trans(before, noted, after);
            }
        },
        EventView::Ping(m) => {
            let a = before.print(ping_note(m));
            lemma_appended_by(before, seq![crate::enums::OutputView::Print(ping_note(m))]);
            assert(before.outputs + seq![crate::enums::OutputView::Print(ping_note(m))] =~= a.outputs);
            lemma_appended_by(a, seq![crate::enums::OutputView::Send("PONG "@ + m)]);
            assert(a.outputs + seq![crate::enums::OutputView::Send("PONG "@ + m)] =~= after.outputs);
            lemma_appended_trans(before, a, after);
        },
        EventView::NoTarget | EventView::Unrecognized | EventView::Ignored => {},
        _ => {
            assert(after.outputs.len() == before.outputs.len() + 1);
            assert(after.outputs.take(before.outputs.len() as int) =~= before.outputs);
        },
    }
}

/// Whether `s[1..]` is defined.
fn can_drop_first(s: &str) -> (r: bool)
    ensures
        r == can_drop_first_byte(s@),
{
    let n = s.unicode_len();
    if n == 0 {
        false
    } else {
        let c = s.get_char(0);
        (c as u32) < 128
    }
}

/// The event a line carries; `None` where reading it would fail.
pub fn parse_line(line: &str) -> (r: Option<Event>)
    ensures
        match r {
            Some(e) => event_of(line@) == Some(e@),
            None => event_of(line@) is None,
        },
{
    let items = split_on_char(line, ' ');
    proof {
        lemma_split_on_nonempty(line@, ' ');
        reveal_strlit(" ");
    }
    let ghost iv = views(items@);
    let n = items.len();
    if str_eq(items[0].as_str(), "PING") {
        if n >= 2 && can_drop_first(items[1].as_str()) {
            return Some(Event::Ping(drop_first_char(items[1].as_str())));
        }
        return None;
    }
    if str_eq(items[0].as_str(), ":Closing Link:") {
        if n >= 3 {
            return Some(Event::Quit(join_from(&items, 3, " ")));
        }
        return None;
    }
    if n < 2 || !can_drop_first(items[0].as_str()) {
        return None;
    }
    let code = StatusCode::from_token(items[1].as_str());
    let from = drop_first_char(items[0].as_str());
    match code {
        StatusCode::ERR_NICKNAMEINUSE => Some(Event::NickInUse),
        StatusCode::RPL_WELCOME => Some(Event::Welcome),
        StatusCode::JOIN => {
            if n >= 3 && can_drop_first(items[2].as_str()) {
                Some(Event::Join { from, channel: drop_first_char(items[2].as_str()) })
            } else {
                None
            }
        },
        StatusCode::PART => {
            if n < 3 {
                return None;
            }
            let rest = join_from(&items, 3, " ");
            if can_drop_first(rest.as_str()) {
                Some(
                    Event::Part {
                        from,
                        channel: items[2].clone(),
                        message: drop_first_char(rest.as_str()),
                    },
                )
            } else {
                None
            }
        },
        StatusCode::MODE => {
            if n >= 4 {
                let targets = tail_strings(&items, 4);
                Some(
                    Event::Mode {
                        from,
                        channel: items[2].clone(),
                        mode: items[3].clone(),
                        targets,
                    },
                )
            } else {
                None
            }
        },
        StatusCode::NICK => {
            if n >= 3 && can_drop_first(items[2].as_str()) {
                Some(Event::Nick { from, new_nick: drop_first_char(items[2].as_str()) })
            } else {
                None
            }
        },
        StatusCode::NOTICE => {
            if n < 3 {
                return None;
            }
            let rest = join_from(&items, 3, " ");
            if can_drop_first(rest.as_str()) {
                Some(
                    Event::Notice {
                        from,
                        target: items[2].clone(),
                        message: drop_first_char(rest.as_str()),
                    },
                )
            } else {
                None
            }
        },
        StatusCode::KICK => {
            if n < 4 {
                return None;
            }
            let rest = join_from(&items, 4, " ");
            if can_drop_first(rest.as_str()) {
                Some(
                    Event::Kick {
                        from,
                        channel: items[2].clone(),
                        who: items[3].clone(),
                        reason: drop_first_char(rest.as_str()),
                    },
                )
            } else {
                None
            }
        },
        StatusCode::INVITE => {
            if n >= 4 && can_drop_first(items[3].as_str()) {
                Some(
                    Event::Invite {
                        from,
                        who: items[2].clone(),
                        channel: drop_first_char(items[3].as_str()),
                    },
                )
            } else {
                None
            }
        },
        StatusCode::TOPIC => {
            if n < 3 {
                return None;
            }
            let rest = join_from(&items, 3, " ");
            if can_drop_first(rest.as_str()) {
                Some(
                    Event::Topic {
                        from,
                        channel: items[2].clone(),
                        topic: drop_first_char(rest.as_str()),
                    },
                )
            } else {
                None
            }
        },
        StatusCode::PRIVMSG => {
            if n < 3 {
                return None;
            }
            let rest = join_from(&items, 3, " ");
            if !can_drop_first(rest.as_str()) {
                return None;
            }
            let message = drop_first_char(rest.as_str());
            let channel = items[2].as_str();
            if channel.unicode_len() == 0 {
                Some(Event::NoTarget)
            } else if channel.get_char(0) == '#' {
                Some(Event::ChannelMessage { from, channel: items[2].clone(), message })
            } else {
                Some(Event::PrivateMessage { from, message })
            }
        },
        StatusCode::UNKNOWN => Some(Event::Unrecognized),
        _ => Some(Event::Ignored),
    }
}

/// Owned copies of `items[k..]`.
fn tail_strings(items: &Vec<String>, k: usize) -> (r: Vec<String>)
    requires
        k <= items@.len(),
    ensures
        views(r@) == views(items@).skip(k as int),
{
    let mut r: Vec<String> = Vec::new();
    let n = items.len();
    let mut i: usize = k;
    while i < n
        invariant
            n == items@.len(),
            k <= i <= n,
            views(r@) == views(items@).subrange(k as int, i as int),
        decreases n - i,
    {
        let ghost before = views(r@);
        r.push(items[i].clone());
        assert(views(r@) =~= views(items@).subrange(k as int, i + 1)) by {
            assert(views(items@).subrange(k as int, i + 1) =~= before.push(items@[i as int]@));
        }
        i += 1;
    }
    assert(views(items@).subrange(k as int, n as int) =~= views(items@).skip(k as int));
    r
}

impl<F: Fn(&str, &str, Vec<String>) -> Vec<String>> Irc<F> {
    /// Whether [`Irc::handle_line`] can take `line`.
    pub fn line_is_defined(&self, line: &str) -> (r: bool)
        ensures
            r == line_defined(self@, line@),
    {
        match parse_line(line) {
            None => false,
            Some(Event::ChannelMessage { from, channel: _, message }) => self.message_is_defined(
                from.as_str(),
                message.as_str(),
                false,
            ),
            Some(Event::PrivateMessage { from, message }) => self.message_is_defined(
                from.as_str(),
                message.as_str(),
                true,
            ),
            Some(_) => true,
        }
    }

    /// Whether a message can be handled (see [`message_defined`]).
    fn message_is_defined(&self, from: &str, message: &str, private: bool) -> (r: bool)
        ensures
            r == message_defined(self@, from@, message@, private),
    {
        let p = match self.prefix() {
            Some(p) => *p,
            None => {
                return true;
            },
        };
        let n = message.unicode_len();
        if n == 0 || message.get_char(0) != p {
            return true;
        }
        if (p as u32) >= 128 {
            return false;
        }
        let rest = drop_first_char(message);
        let words = split_on_char(rest.as_str(), ' ');
        proof {
            lemma_split_on_nonempty(rest@, ' ');
        }
        match self.find_command(words[0].as_str(), private) {
            None => true,
            Some(i) => {
                let cmds = self.commands();
                proof {
                    crate::commands::lemma_commands_view_index(cmds@, i as int);
                }
                if *cmds[i].is_only_masters() {
                    self.check_master(from).is_some()
                } else {
                    true
                }
            },
        }
    }

    /// Responds to one line from the server.
    pub fn handle_line(&mut self, line: &str) -> (r: VoidResult)
        requires
            old(self)@.handlers_accept_all(),
            line_defined(old(self)@, line@),
        ensures
            event_done(old(self)@, final(self)@, r, event_of(line@)->0),
    {
        let event = parse_line(line);
        match event {
            None => Ok(()),
            Some(Event::Ping(m)) => self.on_ping(m.as_str()),
            Some(Event::Quit(reason)) => self.on_quit(reason.as_str()),
            Some(Event::NickInUse) => self.on_nick_in_use(),
            Some(Event::Welcome) => {
                let channels = clone_strings(self.channels());
                self.join(channels)
            },
            Some(Event::Join { from, channel }) => self.on_join(from.as_str(), channel.as_str()),
            Some(Event::Part { from, channel, message }) => self.on_part(
                from.as_str(),
                channel.as_str(),
                message.as_str(),
            ),
            Some(Event::Mode { from, channel, mode, targets }) => {
                let target = borrow_all(&targets);
                self.on_mode(from.as_str(), channel.as_str(), mode.as_str(), target)
            },
            Some(Event::Nick { from, new_nick }) => self.on_nick(from.as_str(), new_nick.as_str()),
            Some(Event::Notice { from, target, message }) => self.on_notice(
                from.as_str(),
                target.as_str(),
                message.as_str(),
            ),
            Some(Event::Kick { from, channel, who, reason }) => self.on_kick(
                from.as_str(),
                channel.as_str(),
                who.as_str(),
                reason.as_str(),
            ),
            Some(Event::Invite { from, who, channel }) => self.on_invite(
                from.as_str(),
                who.as_str(),
                channel.as_str(),
            ),
            Some(Event::Topic { from, channel, topic }) => self.on_topic(
                from.as_str(),
                channel.as_str(),
                topic.as_str(),
            ),
            Some(Event::ChannelMessage { from, channel, message }) => self.on_message(
                from.as_str(),
                channel.as_str(),
                message.as_str(),
            ),
            Some(Event::PrivateMessage { from, message }) => self.on_private_message(
                from.as_str(),
                message.as_str(),
            ),
            Some(Event::NoTarget) => Err(IrcErrors::Unknown),
            Some(Event::Unrecognized) => Err(IrcErrors::Unknown),
            Some(Event::Ignored) => Ok(()),
        }
    }

    /// Responds to any line: `None`, with nothing changed, for a line that
    /// [`Irc::handle_line`] cannot take.
    pub fn try_handle_line(&mut self, line: &str) -> (r: Option<VoidResult>)
        requires
            old(self)@.handlers_accept_all(),
        ensures
            r is Some <==> line_defined(old(self)@, line@),
            r is None ==> final(self)@ == old(self)@,
            r matches Some(res) ==> event_done(old(self)@, final(self)@, res, event_of(line@)->0),
    {
        if self.line_is_defined(line) {
            Some(self.handle_line(line))
        } else {
            None
        }
    }
}

} // verus!
