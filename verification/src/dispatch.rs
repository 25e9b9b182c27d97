//! Running bot commands: finding the command an invocation names, checking who
//! may use it, calling its handler and queueing the handler's replies.
use vstd::prelude::*;
use crate::commands::CommandView;
use crate::enums::{IrcErrors, OutputView};
use crate::irc::{Irc, IrcView, VoidResult, master_check};
use crate::text::{find_char, find_first, owned_strings, str_eq, str_views, take_chars, views};

verus! {

/// A handler that accepts every input.
pub open spec fn accepts_all<F: Fn(&str, &str, Vec<String>) -> Vec<String>>(f: F) -> bool {
    forall|a: &str, b: &str, v: Vec<String>| #[trigger] call_requires(f, (a, b, v))
}

/// Whether a command answers to `name`; in a private message a channel-only
/// command does not, in a channel a private-only one does not.
pub open spec fn eligible<F>(c: CommandView<F>, name: Seq<char>, private: bool) -> bool {
    c.name == name && !(if private {
        c.channel_only
    } else {
        c.private_only
    })
}

/// The first command that answers to `name`.
pub open spec fn select_command<F>(cmds: Seq<CommandView<F>>, name: Seq<char>, private: bool) -> Option<int>
    decreases cmds.len(),
{
    if cmds.len() == 0 {
        None
    } else if eligible(cmds[0], name, private) {
        Some(0)
    } else {
        match select_command(cmds.drop_first(), name, private) {
            Some(j) => Some(j + 1),
            None => None,
        }
    }
}

/// What an invocation comes to before any handler runs.
pub enum Invocation<F> {
    /// No command answers to the name.
    NoCommand,
    /// The command is for masters and the sender is not one.
    NotMaster,
    /// The command has no handler.
    NoHandler,
    /// The handler to call.
    Run(F),
}

pub open spec fn invocation<F>(s: IrcView<F>, from: Seq<char>, name: Seq<char>, private: bool) -> Invocation<F> {
    match select_command(s.commands, name, private) {
        None => Invocation::NoCommand,
        Some(i) => if s.commands[i].only_masters && !(master_check(s.masters, from)->0) {
            Invocation::NotMaster
        } else {
            match s.commands[i].func {
                None => Invocation::NoHandler,
                Some(f) => Invocation::Run(f),
            }
        },
    }
}

/// The command selected for `name` is the first one that answers to it.
pub proof fn lemma_select_command<F>(cmds: Seq<CommandView<F>>, name: Seq<char>, private: bool)
    ensures
        match select_command(cmds, name, private) {
            Some(i) => 0 <= i < cmds.len() && eligible(cmds[i], name, private) && forall|j: int|
                0 <= j < i ==> !eligible(#[trigger] cmds[j], name, private),
            None => forall|j: int| 0 <= j < cmds.len() ==> !eligible(#[trigger] cmds[j], name, private),
        },
    decreases cmds.len(),
{
    if cmds.len() > 0 {
        lemma_select_command(cmds.drop_first(), name, private);
        assert forall|j: int| 1 <= j < cmds.len() implies cmds[j] == #[trigger] cmds.drop_first()[j - 1] by {}
        if !eligible(cmds[0], name, private) {
            match select_command(cmds.drop_first(), name, private) {
                Some(k) => {
                    assert forall|j: int| 0 <= j < k + 1 implies !eligible(#[trigger] cmds[j], name, private) by {
                        if j > 0 {
                            assert(cmds[j] == cmds.drop_first()[j - 1]);
                        }
                    }
                },
                None => {
                    assert forall|j: int| 0 <= j < cmds.len() implies !eligible(#[trigger] cmds[j], name, private) by {
                        if j > 0 {
                            assert(cmds[j] == cmds.drop_first()[j - 1]);
                        }
                    }
                },
            }
        }
    }
}

/// A handler only runs for the first command that answers to the invoked
/// name: one that is not restricted to the other kind of message, and, when
/// it is for masters, only for a sender the master check accepts (where that
/// check can be made).
pub proof fn law_invocation_respects_restrictions<F>(
    s: IrcView<F>,
    from: Seq<char>,
    name: Seq<char>,
    private: bool,
)
    requires
        invocation_defined(s, from, name, private),
    ensures
        invocation(s, from, name, private) is Run ==> exists|i: int|
            0 <= i < s.commands.len() && #[trigger] s.commands[i].name == name
                && s.commands[i].func == Some(invocation(s, from, name, private)->Run_0) && !(if private {
                s.commands[i].channel_only
            } else {
                s.commands[i].private_only
            }) && (s.commands[i].only_masters ==> master_check(s.masters, from) == Some(true))
                && forall|j: int| 0 <= j < i ==> !eligible(#[trigger] s.commands[j], name, private),
{
    lemma_select_command(s.commands, name, private);
    if invocation(s, from, name, private) is Run {
        let i = select_command(s.commands, name, private)->0;
        assert(s.commands[i].name == name);
    }
}

/// What an invocation comes to, told from the commands themselves: no
/// command when none has the name and may be used here; otherwise the first
/// that does decides it: refused for a non-master when it is for masters,
/// without a handler when it has none, else its handler runs.
pub proof fn law_invocation_outcome<F>(s: IrcView<F>, from: Seq<char>, name: Seq<char>, private: bool)
    requires
        invocation_defined(s, from, name, private),
    ensures
        (forall|i: int|
            0 <= i < s.commands.len() ==> !(#[trigger] s.commands[i].name == name && !(if private {
                s.commands[i].channel_only
            } else {
                s.commands[i].private_only
            }))) ==> invocation(s, from, name, private) is NoCommand,
        forall|i: int|
            0 <= i < s.commands.len() && #[trigger] s.commands[i].name == name && !(if private {
                s.commands[i].channel_only
            } else {
                s.commands[i].private_only
            }) && (forall|j: int|
                0 <= j < i ==> !(s.commands[j].name == name && !(if private {
                    s.commands[j].channel_only
                } else {
                    s.commands[j].private_only
                }))) ==> invocation(s, from, name, private) == (if s.commands[i].only_masters
                && master_check(s.masters, from) != Some(true) {
                Invocation::<F>::NotMaster
            } else {
                match s.commands[i].func {
                    None => Invocation::<F>::NoHandler,
                    Some(f) => Invocation::Run(f),
                }
            }),
{
    lemma_select_command(s.commands, name, private);
    match select_command(s.commands, name, private) {
        Some(k) => {
            assert forall|i: int|
                0 <= i < s.commands.len() && #[trigger] s.commands[i].name == name && !(if private {
                    s.commands[i].channel_only
                } else {
                    s.commands[i].private_only
                }) && (forall|j: int|
                    0 <= j < i ==> !(s.commands[j].name == name && !(if private {
                        s.commands[j].channel_only
                    } else {
                        s.commands[j].private_only
                    }))) implies invocation(s, from, name, private) == (if s.commands[i].only_masters
                && master_check(s.masters, from) != Some(true) {
                Invocation::<F>::NotMaster
            } else {
                match s.commands[i].func {
                    None => Invocation::<F>::NoHandler,
                    Some(f) => Invocation::Run(f),
                }
            }) by {
                if i < k {
                    assert(!eligible(s.commands[i], name, private));
                } else if i > k {
                    assert(eligible(s.commands[k], name, private));
                }
            }
            if forall|i: int|
                0 <= i < s.commands.len() ==> !(#[trigger] s.commands[i].name == name && !(if private {
                    s.commands[i].channel_only
                } else {
                    s.commands[i].private_only
                })) {
                assert(eligible(s.commands[k], name, private));
            }
        },
        None => {
            assert forall|i: int|
                0 <= i < s.commands.len() && #[trigger] s.commands[i].name == name && !(if private {
                    s.commands[i].channel_only
                } else {
                    s.commands[i].private_only
                }) implies false by {
                assert(!eligible(s.commands[i], name, private));
            }
        },
    }
}

/// A refused invocation (no command, no handler, or not a master) sends
/// nothing to the server; a private one only notes the invocation.
pub proof fn law_refused_command_sends_nothing<F: Fn(&str, &str, Vec<String>) -> Vec<String>>(
    before: IrcView<F>,
    after: IrcView<F>,
    r: Result<(), IrcErrors>,
    from: Seq<char>,
    target: Seq<char>,
    argv: Seq<Seq<char>>,
    private: bool,
)
    requires
        command_done(before, after, r, from, target, argv, private),
        r is Err,
    ensures
        after.outputs.len() == before.outputs.len() + (if private {
            1int
        } else {
            0int
        }),
        forall|k: int|
            before.outputs.len() <= k < after.outputs.len() ==> !(#[trigger] after.outputs[k] is Send),
        after.commands == before.commands && after.masters == before.masters && after.nick
            == before.nick,
{
}

/// With no master masks, no command restricted to masters ever runs.
pub proof fn law_no_masters_no_master_commands<F>(
    s: IrcView<F>,
    from: Seq<char>,
    name: Seq<char>,
    private: bool,
)
    requires
        s.masters.len() == 0,
    ensures
        invocation(s, from, name, private) matches Invocation::Run(f) ==> exists|i: int|
            0 <= i < s.commands.len() && #[trigger] s.commands[i].func == Some(f)
                && !s.commands[i].only_masters,
{
    lemma_select_command(s.commands, name, private);
    if invocation(s, from, name, private) is Run {
        let i = select_command(s.commands, name, private)->0;
        assert(s.commands[i].func == Some(invocation(s, from, name, private)->Run_0));
    }
}

/// The master check that an invocation makes can be made: the masks it tries
/// compile.
pub open spec fn invocation_defined<F>(s: IrcView<F>, from: Seq<char>, name: Seq<char>, private: bool) -> bool {
    match select_command(s.commands, name, private) {
        Some(i) => s.commands[i].only_masters ==> master_check(s.masters, from) is Some,
        None => true,
    }
}

/// The nick part of a `nick!user@host` source.
pub open spec fn nick_of(from: Seq<char>) -> Seq<char> {
    match find_first(from, '!') {
        Some(i) => from.take(i),
        None => from,
    }
}

/// Each line as a message to the server.
pub open spec fn sends(lines: Seq<Seq<char>>) -> Seq<OutputView> {
    lines.map_values(|l: Seq<char>| OutputView::Send(l))
}

/// Each line printed, then sent.
pub open spec fn echoed_sends(lines: Seq<Seq<char>>) -> Seq<OutputView>
    decreases lines.len(),
{
    if lines.len() == 0 {
        Seq::empty()
    } else {
        echoed_sends(lines.drop_last()) + seq![
            OutputView::Print(lines.last()),
            OutputView::Send(lines.last()),
        ]
    }
}

/// The handler `f`, called with `from`, `target` and the words `argv`,
/// returned some lines, and `after` is `before` with those lines queued: sent,
/// or (when `echo`) each printed and then sent.
pub open spec fn handler_ran<F: Fn(&str, &str, Vec<String>) -> Vec<String>>(
    f: F,
    from: Seq<char>,
    target: Seq<char>,
    argv: Seq<Seq<char>>,
    before: IrcView<F>,
    after: IrcView<F>,
    echo: bool,
) -> bool {
    exists|a: &str, b: &str, v: Vec<String>, out: Vec<String>|
        a@ == from && b@ == target && views(v@) == argv && #[trigger] call_ensures(f, (a, b, v), out)
            && after == (IrcView {
            outputs: before.outputs + (if echo {
                echoed_sends(views(out@))
            } else {
                sends(views(out@))
            }),
            ..before
        })
}

/// The console line for a private invocation.
pub open spec fn private_invocation_note(from: Seq<char>, name: Seq<char>) -> Seq<char> {
    "We in! "@ + from + " "@ + name
}

/// What running the invocation `argv` from `from` does to the state `before`
/// and what it returns: channel invocations reply to `target`, private ones
/// note the invocation on the console and reply to the sender's nick.
pub open spec fn command_done<F: Fn(&str, &str, Vec<String>) -> Vec<String>>(
    before: IrcView<F>,
    after: IrcView<F>,
    r: Result<(), IrcErrors>,
    from: Seq<char>,
    target: Seq<char>,
    argv: Seq<Seq<char>>,
    private: bool,
) -> bool {
    let noted = if private {
        before.print(private_invocation_note(from, argv[0]))
    } else {
        before
    };
    let to = if private {
        nick_of(from)
    } else {
        target
    };
    match invocation(before, from, argv[0], private) {
        Invocation::NoCommand => r == Err::<(), IrcErrors>(IrcErrors::UnknownFunction) && after
            == noted,
        Invocation::NoHandler => r == Err::<(), IrcErrors>(IrcErrors::UnknownFunction) && after
            == noted,
        Invocation::NotMaster => r == Err::<(), IrcErrors>(IrcErrors::NotMaster) && after == noted,
        Invocation::Run(f) => r is Ok && handler_ran(f, from, to, argv, noted, after, private),
    }
}

proof fn lemma_find_first(s: Seq<char>, c: char)
    ensures
        match find_first(s, c) {
            Some(i) => 0 <= i < s.len() && s[i] == c && forall|j: int| 0 <= j < i ==> s[j] != c,
            None => forall|j: int| 0 <= j < s.len() ==> s[j] != c,
        },
    decreases s.len(),
{
    if s.len() > 0 {
        lemma_find_first(s.drop_first(), c);
        assert forall|j: int| 1 <= j < s.len() implies s[j] == #[trigger] s.drop_first()[j - 1] by {}
        if s[0] != c {
            match find_first(s.drop_first(), c) {
                Some(k) => {
                    assert forall|j: int| 0 <= j < k + 1 implies s[j] != c by {
                        if j > 0 {
                            assert(s[j] == s.drop_first()[j - 1]);
                        }
                    }
                },
                None => {
                    assert forall|j: int| 0 <= j < s.len() implies s[j] != c by {
                        if j > 0 {
                            assert(s[j] == s.drop_first()[j - 1]);
                        }
                    }
                },
            }
        }
    }
}

/// The reply target of a private command is the sender's nick: the source
/// up to its first `!`, or the whole source when it holds none.
pub proof fn law_nick_of(from: Seq<char>)
    ensures
        (forall|j: int| 0 <= j < from.len() ==> from[j] != '!') ==> nick_of(from) == from,
        forall|i: int|
            0 <= i < from.len() && #[trigger] from[i] == '!' && (forall|j: int|
                0 <= j < i ==> from[j] != '!') ==> nick_of(from) == from.take(i),
        !nick_of(from).contains('!'),
        nick_of(from) == from.take(nick_of(from).len() as int),
{
    lemma_find_first(from, '!');
    match find_first(from, '!') {
        Some(k) => {
            assert forall|i: int|
                0 <= i < from.len() && #[trigger] from[i] == '!' && (forall|j: int|
                    0 <= j < i ==> from[j] != '!') implies nick_of(from) == from.take(i) by {
                if i < k {
                } else if i > k {
                    assert(from[k] == '!');
                }
            }
            if nick_of(from).contains('!') {
                let j = choose|j: int| 0 <= j < nick_of(from).len() && nick_of(from)[j] == '!';
                assert(from[j] == '!');
            }
        },
        None => {
            assert(from.take(from.len() as int) =~= from);
            if nick_of(from).contains('!') {
                let j = choose|j: int| 0 <= j < nick_of(from).len() && nick_of(from)[j] == '!';
                assert(from[j] == '!');
            }
        },
    }
}

/// Each line becomes one message to the server, in order.
pub proof fn law_sends(lines: Seq<Seq<char>>)
    ensures
        sends(lines).len() == lines.len(),
        forall|i: int| 0 <= i < lines.len() ==> #[trigger] sends(lines)[i] == OutputView::Send(lines[i]),
{
}

/// Each line is printed and then sent, in order.
pub proof fn law_echoed_sends(lines: Seq<Seq<char>>)
    ensures
        echoed_sends(lines).len() == 2 * lines.len(),
        forall|i: int|
            0 <= i < lines.len() ==> #[trigger] echoed_sends(lines)[2 * i] == OutputView::Print(lines[i])
                && echoed_sends(lines)[2 * i + 1] == OutputView::Send(lines[i]),
    decreases lines.len(),
{
    if lines.len() > 0 {
        let p = lines.drop_last();
        law_echoed_sends(p);
        assert forall|i: int| 0 <= i < lines.len() implies #[trigger] echoed_sends(lines)[2 * i]
            == OutputView::Print(lines[i]) && echoed_sends(lines)[2 * i + 1] == OutputView::Send(
            lines[i],
        ) by {
            if i < p.len() {
                assert(echoed_sends(p)[2 * i] == OutputView::Print(p[i]));
                assert(lines[i] == p[i]);
            }
        }
    }
}

/// A channel command that runs hands its handler the sender, the channel and
/// the words, and then queues exactly the lines the handler gave back, all of
/// them and in order, each sent to the server; nothing else changes.
pub proof fn law_channel_command_replies<F: Fn(&str, &str, Vec<String>) -> Vec<String>>(
    before: IrcView<F>,
    after: IrcView<F>,
    r: Result<(), IrcErrors>,
    from: Seq<char>,
    channel: Seq<char>,
    argv: Seq<Seq<char>>,
    f: F,
)
    requires
        argv.len() >= 1,
        invocation(before, from, argv[0], false) == Invocation::Run(f),
        command_done(before, after, r, from, channel, argv, false),
    ensures
        r is Ok,
        exists|a: &str, b: &str, v: Vec<String>, out: Vec<String>|
            a@ == from && b@ == channel && views(v@) == argv && #[trigger] call_ensures(
                f,
                (a, b, v),
                out,
            ) && after.outputs.len() == before.outputs.len() + out@.len() && (forall|k: int|
                0 <= k < before.outputs.len() ==> after.outputs[k] == before.outputs[k]) && (forall|
                i: int,
            |
                0 <= i < out@.len() ==> after.outputs[before.outputs.len() + i] == OutputView::Send(
                    out@[i]@,
                )) && after == (IrcView { outputs: after.outputs, ..before }),
{
    let (a, b, v, out) = choose|a: &str, b: &str, v: Vec<String>, out: Vec<String>|
        a@ == from && b@ == channel && views(v@) == argv && #[trigger] call_ensures(f, (a, b, v), out)
            && after == (IrcView { outputs: before.outputs + sends(views(out@)), ..before });
    law_sends(views(out@));
    assert forall|i: int| 0 <= i < out@.len() implies after.outputs[before.outputs.len() + i]
        == OutputView::Send(out@[i]@) by {
        assert(views(out@)[i] == out@[i]@);
        assert(sends(views(out@))[i] == OutputView::Send(views(out@)[i]));
    }
}

/// A private command that runs notes the invocation on the console, hands its
/// handler the sender, the sender's nick (the source before its first `!`, or
/// all of it) and the words, and then prints and sends each line the handler
/// gave back, all of them and in order; nothing else changes.
pub proof fn law_private_command_replies<F: Fn(&str, &str, Vec<String>) -> Vec<String>>(
    before: IrcView<F>,
    after: IrcView<F>,
    r: Result<(), IrcErrors>,
    from: Seq<char>,
    target: Seq<char>,
    argv: Seq<Seq<char>>,
    f: F,
)
    requires
        argv.len() >= 1,
        invocation(before, from, argv[0], true) == Invocation::Run(f),
        command_done(before, after, r, from, target, argv, true),
    ensures
        r is Ok,
        exists|a: &str, b: &str, v: Vec<String>, out: Vec<String>|
            a@ == from && !b@.contains('!') && b@ == from.take(b@.len() as int) && (b@.len()
                == from.len() || from[b@.len() as int] == '!') && views(v@) == argv
                && #[trigger] call_ensures(f, (a, b, v), out) && after.outputs.len()
                == before.outputs.len() + 1 + 2 * out@.len() && (forall|k: int|
                0 <= k < before.outputs.len() ==> after.outputs[k] == before.outputs[k])
                && after.outputs[before.outputs.len() as int] == OutputView::Print(
                "We in! "@ + from + " "@ + argv[0],
            ) && (forall|i: int|
                0 <= i < out@.len() ==> after.outputs[before.outputs.len() + 1 + 2 * i]
                    == OutputView::Print(out@[i]@) && after.outputs[before.outputs.len() + 2 + 2
                    * i] == OutputView::Send(out@[i]@)) && after == (IrcView {
                outputs: after.outputs,
                ..before
            }),
{
    let noted = before.print(private_invocation_note(from, argv[0]));
    let (a, b, v, out) = choose|a: &str, b: &str, v: Vec<String>, out: Vec<String>|
        a@ == from && b@ == nick_of(from) && views(v@) == argv && #[trigger] call_ensures(
            f,
            (a, b, v),
            out,
        ) && after == (IrcView { outputs: noted.outputs + echoed_sends(views(out@)), ..noted });
    law_echoed_sends(views(out@));
    law_nick_of(from);
    lemma_find_first(from, '!');
    let n = before.outputs.len() as int;
    assert(noted.outputs == before.outputs.push(OutputView::Print(private_invocation_note(from, argv[0]))));
    assert forall|i: int| 0 <= i < out@.len() implies after.outputs[n + 1 + 2 * i]
        == OutputView::Print(out@[i]@) && after.outputs[n + 2 + 2 * i] == OutputView::Send(
        out@[i]@,
    ) by {
        assert(views(out@)[i] == out@[i]@);
        assert(echoed_sends(views(out@))[2 * i] == OutputView::Print(views(out@)[i]));
        assert(echoed_sends(views(out@))[2 * i + 1] == OutputView::Send(views(out@)[i]));
    }
    assert(after.outputs[n] == noted.outputs[n]);
}

impl<F: Fn(&str, &str, Vec<String>) -> Vec<String>> IrcView<F> {
    /// Every handler of the client accepts every input (a plain function
    /// does: it has no precondition).
    pub open spec fn handlers_accept_all(self) -> bool {
        forall|i: int|
            0 <= i < self.commands.len() && (#[trigger] self.commands[i]).func is Some
                ==> accepts_all(self.commands[i].func->0)
    }
}

impl<F: Fn(&str, &str, Vec<String>) -> Vec<String>> Irc<F> {
    /// The index of the first command that answers to `name`.
    pub(crate) fn find_command(&self, name: &str, private: bool) -> (r: Option<usize>)
        ensures
            match r {
                Some(i) => select_command(self@.commands, name@, private) == Some(i as int)
                    && i < self@.commands.len(),
                None => select_command(self@.commands, name@, private) is None,
            },
    {
        let cmds = self.commands();
        let n = cmds.len();
        let ghost all = self@.commands;
        let mut i: usize = 0;
        assert(all.skip(0) =~= all);
        while i < n
            invariant
                n == all.len(),
                all == self@.commands,
                crate::commands::commands_view(cmds@) == all,
                i <= n,
                select_command(all, name@, private) == match select_command(
                    all.skip(i as int),
                    name@,
                    private,
                ) {
                    Some(j) => Some(j + i),
                    None => None,
                },
            decreases n - i,
        {
            let c = &cmds[i];
            assert(all[i as int] == c@);
            assert(all.skip(i as int)[0] == all[i as int]);
            assert(all.skip(i as int).drop_first() =~= all.skip(i + 1));
            let skip = if private {
                *c.is_channel_only()
            } else {
                *c.is_private_only()
            };
            if str_eq(c.get_name().as_str(), name) && !skip {
                return Some(i);
            }
            i += 1;
        }
        assert(all.skip(n as int) =~= Seq::<CommandView<F>>::empty());
        None
    }

    /// Queues every line for the server.
    fn send_all(&mut self, lines: &Vec<String>)
        ensures
            final(self)@ == (IrcView {
                outputs: old(self)@.outputs + sends(views(lines@)),
                ..old(self)@
            }),
    {
        let n = lines.len();
        let mut i: usize = 0;
        while i < n
            invariant
                n == lines@.len(),
                i <= n,
                self@ == (IrcView {
                    outputs: old(self)@.outputs + sends(views(lines@.subrange(0, i as int))),
                    ..old(self)@
                }),
            decreases n - i,
        {
            let _ = self.send(lines[i].as_str());
            assert(sends(views(lines@.subrange(0, i + 1))) =~= sends(
                views(lines@.subrange(0, i as int)),
            ).push(OutputView::Send(lines@[i as int]@)));
            i += 1;
        }
        assert(lines@.subrange(0, n as int) =~= lines@);
    }

    /// Queues every line for the console and then for the server.
    fn echo_send_all(&mut self, lines: &Vec<String>)
        ensures
            final(self)@ == (IrcView {
                outputs: old(self)@.outputs + echoed_sends(views(lines@)),
                ..old(self)@
            }),
    {
        let n = lines.len();
        let mut i: usize = 0;
        assert(old(self)@.outputs + echoed_sends(views(lines@.subrange(0, 0))) =~= old(
            self,
        )@.outputs);
        while i < n
            invariant
                n == lines@.len(),
                i <= n,
                self@ == (IrcView {
                    outputs: old(self)@.outputs + echoed_sends(views(lines@.subrange(0, i as int))),
                    ..old(self)@
                }),
            decreases n - i,
        {
            let ghost prev = views(lines@.subrange(0, i as int));
            let ghost next = views(lines@.subrange(0, i + 1));
            assert(next.drop_last() =~= prev);
            assert(next.last() == lines@[i as int]@);
            self.print(lines[i].clone());
            let _ = self.send(lines[i].as_str());
            assert(echoed_sends(next) == echoed_sends(prev) + seq![
                OutputView::Print(lines@[i as int]@),
                OutputView::Send(lines@[i as int]@),
            ]);
            assert(old(self)@.outputs + echoed_sends(next) =~= (old(self)@.outputs + echoed_sends(
                prev,
            )).push(OutputView::Print(lines@[i as int]@)).push(OutputView::Send(lines@[i as int]@)));
            i += 1;
        }
        assert(lines@.subrange(0, n as int) =~= lines@);
    }

    /// Runs the command a channel message invokes: `argv[0]` names it, the
    /// handler gets the sender, the channel and the words, and its replies
    /// are queued for the server. Private-only commands are passed over.
    pub fn handle_command(&mut self, from: &str, channel: &str, argv: Vec<&str>) -> (r: VoidResult)
        requires
            argv@.len() >= 1,
            old(self)@.handlers_accept_all(),
            invocation_defined(old(self)@, from@, argv@[0]@, false),
        ensures
            command_done(old(self)@, final(self)@, r, from@, channel@, str_views(argv@), false),
    {
        let found = self.find_command(argv[0], false);
        match found {
            None => Err(IrcErrors::UnknownFunction),
            Some(i) => {
                let cmds = self.commands();
                proof {
                    crate::commands::lemma_commands_view_index(cmds@, i as int);
                }
                if *cmds[i].is_only_masters() {
                    if !self.is_master(from) {
                        return Err(IrcErrors::NotMaster);
                    }
                }
                let args = owned_strings(&argv);
                let ghost args_g = args;
                let ghost f = cmds@[i as int]@.func->0;
                let ret = match cmds[i].get_func() {
                    Some(func) => func(from, channel, args),
                    None => {
                        return Err(IrcErrors::UnknownFunction);
                    },
                };
                self.send_all(&ret);
                assert(handler_ran(f, from@, channel@, str_views(argv@), old(self)@, self@, false));
                Ok(())
            },
        }
    }

    /// Runs the command a private message invokes: the reply target is the
    /// sender's nick, each reply is printed and queued for the server, and
    /// channel-only commands are passed over.
    pub fn handle_private_command(&mut self, from: &str, argv: Vec<&str>) -> (r: VoidResult)
        requires
            argv@.len() >= 1,
            old(self)@.handlers_accept_all(),
            invocation_defined(old(self)@, from@, argv@[0]@, true),
        ensures
            command_done(old(self)@, final(self)@, r, from@, nick_of(from@), str_views(argv@), true),
    {
        let nick = match find_char(from, '!') {
            Some(i) => take_chars(from, i),
            None => from.to_owned(),
        };
        let mut note = "We in! ".to_owned();
        note.append(from);
        note.append(" ");
        note.append(argv[0]);
        self.print(note);
        let ghost noted_g = self@;
        let found = self.find_command(argv[0], true);
        match found {
            None => Err(IrcErrors::UnknownFunction),
            Some(i) => {
                let cmds = self.commands();
                proof {
                    crate::commands::lemma_commands_view_index(cmds@, i as int);
                }
                if *cmds[i].is_only_masters() {
                    if !self.is_master(from) {
                        return Err(IrcErrors::NotMaster);
                    }
                }
                let args = owned_strings(&argv);
                let ghost args_g = args;
                let ghost f = cmds@[i as int]@.func->0;
                let target = nick.as_str();
                let ret = match cmds[i].get_func() {
                    Some(func) => func(from, target, args),
                    None => {
                        return Err(IrcErrors::UnknownFunction);
                    },
                };
                self.echo_send_all(&ret);
                assert(handler_ran(f, from@, nick_of(from@), str_views(argv@), noted_g, self@, true));
                Ok(())
            },
        }
    }
}

} // verus!
