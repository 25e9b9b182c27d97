//! The client's state: identity, masters, channels, commands, the unfinished
//! tail of the incoming stream, and the outputs waiting to be delivered.
use vstd::prelude::*;
use crate::commands::{Command, CommandView, commands_view};
use crate::enums::{IrcErrors, Output, OutputView, outputs_view};
use crate::protocol::{
    lemma_split_lines_nonempty,
    mask_to_pattern,
    mask_to_pattern_exec,
    split_lines,
    split_lines_exec,
};
use crate::text::{opt_view, owned_strings, str_views, views};

verus! {

/// An IRC client. It holds no connection: what it would write to the server
/// or the console it queues as [`Output`]s, in order, for the caller to
/// deliver, and it is fed the text that arrives from the server.
pub struct Irc<F> {
    nick: String,
    user: Option<String>,
    real_name: Option<String>,
    prefix: Option<char>,
    masters: Vec<String>,
    channels: Vec<String>,
    commands: Vec<Command<F>>,
    carry: String,
    outputs: Vec<Output>,
}

/// The mathematical value of an [`Irc`].
pub struct IrcView<F> {
    pub nick: Seq<char>,
    pub user: Option<Seq<char>>,
    pub real_name: Option<Seq<char>>,
    pub prefix: Option<char>,
    pub masters: Seq<Seq<char>>,
    pub channels: Seq<Seq<char>>,
    pub commands: Seq<CommandView<F>>,
    /// Text received after the last complete line.
    pub carry: Seq<char>,
    /// Outputs produced and not yet taken.
    pub outputs: Seq<OutputView>,
}

impl<F> View for Irc<F> {
    type V = IrcView<F>;

    closed spec fn view(&self) -> IrcView<F> {
        IrcView {
            nick: self.nick@,
            user: opt_view(self.user),
            real_name: opt_view(self.real_name),
            prefix: self.prefix,
            masters: views(self.masters@),
            channels: views(self.channels@),
            commands: commands_view(self.commands@),
            carry: self.carry@,
            outputs: outputs_view(self.outputs@),
        }
    }
}

impl<F> IrcView<F> {
    /// The state after one more output.
    pub open spec fn emit(self, o: OutputView) -> IrcView<F> {
        IrcView { outputs: self.outputs.push(o), ..self }
    }

    /// The state after a console line.
    pub open spec fn print(self, text: Seq<char>) -> IrcView<F> {
        self.emit(OutputView::Print(text))
    }

    /// The state after a message to the server.
    pub open spec fn send(self, msg: Seq<char>) -> IrcView<F> {
        self.emit(OutputView::Send(msg))
    }
}

/// A client, or the error that stopped the operation.
pub type IrcResult<F> = Result<Irc<F>, IrcErrors>;

/// Success, or the error that stopped the operation.
pub type VoidResult = Result<(), IrcErrors>;

/// Whether `pattern` is a regular expression that the `regex` crate compiles.
pub uninterp spec fn regex_compiles(pattern: Seq<char>) -> bool;

/// Whether the compiled `pattern` matches somewhere in `text`.
pub uninterp spec fn regex_matches(pattern: Seq<char>, text: Seq<char>) -> bool;

/// `regex::Regex::new(pattern)` followed by `is_match(text)`: `None` when the
/// pattern does not compile (an invalid pattern, or one over the crate's size
/// limit), else whether it matches somewhere in `text`. What compiles and what
/// matches is the crate's regular-expression semantics, named here and not
/// restated.
#[verifier::external_body]
fn regex_is_match(pattern: &str, text: &str) -> (r: Option<bool>)
    ensures
        r is Some <==> regex_compiles(pattern@),
        r matches Some(b) ==> b == regex_matches(pattern@, text@),
{
    match regex::Regex::new(pattern) {
        Ok(re) => Some(re.is_match(text)),
        Err(_) => None,
    }
}

/// Whether `host` matches one of the masks, tried in order: `None` when a mask
/// that is tried does not compile (the check panics there), `Some(true)` at
/// the first mask that matches, `Some(false)` when none does.
pub open spec fn master_check(masters: Seq<Seq<char>>, host: Seq<char>) -> Option<bool>
    decreases masters.len(),
{
    if masters.len() == 0 {
        Some(false)
    } else {
        let p = mask_to_pattern(masters[0]);
        if !regex_compiles(p) {
            None
        } else if regex_matches(p, host) {
            Some(true)
        } else {
            master_check(masters.drop_first(), host)
        }
    }
}

/// The master check tries the masks in order: a sender is a master when some
/// mask matches and every mask before it compiles and does not match; the
/// check cannot be made when a mask that is reached does not compile; and the
/// sender is not a master when every mask compiles and none matches.
pub proof fn law_master_check(masters: Seq<Seq<char>>, host: Seq<char>)
    ensures
        master_check(masters, host) == Some(true) ==> exists|i: int|
            0 <= i < masters.len() && regex_compiles(mask_to_pattern(#[trigger] masters[i]))
                && regex_matches(mask_to_pattern(masters[i]), host) && forall|j: int|
                0 <= j < i ==> regex_compiles(mask_to_pattern(#[trigger] masters[j])) && !regex_matches(
                    mask_to_pattern(masters[j]),
                    host,
                ),
        master_check(masters, host) == Some(false) <==> forall|j: int|
            0 <= j < masters.len() ==> regex_compiles(mask_to_pattern(#[trigger] masters[j]))
                && !regex_matches(mask_to_pattern(masters[j]), host),
        master_check(masters, host) is None ==> exists|i: int|
            0 <= i < masters.len() && !regex_compiles(mask_to_pattern(#[trigger] masters[i]))
                && forall|j: int|
                0 <= j < i ==> regex_compiles(mask_to_pattern(#[trigger] masters[j])) && !regex_matches(
                    mask_to_pattern(masters[j]),
                    host,
                ),
    decreases masters.len(),
{
    if masters.len() > 0 {
        let rest = masters.drop_first();
        law_master_check(rest, host);
        assert forall|j: int| 1 <= j < masters.len() implies masters[j] == #[trigger] rest[j - 1] by {}
        let p = mask_to_pattern(masters[0]);
        if regex_compiles(p) && !regex_matches(p, host) {
            if master_check(rest, host) == Some(true) {
                let k = choose|k: int|
                    0 <= k < rest.len() && regex_compiles(mask_to_pattern(#[trigger] rest[k]))
                        && regex_matches(mask_to_pattern(rest[k]), host) && forall|j: int|
                        0 <= j < k ==> regex_compiles(mask_to_pattern(#[trigger] rest[j]))
                            && !regex_matches(mask_to_pattern(rest[j]), host);
                assert(masters[k + 1] == rest[k]);
                assert forall|j: int| 0 <= j < k + 1 implies regex_compiles(
                    mask_to_pattern(#[trigger] masters[j]),
                ) && !regex_matches(mask_to_pattern(masters[j]), host) by {
                    if j > 0 {
                        assert(masters[j] == rest[j - 1]);
                    }
                }
            }
            if master_check(rest, host) is None {
                let k = choose|k: int|
                    0 <= k < rest.len() && !regex_compiles(mask_to_pattern(#[trigger] rest[k]))
                        && forall|j: int|
                        0 <= j < k ==> regex_compiles(mask_to_pattern(#[trigger] rest[j]))
                            && !regex_matches(mask_to_pattern(rest[j]), host);
                assert(masters[k + 1] == rest[k]);
                assert forall|j: int| 0 <= j < k + 1 implies regex_compiles(
                    mask_to_pattern(#[trigger] masters[j]),
                ) && !regex_matches(mask_to_pattern(masters[j]), host) by {
                    if j > 0 {
                        assert(masters[j] == rest[j - 1]);
                    }
                }
            }
            if forall|j: int|
                0 <= j < masters.len() ==> regex_compiles(mask_to_pattern(#[trigger] masters[j]))
                    && !regex_matches(mask_to_pattern(masters[j]), host) {
                assert forall|j: int| 0 <= j < rest.len() implies regex_compiles(
                    mask_to_pattern(#[trigger] rest[j]),
                ) && !regex_matches(mask_to_pattern(rest[j]), host) by {
                    assert(rest[j] == masters[j + 1]);
                }
            }
            if master_check(rest, host) == Some(false) {
                assert forall|j: int| 0 <= j < masters.len() implies regex_compiles(
                    mask_to_pattern(#[trigger] masters[j]),
                ) && !regex_matches(mask_to_pattern(masters[j]), host) by {
                    if j > 0 {
                        assert(masters[j] == rest[j - 1]);
                    }
                }
            }
        }
    }
}

impl<F> Irc<F> {
    /// A client with the given nick and nothing else set.
    pub fn new(nick: &str) -> (r: Irc<F>)
        ensures
            r@ == (IrcView::<F> {
                nick: nick@,
                user: None,
                real_name: None,
                prefix: None,
                masters: Seq::empty(),
                channels: Seq::empty(),
                commands: Seq::empty(),
                carry: Seq::empty(),
                outputs: Seq::empty(),
            }),
    {
        let r = Irc {
            nick: nick.to_owned(),
            user: None,
            real_name: None,
            prefix: None,
            masters: Vec::new(),
            channels: Vec::new(),
            commands: Vec::new(),
            carry: String::new(),
            outputs: Vec::new(),
        };
        assert(r@.masters =~= Seq::empty());
        assert(r@.channels =~= Seq::empty());
        assert(r@.commands =~= Seq::empty());
        assert(r@.outputs =~= Seq::empty());
        r
    }

    pub fn nick(&self) -> (r: &String)
        ensures
            r@ == self@.nick,
    {
        &self.nick
    }

    pub fn set_nick(&mut self, new_nick: String)
        ensures
            final(self)@ == (IrcView { nick: new_nick@, ..old(self)@ }),
    {
        self.nick = new_nick;
    }

    pub fn user(&self) -> (r: &Option<String>)
        ensures
            opt_view(*r) == self@.user,
    {
        &self.user
    }

    pub fn set_user(&mut self, new_user: String)
        ensures
            final(self)@ == (IrcView { user: Some(new_user@), ..old(self)@ }),
    {
        self.user = Some(new_user);
    }

    pub fn real_name(&self) -> (r: &Option<String>)
        ensures
            opt_view(*r) == self@.real_name,
    {
        &self.real_name
    }

    pub fn set_real(&mut self, new_real: String)
        ensures
            final(self)@ == (IrcView { real_name: Some(new_real@), ..old(self)@ }),
    {
        self.real_name = Some(new_real);
    }

    pub fn prefix(&self) -> (r: &Option<char>)
        ensures
            *r == self@.prefix,
    {
        &self.prefix
    }

    pub fn set_prefix(&mut self, new_prefix: char)
        ensures
            final(self)@ == (IrcView { prefix: Some(new_prefix), ..old(self)@ }),
    {
        self.prefix = Some(new_prefix);
    }

    pub fn masters(&self) -> (r: &Vec<String>)
        ensures
            views(r@) == self@.masters,
    {
        &self.masters
    }

    pub fn set_masters(&mut self, new_masters: Vec<String>)
        ensures
            final(self)@ == (IrcView { masters: views(new_masters@), ..old(self)@ }),
    {
        self.masters = new_masters;
    }

    pub fn commands(&self) -> (r: &Vec<Command<F>>)
        ensures
            commands_view(r@) == self@.commands,
    {
        &self.commands
    }

    pub fn set_commands(&mut self, new_commands: Vec<Command<F>>)
        ensures
            final(self)@ == (IrcView { commands: commands_view(new_commands@), ..old(self)@ }),
    {
        self.commands = new_commands;
    }

    pub fn channels(&self) -> (r: &Vec<String>)
        ensures
            views(r@) == self@.channels,
    {
        &self.channels
    }

    pub fn set_channels(&mut self, new_channels: Vec<String>)
        ensures
            final(self)@ == (IrcView { channels: views(new_channels@), ..old(self)@ }),
    {
        self.channels = new_channels;
    }

    /// Adds a command after the existing ones; never fails.
    pub fn add_command(self, command: Command<F>) -> (r: IrcResult<F>)
        ensures
            r matches Ok(irc) && irc@ == (IrcView {
                commands: self@.commands.push(command@),
                ..self@
            }),
    {
        let mut irc = self;
        irc.commands.push(command);
        assert(irc@.commands =~= self@.commands.push(command@));
        Ok(irc)
    }

    /// Sets the command prefix; never fails.
    pub fn init_prefix(self, prefix: &char) -> (r: IrcResult<F>)
        ensures
            r matches Ok(irc) && irc@ == (IrcView { prefix: Some(*prefix), ..self@ }),
    {
        let mut irc = self;
        irc.prefix = Some(*prefix);
        Ok(irc)
    }

    /// Sets the master masks; never fails.
    pub fn init_masters(self, masters: Vec<&str>) -> (r: IrcResult<F>)
        ensures
            r matches Ok(irc) && irc@ == (IrcView {
                masters: str_views(masters@),
                ..self@
            }),
    {
        let mut irc = self;
        irc.masters = owned_strings(&masters);
        Ok(irc)
    }

    /// Sets the channels joined on welcome; never fails.
    pub fn set_initial_channels(self, channels: Vec<&str>) -> (r: IrcResult<F>)
        ensures
            r matches Ok(irc) && irc@ == (IrcView {
                channels: str_views(channels@),
                ..self@
            }),
    {
        let mut irc = self;
        irc.channels = owned_strings(&channels);
        Ok(irc)
    }

    /// Queues `msg` for the server; never fails. The caller frames each queued
    /// message with [`crate::protocol::frame_message`] when it writes it.
    pub fn send(&mut self, msg: &str) -> (r: VoidResult)
        ensures
            r is Ok,
            final(self)@ == old(self)@.send(msg@),
    {
        self.outputs.push(Output::Send(msg.to_owned()));
        assert(final(self)@.outputs =~= old(self)@.outputs.push(OutputView::Send(msg@)));
        Ok(())
    }

    /// Queues a console line.
    pub(crate) fn print(&mut self, text: String)
        ensures
            final(self)@ == old(self)@.print(text@),
    {
        self.outputs.push(Output::Print(text));
        assert(final(self)@.outputs =~= old(self)@.outputs.push(OutputView::Print(text@)));
    }

    /// Takes the queued outputs, oldest first.
    pub fn take_outputs(&mut self) -> (r: Vec<Output>)
        ensures
            outputs_view(r@) == old(self)@.outputs,
            final(self)@ == (IrcView { outputs: Seq::empty(), ..old(self)@ }),
    {
        let mut taken: Vec<Output> = Vec::new();
        std::mem::swap(&mut taken, &mut self.outputs);
        assert(final(self)@.outputs =~= Seq::<OutputView>::empty());
        taken
    }

    /// Adds received text to the unfinished tail and returns the complete
    /// lines, without their CR LF; the text after the last CR LF is kept.
    pub fn receive(&mut self, data: &str) -> (lines: Vec<String>)
        ensures
            views(lines@) == split_lines(old(self)@.carry + data@).drop_last(),
            final(self)@ == (IrcView {
                carry: split_lines(old(self)@.carry + data@).last(),
                ..old(self)@
            }),
    {
        let mut received = self.carry.clone();
        received.append(data);
        let mut lines = split_lines_exec(received.as_str());
        proof {
            lemma_split_lines_nonempty(received@);
        }
        let ghost all = views(lines@);
        let last = lines.pop();
        match last {
            Some(carry) => {
                self.carry = carry;
            },
            None => {},
        }
        assert(views(lines@) =~= all.drop_last());
        lines
    }

    /// Whether `host` matches a master mask; `None` where the check would
    /// stop on a mask that is not a valid pattern.
    pub fn check_master(&self, host: &str) -> (r: Option<bool>)
        ensures
            r == master_check(self@.masters, host@),
    {
        let n = self.masters.len();
        let mut i: usize = 0;
        let ghost ms = self@.masters;
        assert(ms.skip(0) =~= ms);
        while i < n
            invariant
                n == ms.len(),
                ms == views(self.masters@),
                i <= n,
                master_check(ms, host@) == master_check(ms.skip(i as int), host@),
            decreases n - i,
        {
            let pattern = mask_to_pattern_exec(self.masters[i].as_str());
            assert(ms.skip(i as int)[0] == ms[i as int]);
            assert(ms.skip(i as int).drop_first() =~= ms.skip(i + 1));
            match regex_is_match(pattern.as_str(), host) {
                None => {
                    return None;
                },
                Some(true) => {
                    return Some(true);
                },
                Some(false) => {},
            }
            i += 1;
        }
        assert(ms.skip(n as int) =~= Seq::<Seq<char>>::empty());
        Some(false)
    }

    /// Whether `host` matches a master mask (a mask is a host pattern where
    /// `*` stands for any text).
    pub fn is_master(&self, host: &str) -> (r: bool)
        requires
            master_check(self@.masters, host@) is Some,
        ensures
            r == master_check(self@.masters, host@)->0,
    {
        match self.check_master(host) {
            Some(b) => b,
            None => false,
        }
    }
}

} // verus!
