//! Bot commands: a name, a handler and the places the command may be used.
use vstd::prelude::*;
use crate::enums::IrcErrors;

verus! {

/// A command the bot answers to. `F` is the handler, called with the sender,
/// the reply target and the words of the invocation; it returns the messages
/// to send back.
pub struct Command<F> {
    name: String,
    func: Option<F>,
    only_masters: bool,
    channel_only: bool,
    private_only: bool,
}

/// The mathematical value of a [`Command`].
pub struct CommandView<F> {
    pub name: Seq<char>,
    pub func: Option<F>,
    pub only_masters: bool,
    pub channel_only: bool,
    pub private_only: bool,
}

impl<F> View for Command<F> {
    type V = CommandView<F>;

    closed spec fn view(&self) -> CommandView<F> {
        CommandView {
            name: self.name@,
            func: self.func,
            only_masters: self.only_masters,
            channel_only: self.channel_only,
            private_only: self.private_only,
        }
    }
}

/// A command, or the error that stopped its construction.
pub type CommandResult<F> = Result<Command<F>, IrcErrors>;

/// The views of a sequence of commands.
pub open spec fn commands_view<F>(v: Seq<Command<F>>) -> Seq<CommandView<F>> {
    v.map_values(|c: Command<F>| c@)
}

pub proof fn lemma_commands_view_index<F>(v: Seq<Command<F>>, i: int)
    requires
        0 <= i < v.len(),
    ensures
        commands_view(v)[i] == v[i]@,
        commands_view(v).len() == v.len(),
{
}

impl<F> Command<F> {
    /// A command with no handler, usable anywhere by anyone.
    pub fn new(name: &str) -> (c: Command<F>)
        ensures
            c@ == (CommandView::<F> {
                name: name@,
                func: None,
                only_masters: false,
                channel_only: false,
                private_only: false,
            }),
    {
        Command {
            name: name.to_owned(),
            func: None,
            only_masters: false,
            channel_only: false,
            private_only: false,
        }
    }

    pub fn get_name(&self) -> (r: &String)
        ensures
            r@ == self@.name,
    {
        &self.name
    }

    pub fn get_func(&self) -> (r: &Option<F>)
        ensures
            *r == self@.func,
    {
        &self.func
    }

    pub fn is_only_masters(&self) -> (r: &bool)
        ensures
            *r == self@.only_masters,
    {
        &self.only_masters
    }

    pub fn is_channel_only(&self) -> (r: &bool)
        ensures
            *r == self@.channel_only,
    {
        &self.channel_only
    }

    pub fn is_private_only(&self) -> (r: &bool)
        ensures
            *r == self@.private_only,
    {
        &self.private_only
    }

    /// Sets the handler; never fails.
    pub fn func(self, new_func: F) -> (r: CommandResult<F>)
        ensures
            r matches Ok(c) && c@ == (CommandView::<F> { func: Some(new_func), ..self@ }),
    {
        let mut c = self;
        c.func = Some(new_func);
        Ok(c)
    }

    /// Restricts the command to masters; never fails.
    pub fn only_masters(self) -> (r: CommandResult<F>)
        ensures
            r matches Ok(c) && c@ == (CommandView::<F> { only_masters: true, ..self@ }),
    {
        let mut c = self;
        c.only_masters = true;
        Ok(c)
    }

    /// Restricts the command to channels; never fails.
    pub fn channel_only(self) -> (r: CommandResult<F>)
        ensures
            r matches Ok(c) && c@ == (CommandView::<F> { channel_only: true, ..self@ }),
    {
        let mut c = self;
        c.channel_only = true;
        Ok(c)
    }

    /// Restricts the command to private messages; never fails.
    pub fn private_only(self) -> (r: CommandResult<F>)
        ensures
            r matches Ok(c) && c@ == (CommandView::<F> { private_only: true, ..self@ }),
    {
        let mut c = self;
        c.private_only = true;
        Ok(c)
    }
}

} // verus!
