//! The error, status and output types shared by the client.
use vstd::prelude::*;

verus! {

/// What an operation of the client can fail with.
#[derive(Clone, Copy, Debug, PartialEq, Eq, Structural)]
pub enum IrcErrors {
    TcpStreamConnect,
    SslConnectorBuild,
    SslStreamConnect,
    NotMaster,
    UnknownFunction,
    Unknown,
}

/// The command or numeric reply that a server line carries in its second word.
#[allow(non_camel_case_types)]
#[derive(Clone, Copy, Debug, PartialEq, Eq, Structural)]
pub enum StatusCode {
    RPL_WELCOME,
    RPL_YOURHOST,
    RPL_CREATED,
    RPL_MYINFO,
    RPL_ISUPPORT,
    RPL_MOTD,
    RPL_MOTDSTART,
    RPL_ENDOFMOTD,
    ERR_NICKNAMEINUSE,
    JOIN,
    PART,
    MODE,
    NICK,
    NOTICE,
    KICK,
    INVITE,
    TOPIC,
    PRIVMSG,
    QUIT,
    UNKNOWN,
}

/// Something the client hands to the outside world, in the order it was
/// produced: a line for the console, or a message for the server.
#[derive(Clone, Debug, PartialEq, Eq)]
pub enum Output {
    Print(String),
    Send(String),
}

/// The mathematical value of an [`Output`].
pub enum OutputView {
    Print(Seq<char>),
    Send(Seq<char>),
}

impl View for Output {
    type V = OutputView;

    open spec fn view(&self) -> OutputView {
        match self {
            Output::Print(s) => OutputView::Print(s@),
            Output::Send(s) => OutputView::Send(s@),
        }
    }
}

/// The views of a sequence of outputs.
pub open spec fn outputs_view(v: Seq<Output>) -> Seq<OutputView> {
    v.map_values(|o: Output| o@)
}

} // verus!
