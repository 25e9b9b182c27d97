pub mod actions;
pub mod commands;
pub mod dispatch;
pub mod enums;
pub mod events;
pub mod irc;
pub mod layout;
pub mod lines;
pub mod protocol;
pub mod reading;
pub mod replies;
pub mod text;
