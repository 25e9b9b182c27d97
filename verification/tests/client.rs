use ircbot::commands::Command;
use ircbot::enums::{IrcErrors, Output, StatusCode};
use ircbot::irc::Irc;
use ircbot::lines::{parse_line, Event};
use ircbot::protocol::{can_frame_message, decimal_string, frame_message, mask_to_pattern_exec};
use ircbot::replies::{help_func, melp_func};
use ircbot::text::{join_all, split_on_char};

type Handler = fn(&str, &str, Vec<String>) -> Vec<String>;

fn echo_args(_from: &str, target: &str, argv: Vec<String>) -> Vec<String> {
    vec![format!("PRIVMSG {} :{}", target, argv.join("|"))]
}

fn bot() -> Irc<Handler> {
    Irc::<Handler>::new("rustr")
        .add_command(
            Command::new("help")
                .func(help_func as Handler)
                .unwrap()
                .only_masters()
                .unwrap()
                .channel_only()
                .unwrap(),
        )
        .unwrap()
        .add_command(Command::new("melp").func(melp_func as Handler).unwrap().only_masters().unwrap())
        .unwrap()
        .add_command(Command::new("echo").func(echo_args as Handler).unwrap())
        .unwrap()
        .add_command(Command::new("nofunc"))
        .unwrap()
        .init_prefix(&'~')
        .unwrap()
        .init_masters(vec!["*!*@arabs.ps", "*!*@127.0.0.1"])
        .unwrap()
        .set_initial_channels(vec!["#ruster", "#other"])
        .unwrap()
}

fn send(s: &str) -> Output {
    Output::Send(s.to_string())
}

fn print(s: &str) -> Output {
    Output::Print(s.to_string())
}

#[test]
fn command_builder_sets_flags() {
    let c = Command::<Handler>::new("help");
    assert_eq!(c.get_name(), "help");
    assert!(c.get_func().is_none());
    assert!(!*c.is_only_masters());
    assert!(!*c.is_channel_only());
    assert!(!*c.is_private_only());
    let c = c.only_masters().unwrap().private_only().unwrap();
    assert!(*c.is_only_masters());
    assert!(*c.is_private_only());
    assert!(!*c.is_channel_only());
    let c = c.channel_only().unwrap().func(help_func as Handler).unwrap();
    assert!(*c.is_channel_only());
    assert!(c.get_func().is_some());
    assert_eq!(c.get_name(), "help");
}

#[test]
fn client_getters_and_setters() {
    let mut irc = Irc::<Handler>::new("rustr");
    assert_eq!(irc.nick(), "rustr");
    assert!(irc.user().is_none());
    assert!(irc.real_name().is_none());
    assert!(irc.prefix().is_none());
    assert!(irc.masters().is_empty());
    assert!(irc.channels().is_empty());
    assert!(irc.commands().is_empty());
    irc.set_nick("other".to_string());
    irc.set_user("u".to_string());
    irc.set_real("r".to_string());
    irc.set_prefix('!');
    irc.set_masters(vec!["*".to_string()]);
    irc.set_channels(vec!["#a".to_string()]);
    irc.set_commands(vec![Command::new("x")]);
    assert_eq!(irc.nick(), "other");
    assert_eq!(irc.user().as_deref(), Some("u"));
    assert_eq!(irc.real_name().as_deref(), Some("r"));
    assert_eq!(*irc.prefix(), Some('!'));
    assert_eq!(irc.masters(), &vec!["*".to_string()]);
    assert_eq!(irc.channels(), &vec!["#a".to_string()]);
    assert_eq!(irc.commands().len(), 1);
    assert_eq!(irc.commands()[0].get_name(), "x");
}

#[test]
fn builders_keep_order() {
    let irc = bot();
    let names: Vec<&str> = irc.commands().iter().map(|c| c.get_name().as_str()).collect();
    assert_eq!(names, vec!["help", "melp", "echo", "nofunc"]);
    assert_eq!(*irc.prefix(), Some('~'));
    assert_eq!(irc.masters(), &vec!["*!*@arabs.ps".to_string(), "*!*@127.0.0.1".to_string()]);
    assert_eq!(irc.channels(), &vec!["#ruster".to_string(), "#other".to_string()]);
}

#[test]
fn register_sends_user_then_nick() {
    let mut irc = bot().register("wrkbot", "ayy").unwrap();
    assert_eq!(irc.user().as_deref(), Some("wrkbot"));
    assert_eq!(irc.real_name().as_deref(), Some("ayy"));
    assert_eq!(irc.take_outputs(), vec![send("USER wrkbot 0 * :ayy"), send("NICK rustr")]);
    assert!(irc.take_outputs().is_empty());
}

#[test]
fn join_part_pong_messages() {
    let mut irc = bot();
    assert_eq!(irc.join(vec!["#a".to_string(), "#b".to_string()]), Ok(()));
    assert_eq!(irc.part(vec!["#a".to_string()]), Ok(()));
    assert_eq!(irc.pong("irc.example"), Ok(()));
    assert_eq!(irc.join(vec![]), Ok(()));
    assert_eq!(
        irc.take_outputs(),
        vec![send("JOIN #a,#b"), send("PART #a"), send("PONG irc.example"), send("JOIN ")]
    );
}

#[test]
fn frame_strips_breaks_and_adds_crlf() {
    assert_eq!(frame_message("PRIVMSG #a :hi\r\nQUIT"), "PRIVMSG #a :hiQUIT\r\n");
    assert_eq!(frame_message(""), "\r\n");
    assert!(can_frame_message("short"));
}

#[test]
fn frame_cuts_long_bodies_at_510_bytes() {
    let long = "a".repeat(600);
    let framed = frame_message(&long);
    assert_eq!(framed.len(), 512);
    assert_eq!(framed, format!("{}\r\n", "a".repeat(510)));
    let exact = "b".repeat(510);
    assert_eq!(frame_message(&exact), format!("{}\r\n", exact));
    // Line breaks do not count towards the limit.
    let with_breaks = format!("{}\r\n\r\n", "c".repeat(510));
    assert_eq!(frame_message(&with_breaks), format!("{}\r\n", "c".repeat(510)));
}

#[test]
fn frame_refuses_a_cut_inside_a_character() {
    // 509 ASCII bytes, then a two-byte character covering bytes 509 and 510.
    let msg = format!("{}é{}", "a".repeat(509), "z".repeat(10));
    assert!(!can_frame_message(&msg));
    // 508 ASCII bytes then the two-byte character ends exactly at byte 510.
    let msg = format!("{}é{}", "a".repeat(508), "z".repeat(10));
    assert!(can_frame_message(&msg));
    assert_eq!(frame_message(&msg), format!("{}é\r\n", "a".repeat(508)));
}

#[test]
fn receive_splits_at_crlf_and_keeps_the_tail() {
    let mut irc = Irc::<Handler>::new("n");
    assert_eq!(irc.receive("PING :a\r\nPING"), vec!["PING :a".to_string()]);
    assert_eq!(irc.receive(" :b\r"), Vec::<String>::new());
    assert_eq!(irc.receive("\n\r\nx"), vec!["PING :b".to_string(), String::new()]);
    assert_eq!(irc.receive("\r\n"), vec!["x".to_string()]);
    assert_eq!(irc.receive(""), Vec::<String>::new());
}

#[test]
fn receive_in_parts_equals_receive_at_once() {
    let stream = "a\r\nbb\r\r\n\nc\r\nd";
    let mut whole = Irc::<Handler>::new("n");
    let all = whole.receive(stream);
    for cut in 0..=stream.len() {
        let mut parts = Irc::<Handler>::new("n");
        let mut got = parts.receive(&stream[..cut]);
        got.extend(parts.receive(&stream[cut..]));
        assert_eq!(got, all, "cut at {}", cut);
    }
    assert_eq!(all, vec!["a".to_string(), "bb\r".to_string(), "\nc".to_string()]);
}

#[test]
fn split_and_join_words() {
    assert_eq!(split_on_char("a b  c", ' '), vec!["a", "b", "", "c"]);
    assert_eq!(split_on_char("", ' '), vec![""]);
    assert_eq!(split_on_char(" ", ' '), vec!["", ""]);
    let words = split_on_char("x y z", ' ');
    assert_eq!(join_all(&words, " "), "x y z");
    assert_eq!(join_all(&vec![], ","), "");
}

#[test]
fn masks_become_patterns() {
    assert_eq!(mask_to_pattern_exec("*!*@127.0.0.1"), ".*!.*@127\\.0\\.0\\.1");
    assert_eq!(mask_to_pattern_exec("plain"), "plain");
}

#[test]
fn master_check_uses_the_masks() {
    let irc = bot();
    assert!(irc.is_master("nick!user@127.0.0.1"));
    assert!(irc.is_master("x!y@arabs.ps"));
    assert!(!irc.is_master("nick!user@example.org"));
    assert_eq!(irc.check_master("nick!user@example.org"), Some(false));
    let mut bad = Irc::<Handler>::new("n");
    bad.set_masters(vec!["(".to_string()]);
    assert_eq!(bad.check_master("anyone"), None);
    let none = Irc::<Handler>::new("n");
    assert!(!none.is_master("anyone"));
}

#[test]
fn status_codes() {
    assert_eq!(StatusCode::from_token("001"), StatusCode::RPL_WELCOME);
    assert_eq!(StatusCode::from_token("433"), StatusCode::ERR_NICKNAMEINUSE);
    assert_eq!(StatusCode::from_token("PRIVMSG"), StatusCode::PRIVMSG);
    assert_eq!(StatusCode::from_token("372"), StatusCode::RPL_MOTD);
    assert_eq!(StatusCode::from_token("privmsg"), StatusCode::UNKNOWN);
    assert_eq!(StatusCode::from_token("999"), StatusCode::UNKNOWN);
}

#[test]
fn parse_lines() {
    match parse_line("PING :irc.example") {
        Some(Event::Ping(m)) => assert_eq!(m, "irc.example"),
        _ => panic!("ping"),
    }
    match parse_line(":n!u@h PRIVMSG #chan :hello there") {
        Some(Event::ChannelMessage { from, channel, message }) => {
            assert_eq!(from, "n!u@h");
            assert_eq!(channel, "#chan");
            assert_eq!(message, "hello there");
        },
        _ => panic!("channel message"),
    }
    match parse_line(":n!u@h PRIVMSG rustr :hi") {
        Some(Event::PrivateMessage { from, message }) => {
            assert_eq!(from, "n!u@h");
            assert_eq!(message, "hi");
        },
        _ => panic!("private message"),
    }
    match parse_line(":n!u@h MODE #c +o a b") {
        Some(Event::Mode { from, channel, mode, targets }) => {
            assert_eq!((from.as_str(), channel.as_str(), mode.as_str()), ("n!u@h", "#c", "+o"));
            assert_eq!(targets, vec!["a".to_string(), "b".to_string()]);
        },
        _ => panic!("mode"),
    }
    match parse_line(":n!u@h KICK #c victim :too loud") {
        Some(Event::Kick { from, channel, who, reason }) => {
            assert_eq!((from.as_str(), channel.as_str(), who.as_str()), ("n!u@h", "#c", "victim"));
            assert_eq!(reason, "too loud");
        },
        _ => panic!("kick"),
    }
    assert!(matches!(parse_line(":srv 001 rustr :Welcome"), Some(Event::Welcome)));
    assert!(matches!(parse_line(":srv 375 rustr :motd"), Some(Event::Ignored)));
    assert!(matches!(parse_line(":srv 999 rustr :what"), Some(Event::Unrecognized)));
    assert!(matches!(parse_line(":n PRIVMSG  :x"), Some(Event::NoTarget)));
    // Lines the client cannot read.
    assert!(parse_line("").is_none());
    assert!(parse_line("PING").is_none());
    assert!(parse_line("PING ").is_none());
    assert!(parse_line(":n JOIN").is_none());
    assert!(parse_line(":n PRIVMSG #c").is_none());
    assert!(parse_line(":n PRIVMSG #c é").is_none());
}

#[test]
fn ping_is_answered() {
    let mut irc = bot();
    assert_eq!(irc.handle_line("PING :irc.example"), Ok(()));
    assert_eq!(irc.take_outputs(), vec![print("[*] Ping! (irc.example)"), send("PONG irc.example")]);
}

#[test]
fn welcome_joins_the_initial_channels() {
    let mut irc = bot();
    assert_eq!(irc.handle_line(":srv 001 rustr :Welcome"), Ok(()));
    assert_eq!(irc.take_outputs(), vec![send("JOIN #ruster,#other")]);
}

#[test]
fn events_are_noted() {
    let mut irc = bot();
    let lines = [
        ":srv 433 * rustr :in use",
        ":n!u@h JOIN :#c",
        ":n!u@h PART #c :bye now",
        ":n!u@h MODE #c +o a b",
        ":n!u@h NICK :m",
        ":n!u@h NOTICE rustr :note",
        ":n!u@h KICK #c v :reason",
        ":n!u@h INVITE rustr :#c",
        ":n!u@h TOPIC #c :new topic",
    ];
    for l in lines.iter() {
        assert_eq!(irc.handle_line(l), Ok(()), "{}", l);
    }
    assert_eq!(
        irc.take_outputs(),
        vec![
            print("[x] Nick already in use."),
            print("[*] n!u@h joined #c"),
            print("[*] n!u@h part from #c -> bye now"),
            print("[*] n!u@h set +o to a,b in #c"),
            print("[*] n!u@h is now m"),
            print("[*] Notice from n!u@h to rustr -> note"),
            print("[!] n!u@h kicked v from #c -> reason"),
            print("[*] n!u@h Invited rustr to #c"),
            print("[*] n!u@h set the topic of #c to new topic"),
        ]
    );
}

#[test]
fn unknown_status_is_an_error() {
    let mut irc = bot();
    assert_eq!(irc.handle_line(":srv 999 x"), Err(IrcErrors::Unknown));
    assert_eq!(irc.handle_line(":n PRIVMSG  :x"), Err(IrcErrors::Unknown));
    assert_eq!(irc.handle_line(":srv 375 rustr :motd"), Ok(()));
    assert!(irc.take_outputs().is_empty());
}

#[test]
fn master_command_in_channel() {
    let mut irc = bot();
    assert_eq!(irc.handle_line(":boss!me@127.0.0.1 PRIVMSG #ruster :~help"), Ok(()));
    assert_eq!(
        irc.take_outputs(),
        vec![
            print("[*] Message from boss!me@127.0.0.1 in channel #ruster -> ~help."),
            send("PRIVMSG #ruster :boss!me@127.0.0.1: melp?"),
        ]
    );
    assert_eq!(irc.handle_line(":boss!me@127.0.0.1 PRIVMSG #ruster :~melp"), Ok(()));
    assert_eq!(
        irc.take_outputs()[1],
        send("PRIVMSG #ruster :\u{1}ACTION explodes.\u{1}")
    );
}

#[test]
fn non_master_is_refused() {
    let mut irc = bot();
    assert_eq!(
        irc.handle_line(":x!y@elsewhere PRIVMSG #ruster :~help"),
        Err(IrcErrors::NotMaster)
    );
    assert_eq!(
        irc.take_outputs(),
        vec![print("[*] Message from x!y@elsewhere in channel #ruster -> ~help.")]
    );
}

#[test]
fn unknown_or_handlerless_command() {
    let mut irc = bot();
    assert_eq!(
        irc.handle_line(":x!y@z PRIVMSG #ruster :~nothing"),
        Err(IrcErrors::UnknownFunction)
    );
    assert_eq!(
        irc.handle_line(":x!y@z PRIVMSG #ruster :~nofunc"),
        Err(IrcErrors::UnknownFunction)
    );
    assert_eq!(irc.handle_line(":x!y@z PRIVMSG #ruster :no prefix"), Ok(()));
    assert_eq!(irc.take_outputs().len(), 3);
}

#[test]
fn handler_gets_sender_target_and_words() {
    let mut irc = bot();
    assert_eq!(irc.handle_line(":x!y@z PRIVMSG #ruster :~echo a  b"), Ok(()));
    assert_eq!(irc.take_outputs()[1], send("PRIVMSG #ruster :echo|a||b"));
}

#[test]
fn private_command_replies_to_the_nick() {
    let mut irc = bot();
    assert_eq!(irc.handle_line(":x!y@z PRIVMSG rustr :~echo hi"), Ok(()));
    assert_eq!(
        irc.take_outputs(),
        vec![
            print("[*] Private Message from x!y@z -> ~echo hi."),
            print("We in! x!y@z echo"),
            print("PRIVMSG x :echo|hi"),
            send("PRIVMSG x :echo|hi"),
        ]
    );
}

#[test]
fn channel_only_command_is_not_run_in_private() {
    let mut irc = bot();
    assert_eq!(
        irc.handle_line(":boss!me@127.0.0.1 PRIVMSG rustr :~help"),
        Err(IrcErrors::UnknownFunction)
    );
    // A private-only command is passed over in a channel.
    let mut irc = Irc::<Handler>::new("n")
        .add_command(Command::new("p").func(melp_func as Handler).unwrap().private_only().unwrap())
        .unwrap()
        .init_prefix(&'!')
        .unwrap();
    assert_eq!(irc.handle_command("a", "#c", vec!["p"]), Err(IrcErrors::UnknownFunction));
    assert!(irc.take_outputs().is_empty());
    assert_eq!(irc.handle_private_command("a!b@c", vec!["p"]), Ok(()));
    assert_eq!(
        irc.take_outputs(),
        vec![
            print("We in! a!b@c p"),
            print("PRIVMSG a :\u{1}ACTION explodes.\u{1}"),
            send("PRIVMSG a :\u{1}ACTION explodes.\u{1}"),
        ]
    );
}

#[test]
fn first_matching_command_wins() {
    fn first(_f: &str, _t: &str, _a: Vec<String>) -> Vec<String> {
        vec!["first".to_string()]
    }
    fn second(_f: &str, _t: &str, _a: Vec<String>) -> Vec<String> {
        vec!["second".to_string()]
    }
    let mut irc = Irc::<Handler>::new("n")
        .add_command(Command::new("c").func(first as Handler).unwrap())
        .unwrap()
        .add_command(Command::new("c").func(second as Handler).unwrap())
        .unwrap();
    assert_eq!(irc.handle_command("a", "#c", vec!["c"]), Ok(()));
    assert_eq!(irc.take_outputs(), vec![send("first")]);
}

#[test]
fn try_handle_line_refuses_unreadable_lines() {
    let mut irc = bot();
    assert_eq!(irc.try_handle_line("garbage"), None);
    assert!(!irc.line_is_defined("garbage"));
    assert!(irc.take_outputs().is_empty());
    assert_eq!(irc.try_handle_line("PING :x"), Some(Ok(())));
    // A master check on a mask that does not compile cannot be made.
    let mut bad = Irc::<Handler>::new("n")
        .add_command(Command::new("m").func(melp_func as Handler).unwrap().only_masters().unwrap())
        .unwrap()
        .init_prefix(&'~')
        .unwrap()
        .init_masters(vec!["("])
        .unwrap();
    assert_eq!(bad.try_handle_line(":a!b@c PRIVMSG #x :~m"), None);
    assert_eq!(bad.try_handle_line(":a!b@c PRIVMSG #x :~other"), Some(Err(IrcErrors::UnknownFunction)));
    // A prefix of more than one byte cannot be cut off a message.
    let mut wide = Irc::<Handler>::new("n").init_prefix(&'é').unwrap();
    assert_eq!(wide.try_handle_line(":a PRIVMSG #x :éhelp"), None);
    assert_eq!(wide.try_handle_line(":a PRIVMSG #x :help"), Some(Ok(())));
}

#[test]
fn console_notes() {
    let mut irc = Irc::<Handler>::new("n");
    assert_eq!(irc.on_connect("irc.sandngz.net", 6697, true), Ok(()));
    assert_eq!(irc.on_disconnect(), Ok(()));
    assert_eq!(irc.on_join_channels(vec!["#a".to_string(), "#b".to_string()]), Ok(()));
    assert_eq!(irc.on_quit("gone"), Ok(()));
    assert_eq!(
        irc.take_outputs(),
        vec![
            print("[*] Connected to irc.sandngz.net:6697 (ssl: true)!"),
            print("[*] Disconnected"),
            print("[*] Channels #a,#b joined."),
            print("[x] Quit! Reason: gone"),
        ]
    );
}

#[test]
fn decimal_numbers() {
    assert_eq!(decimal_string(0), "0");
    assert_eq!(decimal_string(7), "7");
    assert_eq!(decimal_string(10), "10");
    assert_eq!(decimal_string(6697), "6697");
    assert_eq!(decimal_string(65535), "65535");
}

#[test]
fn bot_replies() {
    assert_eq!(help_func("a!b@c", "#x", vec![]), vec!["PRIVMSG #x :a!b@c: melp?".to_string()]);
    assert_eq!(
        melp_func("a", "#x", vec!["melp".to_string()]),
        vec!["PRIVMSG #x :\u{1}ACTION explodes.\u{1}".to_string()]
    );
}

#[test]
fn responding_only_adds_outputs() {
    let mut irc = bot();
    irc.pong("first").unwrap();
    let before_nick = irc.nick().clone();
    assert_eq!(irc.handle_line(":boss!me@127.0.0.1 PRIVMSG #ruster :~help"), Ok(()));
    assert_eq!(irc.handle_line(":n!u@h NICK :m"), Ok(()));
    assert_eq!(irc.nick(), &before_nick);
    assert_eq!(*irc.prefix(), Some('~'));
    assert_eq!(irc.commands().len(), 4);
    let out = irc.take_outputs();
    assert_eq!(out[0], send("PONG first"));
    assert_eq!(out.len(), 4);
}

#[test]
fn without_masters_no_master_command_runs() {
    let mut irc = Irc::<Handler>::new("n")
        .add_command(Command::new("m").func(melp_func as Handler).unwrap().only_masters().unwrap())
        .unwrap()
        .init_prefix(&'~')
        .unwrap();
    assert_eq!(irc.handle_line(":a!b@127.0.0.1 PRIVMSG #x :~m"), Err(IrcErrors::NotMaster));
    assert_eq!(irc.take_outputs(), vec![print("[*] Message from a!b@127.0.0.1 in channel #x -> ~m.")]);
}
