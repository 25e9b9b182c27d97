//! Reading lines built from the fields of an event: each such line gives
//! back the event it was built from.
use vstd::prelude::*;
use crate::irc::IrcView;
use crate::lines::{event_of, line_defined, rest_of, EventView};
use crate::protocol::law_status_words;
use crate::text::{
    can_drop_first_byte,
    law_split_at_sep,
    law_split_join,
    law_split_plain,
    lemma_split_on_nonempty,
    split_on,
};

verus! {

/// Two pieces without spaces make a piece without spaces.
proof fn lemma_plain_cat(a: Seq<char>, b: Seq<char>)
    requires
        !a.contains(' '),
        !b.contains(' '),
    ensures
        !(a + b).contains(' '),
{
    if (a + b).contains(' ') {
        let j = choose|j: int| 0 <= j < (a + b).len() && (a + b)[j] == ' ';
        if j < a.len() {
            assert(a[j] == ' ');
        } else {
            assert(b[j - a.len()] == ' ');
        }
    }
}

/// A text with a character other than a space at each place holds no space.
proof fn lemma_plain_chars(w: Seq<char>)
    requires
        forall|i: int| 0 <= i < w.len() ==> w[i] != ' ',
    ensures
        !w.contains(' '),
{
}

/// The command words and the marker hold no space.
proof fn lemma_plain_words()
    ensures
        " "@ == seq![' '],
        ":"@ == seq![':'],
        !":"@.contains(' '),
        !"JOIN"@.contains(' '),
        !"PART"@.contains(' '),
        !"NICK"@.contains(' '),
        !"NOTICE"@.contains(' '),
        !"KICK"@.contains(' '),
        !"INVITE"@.contains(' '),
        !"TOPIC"@.contains(' '),
        !"PRIVMSG"@.contains(' '),
{
    reveal_strlit(" ");
    reveal_strlit(":");
    reveal_strlit("JOIN");
    reveal_strlit("PART");
    reveal_strlit("NICK");
    reveal_strlit("NOTICE");
    reveal_strlit("KICK");
    reveal_strlit("INVITE");
    reveal_strlit("TOPIC");
    reveal_strlit("PRIVMSG");
    assert(" "@ =~= seq![' ']);
    assert(":"@ =~= seq![':']);
    lemma_plain_chars(":"@);
    lemma_plain_chars("JOIN"@);
    lemma_plain_chars("PART"@);
    lemma_plain_chars("NICK"@);
    lemma_plain_chars("NOTICE"@);
    lemma_plain_chars("KICK"@);
    lemma_plain_chars("INVITE"@);
    lemma_plain_chars("TOPIC"@);
    lemma_plain_chars("PRIVMSG"@);
}

/// A word, a space and the rest: the word is the first piece.
proof fn lemma_word_then(w: Seq<char>, rest: Seq<char>)
    requires
        !w.contains(' '),
    ensures
        split_on(w + " "@ + rest, ' ') == seq![w] + split_on(rest, ' '),
{
    lemma_plain_words();
    assert(w + " "@ + rest =~= w.push(' ') + rest);
    law_split_at_sep(w, rest, ' ');
    law_split_plain(w, ' ');
}

/// A word marked by a leading `:`, as a sender stands first in a line.
proof fn lemma_marked_word(w: Seq<char>)
    requires
        !w.contains(' '),
    ensures
        !(":"@ + w).contains(' '),
        ":"@ + w != "PING"@,
        ":"@ + w != ":Closing Link:"@,
        can_drop_first_byte(":"@ + w),
        (":"@ + w).drop_first() == w,
{
    lemma_plain_words();
    lemma_plain_cat(":"@, w);
    reveal_strlit("PING");
    reveal_strlit(":Closing Link:");
    assert((":"@ + w)[0] == ':');
    assert("PING"@[0] == 'P');
    assert((":"@ + w).drop_first() =~= w);
    if ":"@ + w == ":Closing Link:"@ {
        assert((":"@ + w)[8] == ' ');
    }
}

/// Text marked by a leading `:` that stands after the first `k` words is read
/// back whole.
proof fn lemma_marked_rest(head: Seq<Seq<char>>, text: Seq<char>)
    ensures
        rest_of(head + split_on(":"@ + text, ' '), head.len() as int) == ":"@ + text,
        can_drop_first_byte(":"@ + text),
        (":"@ + text).drop_first() == text,
        split_on(":"@ + text, ' ').len() >= 1,
{
    lemma_plain_words();
    let m = ":"@ + text;
    assert((head + split_on(m, ' ')).skip(head.len() as int) =~= split_on(m, ' '));
    law_split_join(m, ' ');
    lemma_split_on_nonempty(m, ' ');
    assert(m[0] == ':');
    assert(m.drop_first() =~= text);
}

/// Reading a `JOIN` line gives the sender's join to the channel, and the
/// client can take it.
pub proof fn law_join_read<F>(s: IrcView<F>, from: Seq<char>, channel: Seq<char>)
    requires
        !from.contains(' '),
        !channel.contains(' '),
    ensures
        event_of(":"@ + from + " "@ + "JOIN"@ + " "@ + ":"@ + channel) == Some(
            EventView::Join { from, channel },
        ),
        line_defined(s, ":"@ + from + " "@ + "JOIN"@ + " "@ + ":"@ + channel),
{
    let w0 = ":"@ + from;
    let w2 = ":"@ + channel;
    let line = ":"@ + from + " "@ + "JOIN"@ + " "@ + ":"@ + channel;
    lemma_plain_words();
    lemma_marked_word(from);
    lemma_marked_word(channel);
    law_status_words();
    assert(line =~= w0 + " "@ + ("JOIN"@ + " "@ + w2));
    lemma_word_then(w0, "JOIN"@ + " "@ + w2);
    lemma_word_then("JOIN"@, w2);
    law_split_plain(w2, ' ');
    assert(split_on(line, ' ') =~= seq![w0, "JOIN"@, w2]);
}

/// Reading a `NOTICE` line gives the sender, the target and the whole text
/// after the `:`, spaces and all, and the client can take it.
pub proof fn law_notice_read<F>(s: IrcView<F>, from: Seq<char>, target: Seq<char>, message: Seq<char>)
    requires
        !from.contains(' '),
        !target.contains(' '),
    ensures
        event_of(":"@ + from + " "@ + "NOTICE"@ + " "@ + target + " "@ + ":"@ + message) == Some(
            EventView::Notice { from, target, message },
        ),
        line_defined(s, ":"@ + from + " "@ + "NOTICE"@ + " "@ + target + " "@ + ":"@ + message),
{
    let w0 = ":"@ + from;
    let m = ":"@ + message;
    let line = ":"@ + from + " "@ + "NOTICE"@ + " "@ + target + " "@ + ":"@ + message;
    lemma_plain_words();
    lemma_marked_word(from);
    law_status_words();
    assert(line =~= w0 + " "@ + ("NOTICE"@ + " "@ + (target + " "@ + m)));
    lemma_word_then(w0, "NOTICE"@ + " "@ + (target + " "@ + m));
    lemma_word_then("NOTICE"@, target + " "@ + m);
    lemma_word_then(target, m);
    let head = seq![w0, "NOTICE"@, target];
    assert(split_on(line, ' ') =~= head + split_on(m, ' '));
    lemma_marked_rest(head, message);
}

/// Reading a `PART` line gives the sender, the channel and the whole parting
/// text, and the client can take it.
pub proof fn law_part_read<F>(s: IrcView<F>, from: Seq<char>, channel: Seq<char>, message: Seq<char>)
    requires
        !from.contains(' '),
        !channel.contains(' '),
    ensures
        event_of(":"@ + from + " "@ + "PART"@ + " "@ + channel + " "@ + ":"@ + message) == Some(
            EventView::Part { from, channel, message },
        ),
        line_defined(s, ":"@ + from + " "@ + "PART"@ + " "@ + channel + " "@ + ":"@ + message),
{
    let w0 = ":"@ + from;
    let m = ":"@ + message;
    let line = ":"@ + from + " "@ + "PART"@ + " "@ + channel + " "@ + ":"@ + message;
    lemma_plain_words();
    lemma_marked_word(from);
    law_status_words();
    assert(line =~= w0 + " "@ + ("PART"@ + " "@ + (channel + " "@ + m)));
    lemma_word_then(w0, "PART"@ + " "@ + (channel + " "@ + m));
    lemma_word_then("PART"@, channel + " "@ + m);
    lemma_word_then(channel, m);
    let head = seq![w0, "PART"@, channel];
    assert(split_on(line, ' ') =~= head + split_on(m, ' '));
    lemma_marked_rest(head, message);
}

/// Reading a `TOPIC` line gives the sender, the channel and the whole topic,
/// and the client can take it.
pub proof fn law_topic_read<F>(s: IrcView<F>, from: Seq<char>, channel: Seq<char>, topic: Seq<char>)
    requires
        !from.contains(' '),
        !channel.contains(' '),
    ensures
        event_of(":"@ + from + " "@ + "TOPIC"@ + " "@ + channel + " "@ + ":"@ + topic) == Some(
            EventView::Topic { from, channel, topic },
        ),
        line_defined(s, ":"@ + from + " "@ + "TOPIC"@ + " "@ + channel + " "@ + ":"@ + topic),
{
    let w0 = ":"@ + from;
    let m = ":"@ + topic;
    let line = ":"@ + from + " "@ + "TOPIC"@ + " "@ + channel + " "@ + ":"@ + topic;
    lemma_plain_words();
    lemma_marked_word(from);
    law_status_words();
    assert(line =~= w0 + " "@ + ("TOPIC"@ + " "@ + (channel + " "@ + m)));
    lemma_word_then(w0, "TOPIC"@ + " "@ + (channel + " "@ + m));
    lemma_word_then("TOPIC"@, channel + " "@ + m);
    lemma_word_then(channel, m);
    let head = seq![w0, "TOPIC"@, channel];
    assert(split_on(line, ' ') =~= head + split_on(m, ' '));
    lemma_marked_rest(head, topic);
}

/// Reading a `KICK` line gives the sender, the channel, the one kicked and the
/// whole reason, and the client can take it.
pub proof fn law_kick_read<F>(
    s: IrcView<F>,
    from: Seq<char>,
    channel: Seq<char>,
    who: Seq<char>,
    reason: Seq<char>,
)
    requires
        !from.contains(' '),
        !channel.contains(' '),
        !who.contains(' '),
    ensures
        event_of(":"@ + from + " "@ + "KICK"@ + " "@ + channel + " "@ + who + " "@ + ":"@ + reason)
            == Some(EventView::Kick { from, channel, who, reason }),
        line_defined(s, ":"@ + from + " "@ + "KICK"@ + " "@ + channel + " "@ + who + " "@ + ":"@ + reason),
{
    let w0 = ":"@ + from;
    let m = ":"@ + reason;
    let line = ":"@ + from + " "@ + "KICK"@ + " "@ + channel + " "@ + who + " "@ + ":"@ + reason;
    lemma_plain_words();
    lemma_marked_word(from);
    law_status_words();
    assert(line =~= w0 + " "@ + ("KICK"@ + " "@ + (channel + " "@ + (who + " "@ + m))));
    lemma_word_then(w0, "KICK"@ + " "@ + (channel + " "@ + (who + " "@ + m)));
    lemma_word_then("KICK"@, channel + " "@ + (who + " "@ + m));
    lemma_word_then(channel, who + " "@ + m);
    lemma_word_then(who, m);
    let head = seq![w0, "KICK"@, channel, who];
    assert(split_on(line, ' ') =~= head + split_on(m, ' '));
    lemma_marked_rest(head, reason);
}

/// Reading an `INVITE` line gives the sender, the one invited and the channel,
/// and the client can take it.
pub proof fn law_invite_read<F>(s: IrcView<F>, from: Seq<char>, who: Seq<char>, channel: Seq<char>)
    requires
        !from.contains(' '),
        !who.contains(' '),
        !channel.contains(' '),
    ensures
        event_of(":"@ + from + " "@ + "INVITE"@ + " "@ + who + " "@ + ":"@ + channel) == Some(
            EventView::Invite { from, who, channel },
        ),
        line_defined(s, ":"@ + from + " "@ + "INVITE"@ + " "@ + who + " "@ + ":"@ + channel),
{
    let w0 = ":"@ + from;
    let w3 = ":"@ + channel;
    let line = ":"@ + from + " "@ + "INVITE"@ + " "@ + who + " "@ + ":"@ + channel;
    lemma_plain_words();
    lemma_marked_word(from);
    lemma_marked_word(channel);
    law_status_words();
    assert(line =~= w0 + " "@ + ("INVITE"@ + " "@ + (who + " "@ + w3)));
    lemma_word_then(w0, "INVITE"@ + " "@ + (who + " "@ + w3));
    lemma_word_then("INVITE"@, who + " "@ + w3);
    lemma_word_then(who, w3);
    law_split_plain(w3, ' ');
    assert(split_on(line, ' ') =~= seq![w0, "INVITE"@, who, w3]);
}

/// Reading a `NICK` line gives the sender and the new nick, and the client
/// can take it.
pub proof fn law_nick_read<F>(s: IrcView<F>, from: Seq<char>, new_nick: Seq<char>)
    requires
        !from.contains(' '),
        !new_nick.contains(' '),
    ensures
        event_of(":"@ + from + " "@ + "NICK"@ + " "@ + ":"@ + new_nick) == Some(
            EventView::Nick { from, new_nick },
        ),
        line_defined(s, ":"@ + from + " "@ + "NICK"@ + " "@ + ":"@ + new_nick),
{
    let w0 = ":"@ + from;
    let w2 = ":"@ + new_nick;
    let line = ":"@ + from + " "@ + "NICK"@ + " "@ + ":"@ + new_nick;
    lemma_plain_words();
    lemma_marked_word(from);
    lemma_marked_word(new_nick);
    law_status_words();
    assert(line =~= w0 + " "@ + ("NICK"@ + " "@ + w2));
    lemma_word_then(w0, "NICK"@ + " "@ + w2);
    lemma_word_then("NICK"@, w2);
    law_split_plain(w2, ' ');
    assert(split_on(line, ' ') =~= seq![w0, "NICK"@, w2]);
}

/// Reading a `PRIVMSG` line gives the sender and the whole text: a message
/// to the channel where the target starts with `#`, else a private message.
pub proof fn law_privmsg_read(from: Seq<char>, target: Seq<char>, message: Seq<char>)
    requires
        !from.contains(' '),
        !target.contains(' '),
        target.len() >= 1,
    ensures
        event_of(":"@ + from + " "@ + "PRIVMSG"@ + " "@ + target + " "@ + ":"@ + message) == (if target[0]
            == '#' {
            Some(EventView::ChannelMessage { from, channel: target, message })
        } else {
            Some(EventView::PrivateMessage { from, message })
        }),
{
    let w0 = ":"@ + from;
    let m = ":"@ + message;
    let line = ":"@ + from + " "@ + "PRIVMSG"@ + " "@ + target + " "@ + ":"@ + message;
    lemma_plain_words();
    lemma_marked_word(from);
    law_status_words();
    assert(line =~= w0 + " "@ + ("PRIVMSG"@ + " "@ + (target + " "@ + m)));
    lemma_word_then(w0, "PRIVMSG"@ + " "@ + (target + " "@ + m));
    lemma_word_then("PRIVMSG"@, target + " "@ + m);
    lemma_word_then(target, m);
    let head = seq![w0, "PRIVMSG"@, target];
    assert(split_on(line, ' ') =~= head + split_on(m, ' '));
    lemma_marked_rest(head, message);
}

} // verus!
