//! How the events read from a line lie in it: every field of an event is a
//! word of the line, or the rest of it, in the place the protocol gives it.
use vstd::prelude::*;
use crate::lines::{event_of, rest_of, EventView};
use crate::text::{
    join_with,
    lemma_join_front,
    lemma_split_on_nonempty,
    law_split_join,
    law_split_pieces_lack_sep,
    split_on,
};

verus! {

/// What follows the first `k` words of a line: nothing, or a space and the
/// words from the `k`th on.
pub open spec fn after_words(items: Seq<Seq<char>>, k: int) -> Seq<char> {
    if k < items.len() {
        " "@ + join_with(items.skip(k), " "@)
    } else {
        Seq::empty()
    }
}

/// A line is its first word, then for each further word a space and the word.
proof fn lemma_line_layout(line: Seq<char>)
    ensures
        ({
            let items = split_on(line, ' ');
            &&& items.len() >= 1
            &&& line == items[0] + after_words(items, 1)
            &&& forall|k: int|
                1 <= k < items.len() ==> #[trigger] after_words(items, k) == " "@ + items[k]
                    + after_words(items, k + 1)
            &&& forall|k: int| 0 <= k < items.len() ==> !(#[trigger] items[k]).contains(' ')
            &&& " "@ == seq![' ']
        }),
{
    let items = split_on(line, ' ');
    lemma_split_on_nonempty(line, ' ');
    law_split_join(line, ' ');
    law_split_pieces_lack_sep(line, ' ');
    reveal_strlit(" ");
    assert(" "@ =~= seq![' ']);
    lemma_join_front(items, " "@);
    assert(items.drop_first() =~= items.skip(1));
    if items.len() == 1 {
        assert(items[0] + Seq::<char>::empty() =~= items[0]);
    }
    assert forall|k: int| 1 <= k < items.len() implies #[trigger] after_words(items, k) == " "@
        + items[k] + after_words(items, k + 1) by {
        lemma_join_front(items.skip(k), " "@);
        assert(items.skip(k).drop_first() =~= items.skip(k + 1));
        assert(items.skip(k)[0] == items[k]);
        if k + 1 < items.len() {
            assert(" "@ + (items[k] + (" "@ + join_with(items.skip(k + 1), " "@))) =~= " "@ + items[k]
                + (" "@ + join_with(items.skip(k + 1), " "@)));
        } else {
            assert(" "@ + (items[k] + Seq::<char>::empty()) =~= " "@ + items[k]
                + Seq::<char>::empty());
        }
    }
}

/// The first `k` words of a line with a space between each two.
pub open spec fn leading_words(items: Seq<Seq<char>>, k: nat) -> Seq<char>
    decreases k,
{
    if k <= 1 {
        items[0]
    } else {
        leading_words(items, (k - 1) as nat) + " "@ + items[k - 1]
    }
}

/// A line is its first `k` words, then what follows them.
proof fn lemma_line_prefix(line: Seq<char>, k: nat)
    requires
        1 <= k <= split_on(line, ' ').len(),
    ensures
        line == leading_words(split_on(line, ' '), k) + after_words(split_on(line, ' '), k as int),
    decreases k,
{
    let items = split_on(line, ' ');
    lemma_line_layout(line);
    if k > 1 {
        lemma_line_prefix(line, (k - 1) as nat);
        let p = leading_words(items, (k - 1) as nat);
        assert(after_words(items, k - 1) == " "@ + items[k - 1] + after_words(items, k as int));
        assert(p + (" "@ + items[k - 1] + after_words(items, k as int)) =~= p + " "@ + items[k - 1]
            + after_words(items, k as int));
    }
}

/// A word cut at its first character.
proof fn lemma_cut(w: Seq<char>)
    requires
        w.len() >= 1,
    ensures
        w == seq![w[0]] + w.drop_first(),
        w.contains(' ') || !w.drop_first().contains(' '),
{
    assert(w =~= seq![w[0]] + w.drop_first());
    if w.drop_first().contains(' ') {
        let j = choose|j: int| 0 <= j < w.drop_first().len() && w.drop_first()[j] == ' ';
        assert(w[j + 1] == ' ');
    }
}

/// What may follow the words a field is read from: nothing, or a space and
/// more words.
pub open spec fn is_tail(t: Seq<char>) -> bool {
    t.len() == 0 || t[0] == ' '
}

proof fn lemma_leading_small(items: Seq<Seq<char>>)
    ensures
        leading_words(items, 1) == items[0],
        leading_words(items, 2) == items[0] + " "@ + items[1],
        leading_words(items, 3) == items[0] + " "@ + items[1] + " "@ + items[2],
        leading_words(items, 4) == items[0] + " "@ + items[1] + " "@ + items[2] + " "@ + items[3],
{
    assert(leading_words(items, 1) == items[0]);
    assert(leading_words(items, 2) == items[0] + " "@ + items[1]);
    assert(leading_words(items, 3) == items[0] + " "@ + items[1] + " "@ + items[2]);
}

proof fn lemma_after_is_tail(items: Seq<Seq<char>>, k: int)
    requires
        " "@ == seq![' '],
    ensures
        is_tail(after_words(items, k)),
{
}

/// The text after the first `k` words, once it is known to be non-empty.
proof fn lemma_rest_nonempty(items: Seq<Seq<char>>, k: int)
    requires
        0 <= k <= items.len(),
        rest_of(items, k).len() >= 1,
    ensures
        k < items.len(),
        after_words(items, k) == " "@ + rest_of(items, k),
{
    if k == items.len() {
        assert(items.skip(k) =~= Seq::<Seq<char>>::empty());
    }
}

/// A `NOTICE` line is a marker character and the sender, the word `NOTICE`,
/// the target, and after one more character the text: the line is rebuilt
/// from the event, with single spaces between the words.
#[verifier::rlimit(50)]
#[verifier::spinoff_prover]
pub proof fn law_notice_layout(line: Seq<char>, from: Seq<char>, target: Seq<char>, message: Seq<char>)
    requires
        event_of(line) == Some(EventView::Notice { from, target, message }),
    ensures
        exists|a: char, b: char|
            line == seq![a] + from + " "@ + "NOTICE"@ + " "@ + target + " "@ + seq![b] + message,
        !from.contains(' '),
        !target.contains(' '),
{
    let items = split_on(line, ' ');
    let r = rest_of(items, 3);
    lemma_line_layout(line);
    lemma_rest_nonempty(items, 3);
    lemma_line_prefix(line, 3);
    lemma_leading_small(items);
    lemma_cut(items[0]);
    lemma_cut(r);
    let p = leading_words(items, 3);
    assert(p + (" "@ + (seq![r[0]] + message)) =~= p + " "@ + seq![r[0]] + message);
    assert(line == seq![items[0][0]] + from + " "@ + "NOTICE"@ + " "@ + target + " "@ + seq![r[0]]
        + message);
}

/// A `PART` line is a marker character and the sender, the word `PART`, the
/// channel, and after one more character the parting text.
pub proof fn law_part_layout(line: Seq<char>, from: Seq<char>, channel: Seq<char>, message: Seq<char>)
    requires
        event_of(line) == Some(EventView::Part { from, channel, message }),
    ensures
        exists|a: char, b: char|
            line == seq![a] + from + " "@ + "PART"@ + " "@ + channel + " "@ + seq![b] + message,
        !from.contains(' '),
        !channel.contains(' '),
{
    let items = split_on(line, ' ');
    let r = rest_of(items, 3);
    lemma_line_layout(line);
    lemma_rest_nonempty(items, 3);
    lemma_line_prefix(line, 3);
    lemma_leading_small(items);
    lemma_cut(items[0]);
    lemma_cut(r);
    let p = leading_words(items, 3);
    assert(p + (" "@ + (seq![r[0]] + message)) =~= p + " "@ + seq![r[0]] + message);
    assert(line == seq![items[0][0]] + from + " "@ + "PART"@ + " "@ + channel + " "@ + seq![r[0]]
        + message);
}

/// A `TOPIC` line is a marker character and the sender, the word `TOPIC`,
/// the channel, and after one more character the new topic.
pub proof fn law_topic_layout(line: Seq<char>, from: Seq<char>, channel: Seq<char>, topic: Seq<char>)
    requires
        event_of(line) == Some(EventView::Topic { from, channel, topic }),
    ensures
        exists|a: char, b: char|
            line == seq![a] + from + " "@ + "TOPIC"@ + " "@ + channel + " "@ + seq![b] + topic,
        !from.contains(' '),
        !channel.contains(' '),
{
    let items = split_on(line, ' ');
    let r = rest_of(items, 3);
    lemma_line_layout(line);
    lemma_rest_nonempty(items, 3);
    lemma_line_prefix(line, 3);
    lemma_leading_small(items);
    lemma_cut(items[0]);
    lemma_cut(r);
    let p = leading_words(items, 3);
    assert(p + (" "@ + (seq![r[0]] + topic)) =~= p + " "@ + seq![r[0]] + topic);
    assert(line == seq![items[0][0]] + from + " "@ + "TOPIC"@ + " "@ + channel + " "@ + seq![r[0]]
        + topic);
}

/// A message to a channel is a marker character and the sender, the word
/// `PRIVMSG`, the channel (which starts with `#`), and after one more
/// character the text.
pub proof fn law_channel_message_layout(
    line: Seq<char>,
    from: Seq<char>,
    channel: Seq<char>,
    message: Seq<char>,
)
    requires
        event_of(line) == Some(EventView::ChannelMessage { from, channel, message }),
    ensures
        exists|a: char, b: char|
            line == seq![a] + from + " "@ + "PRIVMSG"@ + " "@ + channel + " "@ + seq![b] + message,
        channel.len() >= 1 && channel[0] == '#',
        !from.contains(' '),
        !channel.contains(' '),
{
    let items = split_on(line, ' ');
    let r = rest_of(items, 3);
    lemma_line_layout(line);
    lemma_rest_nonempty(items, 3);
    lemma_line_prefix(line, 3);
    lemma_leading_small(items);
    lemma_cut(items[0]);
    lemma_cut(r);
    let p = leading_words(items, 3);
    assert(p + (" "@ + (seq![r[0]] + message)) =~= p + " "@ + seq![r[0]] + message);
    assert(line == seq![items[0][0]] + from + " "@ + "PRIVMSG"@ + " "@ + channel + " "@ + seq![
        r[0],
    ] + message);
}

/// A private message is a marker character and the sender, the word
/// `PRIVMSG`, a target that does not start with `#`, and after one more
/// character the text.
pub proof fn law_private_message_layout(line: Seq<char>, from: Seq<char>, message: Seq<char>)
    requires
        event_of(line) == Some(EventView::PrivateMessage { from, message }),
    ensures
        exists|a: char, target: Seq<char>, b: char|
            target.len() >= 1 && target[0] != '#' && !target.contains(' ') && line == seq![a] + from
                + " "@ + "PRIVMSG"@ + " "@ + target + " "@ + seq![b] + message,
        !from.contains(' '),
{
    let items = split_on(line, ' ');
    let r = rest_of(items, 3);
    lemma_line_layout(line);
    lemma_rest_nonempty(items, 3);
    lemma_line_prefix(line, 3);
    lemma_leading_small(items);
    lemma_cut(items[0]);
    lemma_cut(r);
    let p = leading_words(items, 3);
    assert(p + (" "@ + (seq![r[0]] + message)) =~= p + " "@ + seq![r[0]] + message);
    assert(line == seq![items[0][0]] + from + " "@ + "PRIVMSG"@ + " "@ + items[2] + " "@ + seq![
        r[0],
    ] + message);
}

/// A `PRIVMSG` whose target is empty: two spaces after the word.
pub proof fn law_no_target_layout(line: Seq<char>)
    requires
        event_of(line) == Some(EventView::NoTarget),
    ensures
        exists|a: char, from: Seq<char>, b: char, message: Seq<char>|
            line == seq![a] + from + " "@ + "PRIVMSG"@ + " "@ + " "@ + seq![b] + message,
{
    let items = split_on(line, ' ');
    let r = rest_of(items, 3);
    lemma_line_layout(line);
    lemma_rest_nonempty(items, 3);
    lemma_line_prefix(line, 3);
    lemma_leading_small(items);
    lemma_cut(items[0]);
    lemma_cut(r);
    assert(items[2] =~= Seq::<char>::empty());
    let p = leading_words(items, 3);
    assert(p + (" "@ + (seq![r[0]] + r.drop_first())) =~= p + " "@ + seq![r[0]] + r.drop_first());
    assert(p =~= seq![items[0][0]] + items[0].drop_first() + " "@ + "PRIVMSG"@ + " "@);
    assert(line == seq![items[0][0]] + items[0].drop_first() + " "@ + "PRIVMSG"@ + " "@ + " "@
        + seq![r[0]] + r.drop_first());
}

/// A `KICK` line is a marker character and the sender, the word `KICK`, the
/// channel, the one kicked, and after one more character the reason.
pub proof fn law_kick_layout(
    line: Seq<char>,
    from: Seq<char>,
    channel: Seq<char>,
    who: Seq<char>,
    reason: Seq<char>,
)
    requires
        event_of(line) == Some(EventView::Kick { from, channel, who, reason }),
    ensures
        exists|a: char, b: char|
            line == seq![a] + from + " "@ + "KICK"@ + " "@ + channel + " "@ + who + " "@ + seq![b]
                + reason,
        !from.contains(' '),
        !channel.contains(' '),
        !who.contains(' '),
{
    let items = split_on(line, ' ');
    let r = rest_of(items, 4);
    lemma_line_layout(line);
    lemma_rest_nonempty(items, 4);
    lemma_line_prefix(line, 4);
    lemma_leading_small(items);
    lemma_cut(items[0]);
    lemma_cut(r);
    let p = leading_words(items, 4);
    assert(p + (" "@ + (seq![r[0]] + reason)) =~= p + " "@ + seq![r[0]] + reason);
    assert(line == seq![items[0][0]] + from + " "@ + "KICK"@ + " "@ + channel + " "@ + who + " "@
        + seq![r[0]] + reason);
}

/// A `JOIN` line is a marker character and the sender, the word `JOIN`, and
/// after one more character the channel; any further words follow.
pub proof fn law_join_layout(line: Seq<char>, from: Seq<char>, channel: Seq<char>)
    requires
        event_of(line) == Some(EventView::Join { from, channel }),
    ensures
        exists|a: char, b: char, t: Seq<char>|
            is_tail(t) && line == seq![a] + from + " "@ + "JOIN"@ + " "@ + seq![b] + channel + t,
        !from.contains(' '),
        !channel.contains(' '),
{
    let items = split_on(line, ' ');
    lemma_line_layout(line);
    lemma_line_prefix(line, 3);
    lemma_leading_small(items);
    lemma_cut(items[0]);
    lemma_cut(items[2]);
    lemma_after_is_tail(items, 3);
    assert(line == seq![items[0][0]] + from + " "@ + "JOIN"@ + " "@ + seq![items[2][0]] + channel
        + after_words(items, 3));
}

/// A `NICK` line is a marker character and the sender, the word `NICK`, and
/// after one more character the new nick; any further words follow.
pub proof fn law_nick_layout(line: Seq<char>, from: Seq<char>, new_nick: Seq<char>)
    requires
        event_of(line) == Some(EventView::Nick { from, new_nick }),
    ensures
        exists|a: char, b: char, t: Seq<char>|
            is_tail(t) && line == seq![a] + from + " "@ + "NICK"@ + " "@ + seq![b] + new_nick + t,
        !from.contains(' '),
        !new_nick.contains(' '),
{
    let items = split_on(line, ' ');
    lemma_line_layout(line);
    lemma_line_prefix(line, 3);
    lemma_leading_small(items);
    lemma_cut(items[0]);
    lemma_cut(items[2]);
    lemma_after_is_tail(items, 3);
    assert(line == seq![items[0][0]] + from + " "@ + "NICK"@ + " "@ + seq![items[2][0]] + new_nick
        + after_words(items, 3));
}

/// An `INVITE` line is a marker character and the sender, the word
/// `INVITE`, the one invited, and after one more character the channel; any
/// further words follow.
#[verifier::rlimit(50)]
#[verifier::spinoff_prover]
pub proof fn law_invite_layout(line: Seq<char>, from: Seq<char>, who: Seq<char>, channel: Seq<char>)
    requires
        event_of(line) == Some(EventView::Invite { from, who, channel }),
    ensures
        exists|a: char, b: char, t: Seq<char>|
            is_tail(t) && line == seq![a] + from + " "@ + "INVITE"@ + " "@ + who + " "@ + seq![b]
                + channel + t,
        !from.contains(' '),
        !who.contains(' '),
        !channel.contains(' '),
{
    let items = split_on(line, ' ');
    lemma_line_layout(line);
    lemma_line_prefix(line, 4);
    lemma_leading_small(items);
    lemma_cut(items[0]);
    lemma_cut(items[3]);
    lemma_after_is_tail(items, 4);
    assert(line == seq![items[0][0]] + from + " "@ + "INVITE"@ + " "@ + who + " "@ + seq![items[3][0]]
        + channel + after_words(items, 4));
}

/// A `MODE` line is a marker character and the sender, the word `MODE`, the
/// channel, the mode, then the targets, each after a space.
pub proof fn law_mode_layout(
    line: Seq<char>,
    from: Seq<char>,
    channel: Seq<char>,
    mode: Seq<char>,
    targets: Seq<Seq<char>>,
)
    requires
        event_of(line) == Some(EventView::Mode { from, channel, mode, targets }),
    ensures
        exists|a: char|
            line == seq![a] + from + " "@ + "MODE"@ + " "@ + channel + " "@ + mode + (if targets.len()
                == 0 {
                Seq::<char>::empty()
            } else {
                " "@ + join_with(targets, " "@)
            }),
        !from.contains(' '),
        !channel.contains(' '),
        !mode.contains(' '),
        forall|i: int| 0 <= i < targets.len() ==> !(#[trigger] targets[i]).contains(' '),
{
    let items = split_on(line, ' ');
    lemma_line_layout(line);
    lemma_line_prefix(line, 4);
    lemma_leading_small(items);
    lemma_cut(items[0]);
    assert forall|i: int| 0 <= i < targets.len() implies !(#[trigger] targets[i]).contains(' ') by {
        assert(targets[i] == items[i + 4]);
    }
    assert(line == seq![items[0][0]] + from + " "@ + "MODE"@ + " "@ + channel + " "@ + mode
        + after_words(items, 4));
}

/// A `PING` line is the word `PING` and, after one more character, the token
/// to answer; any further words follow.
pub proof fn law_ping_layout(line: Seq<char>, token: Seq<char>)
    requires
        event_of(line) == Some(EventView::Ping(token)),
    ensures
        exists|b: char, t: Seq<char>| is_tail(t) && line == "PING"@ + " "@ + seq![b] + token + t,
        !token.contains(' '),
{
    let items = split_on(line, ' ');
    lemma_line_layout(line);
    lemma_line_prefix(line, 2);
    lemma_leading_small(items);
    lemma_cut(items[1]);
    lemma_after_is_tail(items, 2);
    assert(line == "PING"@ + " "@ + seq![items[1][0]] + token + after_words(items, 2));
}

/// A line whose status word is `433` says the nick is in use.
pub proof fn law_nick_in_use_layout(line: Seq<char>)
    requires
        event_of(line) == Some(EventView::NickInUse),
    ensures
        exists|a: char, from: Seq<char>, t: Seq<char>|
            is_tail(t) && !from.contains(' ') && line == seq![a] + from + " "@ + "433"@ + t,
{
    let items = split_on(line, ' ');
    lemma_line_layout(line);
    lemma_line_prefix(line, 2);
    lemma_leading_small(items);
    lemma_cut(items[0]);
    lemma_after_is_tail(items, 2);
    assert(line == seq![items[0][0]] + items[0].drop_first() + " "@ + "433"@ + after_words(items, 2));
}

/// A line whose status word is `001` is the welcome.
pub proof fn law_welcome_layout(line: Seq<char>)
    requires
        event_of(line) == Some(EventView::Welcome),
    ensures
        exists|a: char, from: Seq<char>, t: Seq<char>|
            is_tail(t) && !from.contains(' ') && line == seq![a] + from + " "@ + "001"@ + t,
{
    let items = split_on(line, ' ');
    lemma_line_layout(line);
    lemma_line_prefix(line, 2);
    lemma_leading_small(items);
    lemma_cut(items[0]);
    lemma_after_is_tail(items, 2);
    assert(line == seq![items[0][0]] + items[0].drop_first() + " "@ + "001"@ + after_words(items, 2));
}

/// No line is read as a quit: its first word would have to hold spaces.
pub proof fn law_no_quit(line: Seq<char>)
    ensures
        !(event_of(line) matches Some(EventView::Quit(_))),
{
    let items = split_on(line, ' ');
    lemma_line_layout(line);
    reveal_strlit(":Closing Link:");
    if items[0] == ":Closing Link:"@ {
        assert(items[0][8] == ' ');
    }
}

} // verus!
