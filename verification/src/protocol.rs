//! The IRC wire format: framing of outgoing messages, splitting of the
//! incoming stream into lines, status codes, host masks and decimal numbers.
use vstd::prelude::*;
use vstd::utf8::*;
use crate::enums::StatusCode;
use crate::text::{join_with, lemma_join_extend_last, str_eq, views};

verus! {

broadcast use vstd::utf8::encode_utf8_decode_utf8;

/// Longest body of a message, in bytes: 512 less the closing CR LF.
pub const MAX_LEN: usize = 510;

pub open spec fn crlf() -> Seq<char> {
    seq!['\r', '\n']
}

/// `s` with every carriage return and line feed removed.
pub open spec fn strip_line_breaks(s: Seq<char>) -> Seq<char>
    decreases s.len(),
{
    if s.len() == 0 {
        s
    } else {
        let r = strip_line_breaks(s.drop_last());
        if s.last() == '\r' || s.last() == '\n' {
            r
        } else {
            r.push(s.last())
        }
    }
}

/// The UTF-8 bytes of the body of a message.
pub open spec fn body_bytes(msg: Seq<char>) -> Seq<u8> {
    encode_utf8(strip_line_breaks(msg))
}

/// A message can be framed unless its body is longer than 510 bytes and the
/// 510th byte falls inside a character (cutting there panics).
pub open spec fn can_frame(msg: Seq<char>) -> bool {
    body_bytes(msg).len() > MAX_LEN ==> is_char_boundary(body_bytes(msg), MAX_LEN as int)
}

/// The line written to the server for a message: line breaks removed, the
/// body cut to its first 510 bytes, then CR LF.
pub open spec fn framed(msg: Seq<char>) -> Seq<char> {
    let t = strip_line_breaks(msg);
    let b = encode_utf8(t);
    (if b.len() > MAX_LEN {
        decode_utf8(b.take(MAX_LEN as int))
    } else {
        t
    }) + crlf()
}

/// The stream split at each CR LF, as `str::split("\r\n")` does.
pub open spec fn split_lines(s: Seq<char>) -> Seq<Seq<char>>
    decreases s.len(),
{
    if s.len() == 0 {
        seq![Seq::<char>::empty()]
    } else if s.len() >= 2 && s[s.len() - 2] == '\r' && s.last() == '\n' {
        split_lines(s.take(s.len() - 2)).push(Seq::<char>::empty())
    } else {
        let p = split_lines(s.drop_last());
        p.update(p.len() - 1, p.last().push(s.last()))
    }
}

/// The regular expression for a host mask: `.` escaped, `*` for any text.
pub open spec fn mask_to_pattern(m: Seq<char>) -> Seq<char>
    decreases m.len(),
{
    if m.len() == 0 {
        m
    } else {
        mask_to_pattern(m.drop_last()) + (if m.last() == '.' {
            seq!['\\', '.']
        } else if m.last() == '*' {
            seq!['.', '*']
        } else {
            seq![m.last()]
        })
    }
}

pub open spec fn digit_char(d: int) -> char {
    seq!['0', '1', '2', '3', '4', '5', '6', '7', '8', '9'][d]
}

/// The decimal digits of `n`.
pub open spec fn decimal(n: nat) -> Seq<char>
    decreases n,
{
    if n < 10 {
        seq![digit_char(n as int)]
    } else {
        decimal(n / 10).push(digit_char((n % 10) as int))
    }
}

/// The text of a boolean as Rust prints it.
pub open spec fn bool_text(b: bool) -> Seq<char> {
    if b {
        "true"@
    } else {
        "false"@
    }
}

/// The status code a server line's second word names.
pub open spec fn status_of(s: Seq<char>) -> StatusCode {
    if s == "001"@ {
        StatusCode::RPL_WELCOME
    } else if s == "002"@ {
        StatusCode::RPL_YOURHOST
    } else if s == "003"@ {
        StatusCode::RPL_CREATED
    } else if s == "004"@ {
        StatusCode::RPL_MYINFO
    } else if s == "005"@ {
        StatusCode::RPL_ISUPPORT
    } else if s == "372"@ {
        StatusCode::RPL_MOTD
    } else if s == "375"@ {
        StatusCode::RPL_MOTDSTART
    } else if s == "376"@ {
        StatusCode::RPL_ENDOFMOTD
    } else if s == "433"@ {
        StatusCode::ERR_NICKNAMEINUSE
    } else if s == "JOIN"@ {
        StatusCode::JOIN
    } else if s == "PART"@ {
        StatusCode::PART
    } else if s == "MODE"@ {
        StatusCode::MODE
    } else if s == "NICK"@ {
        StatusCode::NICK
    } else if s == "NOTICE"@ {
        StatusCode::NOTICE
    } else if s == "KICK"@ {
        StatusCode::KICK
    } else if s == "INVITE"@ {
        StatusCode::INVITE
    } else if s == "TOPIC"@ {
        StatusCode::TOPIC
    } else if s == "PRIVMSG"@ {
        StatusCode::PRIVMSG
    } else if s == "QUIT"@ {
        StatusCode::QUIT
    } else {
        StatusCode::UNKNOWN
    }
}

/// Each command word names its own status.
pub proof fn law_status_words()
    ensures
        status_of("JOIN"@) == StatusCode::JOIN,
        status_of("PART"@) == StatusCode::PART,
        status_of("MODE"@) == StatusCode::MODE,
        status_of("NICK"@) == StatusCode::NICK,
        status_of("NOTICE"@) == StatusCode::NOTICE,
        status_of("KICK"@) == StatusCode::KICK,
        status_of("INVITE"@) == StatusCode::INVITE,
        status_of("TOPIC"@) == StatusCode::TOPIC,
        status_of("PRIVMSG"@) == StatusCode::PRIVMSG,
{
    reveal_strlit("001");
    reveal_strlit("002");
    reveal_strlit("003");
    reveal_strlit("004");
    reveal_strlit("005");
    reveal_strlit("372");
    reveal_strlit("375");
    reveal_strlit("376");
    reveal_strlit("433");
    reveal_strlit("JOIN");
    reveal_strlit("PART");
    reveal_strlit("MODE");
    reveal_strlit("NICK");
    reveal_strlit("NOTICE");
    reveal_strlit("KICK");
    reveal_strlit("INVITE");
    reveal_strlit("TOPIC");
    reveal_strlit("PRIVMSG");
    assert("JOIN"@.len() == 4 && "JOIN"@[0] == 'J');
    assert("PART"@.len() == 4 && "PART"@[0] == 'P');
    assert("MODE"@.len() == 4 && "MODE"@[0] == 'M');
    assert("NICK"@.len() == 4 && "NICK"@[0] == 'N');
    assert("KICK"@.len() == 4 && "KICK"@[0] == 'K');
    assert("NOTICE"@.len() == 6);
    assert("INVITE"@.len() == 6 && "INVITE"@[0] == 'I');
    assert("TOPIC"@.len() == 5);
    assert("PRIVMSG"@.len() == 7);
    assert("001"@.len() == 3);
}

pub proof fn lemma_split_lines_nonempty(s: Seq<char>)
    ensures
        split_lines(s).len() >= 1,
    decreases s.len(),
{
    if s.len() >= 2 && s[s.len() - 2] == '\r' && s.last() == '\n' {
        lemma_split_lines_nonempty(s.take(s.len() - 2));
    } else if s.len() > 0 {
        lemma_split_lines_nonempty(s.drop_last());
    }
}

/// Joining the lines of a stream with CR LF gives back the stream: splitting
/// at CR LF loses nothing.
pub proof fn law_split_lines_join(s: Seq<char>)
    ensures
        join_with(split_lines(s), crlf()) == s,
    decreases s.len(),
{
    if s.len() == 0 {
        assert(join_with(split_lines(s), crlf()) =~= s);
    } else if s.len() >= 2 && s[s.len() - 2] == '\r' && s.last() == '\n' {
        let t = s.take(s.len() - 2);
        let p = split_lines(t);
        law_split_lines_join(t);
        lemma_split_lines_nonempty(t);
        assert(p.push(Seq::<char>::empty()).drop_last() =~= p);
        assert(join_with(p, crlf()) + crlf() + Seq::<char>::empty() =~= s);
    } else {
        let p = split_lines(s.drop_last());
        law_split_lines_join(s.drop_last());
        lemma_split_lines_nonempty(s.drop_last());
        lemma_join_extend_last(p, crlf(), s.last());
        assert(s.drop_last().push(s.last()) =~= s);
    }
}

/// `p` holds a CR LF.
pub open spec fn has_crlf(p: Seq<char>) -> bool {
    exists|k: int| 0 <= k < p.len() - 1 && p[k] == '\r' && #[trigger] p[k + 1] == '\n'
}

/// No line of a split holds a CR LF, and the last line is the end of the
/// stream.
pub proof fn law_split_lines_shape(s: Seq<char>)
    ensures
        forall|i: int|
            0 <= i < split_lines(s).len() ==> !has_crlf(#[trigger] split_lines(s)[i]),
        split_lines(s).len() >= 1,
        split_lines(s).last().len() <= s.len(),
        split_lines(s).last() == s.subrange(s.len() - split_lines(s).last().len(), s.len() as int),
    decreases s.len(),
{
    let p = split_lines(s);
    if s.len() == 0 {
        assert(!has_crlf(p[0]));
    } else if s.len() >= 2 && s[s.len() - 2] == '\r' && s.last() == '\n' {
        let t = s.take(s.len() - 2);
        law_split_lines_shape(t);
        let q = split_lines(t);
        assert forall|i: int| 0 <= i < p.len() implies !has_crlf(#[trigger] p[i]) by {
            if i < q.len() {
                assert(p[i] == q[i]);
            } else {
                assert(p[i] =~= Seq::<char>::empty());
            }
        }
        assert(p.last() =~= s.subrange(s.len() as int, s.len() as int));
    } else {
        let t = s.drop_last();
        law_split_lines_shape(t);
        let q = split_lines(t);
        let c = s.last();
        let l = q.last().push(c);
        assert(p.last() == l);
        assert(l =~= s.subrange(s.len() - l.len(), s.len() as int));
        assert forall|i: int| 0 <= i < p.len() implies !has_crlf(#[trigger] p[i]) by {
            if i < q.len() - 1 {
                assert(p[i] == q[i]);
            } else {
                assert(p[i] == l);
                if has_crlf(l) {
                    let k = choose|k: int| 0 <= k < l.len() - 1 && l[k] == '\r' && #[trigger] l[k + 1] == '\n';
                    if k + 1 < l.len() - 1 {
                        assert(q.last()[k] == '\r' && q.last()[k + 1] == '\n');
                        assert(has_crlf(q[q.len() - 1]));
                    } else {
                        assert(s[s.len() - 2] == q.last()[q.last().len() - 1]);
                    }
                }
            }
        }
    }
}

/// Splitting a stream that holds a CR LF right after `t`: the lines of `t`,
/// then those of the rest.
proof fn lemma_split_lines_after_crlf(t: Seq<char>, y: Seq<char>)
    ensures
        split_lines(t + crlf() + y) == split_lines(t) + split_lines(y),
    decreases y.len(),
{
    let u = t + crlf() + y;
    if y.len() == 0 {
        assert(u =~= t + crlf());
        assert(u.take(u.len() - 2) =~= t);
        assert(split_lines(y) =~= seq![Seq::<char>::empty()]);
        assert(split_lines(u) =~= split_lines(t) + split_lines(y));
    } else if y.len() >= 2 && y[y.len() - 2] == '\r' && y.last() == '\n' {
        let y2 = y.take(y.len() - 2);
        lemma_split_lines_after_crlf(t, y2);
        assert(u[u.len() - 2] == '\r' && u.last() == '\n');
        assert(u.take(u.len() - 2) =~= t + crlf() + y2);
        assert(split_lines(u) =~= split_lines(t) + split_lines(y));
    } else {
        let y1 = y.drop_last();
        let c = y.last();
        lemma_split_lines_after_crlf(t, y1);
        assert(u.drop_last() =~= t + crlf() + y1);
        if y.len() == 1 {
            assert(u[u.len() - 2] == '\n');
            assert(y1 =~= Seq::<char>::empty());
        } else {
            assert(u[u.len() - 2] == y[y.len() - 2]);
        }
        assert(u.last() == c);
        let a = split_lines(t);
        let b = split_lines(y1);
        lemma_split_lines_nonempty(y1);
        assert((a + b).update((a + b).len() - 1, (a + b).last().push(c)) =~= a + b.update(
            b.len() - 1,
            b.last().push(c),
        ));
        assert(split_lines(u) =~= split_lines(t) + split_lines(y));
    }
}

/// Splitting `x + y`: the complete lines of `x`, then the lines of the
/// unfinished tail of `x` followed by `y`.
pub proof fn lemma_split_lines_append(x: Seq<char>, y: Seq<char>)
    ensures
        split_lines(x + y) == split_lines(x).drop_last() + split_lines(split_lines(x).last() + y),
    decreases x.len(),
{
    let p = split_lines(x);
    if x.len() == 0 {
        assert(x + y =~= y);
        assert(p.drop_last() =~= Seq::<Seq<char>>::empty());
        assert(p.last() + y =~= y);
        assert(split_lines(x + y) =~= p.drop_last() + split_lines(p.last() + y));
    } else if x.len() >= 2 && x[x.len() - 2] == '\r' && x.last() == '\n' {
        let t = x.take(x.len() - 2);
        assert(x =~= t + crlf());
        assert(x + y =~= t + crlf() + y);
        lemma_split_lines_after_crlf(t, y);
        assert(p.drop_last() =~= split_lines(t));
        assert(p.last() + y =~= y);
    } else {
        let x1 = x.drop_last();
        let c = x.last();
        let q = split_lines(x1);
        lemma_split_lines_nonempty(x1);
        lemma_split_lines_append(x1, seq![c] + y);
        assert(x1 + (seq![c] + y) =~= x + y);
        assert(p.drop_last() =~= q.drop_last());
        assert(q.last() + (seq![c] + y) =~= p.last() + y);
    }
}

/// Receiving a stream in two parts gives the lines, and leaves the tail, that
/// receiving it at once does.
pub proof fn law_receive_in_parts(carry: Seq<char>, a: Seq<char>, b: Seq<char>)
    ensures
        ({
            let first = split_lines(carry + a);
            let second = split_lines(first.last() + b);
            let whole = split_lines(carry + a + b);
            &&& first.drop_last() + second.drop_last() == whole.drop_last()
            &&& second.last() == whole.last()
        }),
{
    let first = split_lines(carry + a);
    let second = split_lines(first.last() + b);
    lemma_split_lines_append(carry + a, b);
    lemma_split_lines_nonempty(first.last() + b);
    assert((first.drop_last() + second).drop_last() =~= first.drop_last() + second.drop_last());
}

proof fn lemma_strip_clean(s: Seq<char>)
    ensures
        forall|k: int|
            0 <= k < strip_line_breaks(s).len() ==> #[trigger] strip_line_breaks(s)[k] != '\r'
                && strip_line_breaks(s)[k] != '\n',
    decreases s.len(),
{
    if s.len() > 0 {
        lemma_strip_clean(s.drop_last());
        let r = strip_line_breaks(s.drop_last());
        assert forall|k: int| 0 <= k < strip_line_breaks(s).len() implies #[trigger] strip_line_breaks(
            s,
        )[k] != '\r' && strip_line_breaks(s)[k] != '\n' by {
            if k < r.len() {
                assert(strip_line_breaks(s)[k] == r[k]);
            }
        }
    }
}

/// The line written for a message ends with CR LF; before it stands a prefix
/// of the message with its line breaks removed, at most 510 bytes long, and
/// holding no line break.
pub proof fn law_framed_line(msg: Seq<char>)
    requires
        can_frame(msg),
    ensures
        ({
            let f = framed(msg);
            let body = f.take(f.len() - 2);
            &&& f.len() >= 2
            &&& f.subrange(f.len() - 2, f.len() as int) == crlf()
            &&& body == strip_line_breaks(msg).take(body.len() as int)
            &&& forall|k: int| 0 <= k < body.len() ==> body[k] != '\r' && body[k] != '\n'
            &&& encode_utf8(body).len() <= MAX_LEN
            &&& body_bytes(msg).len() <= MAX_LEN ==> body == strip_line_breaks(msg)
            &&& body_bytes(msg).len() > MAX_LEN ==> encode_utf8(body).len() == MAX_LEN
        }),
{
    let t = strip_line_breaks(msg);
    let b = encode_utf8(t);
    let f = framed(msg);
    lemma_strip_clean(msg);
    if b.len() > MAX_LEN {
        let h = b.subrange(0, MAX_LEN as int);
        encode_utf8_valid_utf8(t);
        valid_utf8_split(b, MAX_LEN as int);
        decode_utf8_split(b, MAX_LEN as int);
        decode_utf8_encode_utf8(h);
        encode_utf8_decode_utf8(t);
        let body = decode_utf8(h);
        let rest = decode_utf8(b.subrange(MAX_LEN as int, b.len() as int));
        assert(t == body + rest);
        assert(f =~= body + crlf());
        assert(f.take(f.len() - 2) =~= body);
        assert(body =~= t.take(body.len() as int));
        assert forall|k: int| 0 <= k < body.len() implies body[k] != '\r' && body[k] != '\n' by {
            assert(body[k] == t[k]);
        }
    } else {
        assert(f =~= t + crlf());
        assert(f.take(f.len() - 2) =~= t);
        assert(t.take(t.len() as int) =~= t);
    }
}

/// The pattern of a mask is the patterns of its parts, one after the other.
pub proof fn law_mask_pattern_concat(a: Seq<char>, b: Seq<char>)
    ensures
        mask_to_pattern(a + b) == mask_to_pattern(a) + mask_to_pattern(b),
    decreases b.len(),
{
    if b.len() == 0 {
        assert(a + b =~= a);
        assert(mask_to_pattern(a) + mask_to_pattern(b) =~= mask_to_pattern(a));
    } else {
        law_mask_pattern_concat(a, b.drop_last());
        assert((a + b).drop_last() =~= a + b.drop_last());
        assert((a + b).last() == b.last());
        let x = if b.last() == '.' {
            seq!['\\', '.']
        } else if b.last() == '*' {
            seq!['.', '*']
        } else {
            seq![b.last()]
        };
        assert(mask_to_pattern(a) + mask_to_pattern(b.drop_last()) + x =~= mask_to_pattern(a) + (
        mask_to_pattern(b.drop_last()) + x));
    }
}

/// In a pattern a `.` of the mask becomes a literal dot, a `*` any text, and
/// every other character stands for itself; a mask with neither is its own
/// pattern.
pub proof fn law_mask_pattern_chars(c: char, m: Seq<char>)
    ensures
        mask_to_pattern(seq!['.']) == seq!['\\', '.'],
        mask_to_pattern(seq!['*']) == seq!['.', '*'],
        c != '.' && c != '*' ==> mask_to_pattern(seq![c]) == seq![c],
        !m.contains('.') && !m.contains('*') ==> mask_to_pattern(m) == m,
    decreases m.len(),
{
    assert(mask_to_pattern(Seq::<char>::empty()) == Seq::<char>::empty());
    assert(seq!['.'].last() == '.');
    assert(seq!['*'].last() == '*');
    assert(seq![c].last() == c);
    assert(seq!['.'].drop_last() =~= Seq::<char>::empty());
    assert(seq!['*'].drop_last() =~= Seq::<char>::empty());
    assert(seq![c].drop_last() =~= Seq::<char>::empty());
    assert(Seq::<char>::empty() + seq!['\\', '.'] =~= seq!['\\', '.']);
    assert(Seq::<char>::empty() + seq!['.', '*'] =~= seq!['.', '*']);
    assert(Seq::<char>::empty() + seq![c] =~= seq![c]);
    if m.len() > 0 && !m.contains('.') && !m.contains('*') {
        let d = m.drop_last();
        assert(!d.contains('.') && !d.contains('*')) by {
            if d.contains('.') || d.contains('*') {
                let j = choose|j: int| 0 <= j < d.len() && (d[j] == '.' || d[j] == '*');
                assert(m[j] == d[j]);
            }
        }
        law_mask_pattern_chars(c, d);
        assert(m.last() == m[m.len() - 1]);
        assert(d.push(m.last()) =~= m);
        assert(d + seq![m.last()] =~= m);
    }
}

/// Removing line breaks works character by character: a part of the
/// message keeps what it keeps on its own, and a single character is dropped
/// exactly when it is a carriage return or a line feed.
pub proof fn law_strip_line_breaks(a: Seq<char>, b: Seq<char>, c: char)
    ensures
        strip_line_breaks(a + b) == strip_line_breaks(a) + strip_line_breaks(b),
        strip_line_breaks(seq![c]) == (if c == '\r' || c == '\n' {
            Seq::<char>::empty()
        } else {
            seq![c]
        }),
    decreases b.len(),
{
    assert(seq![c].drop_last() =~= Seq::<char>::empty());
    assert(seq![c].last() == c);
    assert(strip_line_breaks(Seq::<char>::empty()) == Seq::<char>::empty());
    assert(Seq::<char>::empty().push(c) =~= seq![c]);
    if b.len() == 0 {
        assert(a + b =~= a);
        assert(strip_line_breaks(a) + strip_line_breaks(b) =~= strip_line_breaks(a));
    } else {
        law_strip_line_breaks(a, b.drop_last(), c);
        assert((a + b).drop_last() =~= a + b.drop_last());
        assert((a + b).last() == b.last());
        if !(b.last() == '\r' || b.last() == '\n') {
            assert((strip_line_breaks(a) + strip_line_breaks(b.drop_last())).push(b.last())
                =~= strip_line_breaks(a) + strip_line_breaks(b.drop_last()).push(b.last()));
        }
    }
}

/// The numeric value of a string of decimal digits.
pub open spec fn digits_value(s: Seq<char>) -> int
    decreases s.len(),
{
    if s.len() == 0 {
        0
    } else {
        digits_value(s.drop_last()) * 10 + ((s.last() as u32) - ('0' as u32))
    }
}

proof fn lemma_digit_char(d: int)
    requires
        0 <= d < 10,
    ensures
        (digit_char(d) as u32) - ('0' as u32) == d,
        '0' <= digit_char(d) <= '9',
        d > 0 ==> digit_char(d) != '0',
{
    let ds = seq!['0', '1', '2', '3', '4', '5', '6', '7', '8', '9'];
    assert(digit_char(d) == ds[d]);
    assert(('0' as u32) == 48);
    if d == 0 {
        assert(ds[0] == '0');
    } else if d == 1 {
        assert(ds[1] == '1' && ('1' as u32) == 49);
    } else if d == 2 {
        assert(ds[2] == '2' && ('2' as u32) == 50);
    } else if d == 3 {
        assert(ds[3] == '3' && ('3' as u32) == 51);
    } else if d == 4 {
        assert(ds[4] == '4' && ('4' as u32) == 52);
    } else if d == 5 {
        assert(ds[5] == '5' && ('5' as u32) == 53);
    } else if d == 6 {
        assert(ds[6] == '6' && ('6' as u32) == 54);
    } else if d == 7 {
        assert(ds[7] == '7' && ('7' as u32) == 55);
    } else if d == 8 {
        assert(ds[8] == '8' && ('8' as u32) == 56);
    } else {
        assert(ds[9] == '9' && ('9' as u32) == 57);
    }
}

/// The decimal digits of a number are digits, read back as the number, with
/// no leading zero.
pub proof fn law_decimal(n: nat)
    ensures
        digits_value(decimal(n)) == n,
        decimal(n).len() >= 1,
        forall|i: int| 0 <= i < decimal(n).len() ==> '0' <= #[trigger] decimal(n)[i] <= '9',
        decimal(n).len() > 1 ==> decimal(n)[0] != '0',
    decreases n,
{
    if n < 10 {
        let s = decimal(n);
        lemma_digit_char(n as int);
        assert(digits_value(Seq::<char>::empty()) == 0);
        assert(s.drop_last() =~= Seq::<char>::empty());
        assert(s.last() == digit_char(n as int));
    } else {
        let q = (n / 10) as nat;
        let d = (n % 10) as int;
        law_decimal(q);
        lemma_digit_char(d);
        let s = decimal(n);
        assert(s.drop_last() =~= decimal(q));
        assert(s.last() == digit_char(d));
        assert(n == q * 10 + d);
        assert forall|i: int| 0 <= i < s.len() implies '0' <= #[trigger] s[i] <= '9' by {
            if i < s.len() - 1 {
                assert(s[i] == decimal(q)[i]);
            }
        }
        assert(s[0] == decimal(q)[0]);
        assert(q >= 1);
        if q < 10 {
            lemma_digit_char(q as int);
            assert(decimal(q)[0] == digit_char(q as int));
        } else {
            law_decimal((q / 10) as nat);
            assert(decimal(q).len() == decimal((q / 10) as nat).len() + 1);
        }
    }
}

impl StatusCode {
    /// Reads a status code; anything unrecognised is `UNKNOWN`.
    pub fn from_token(s: &str) -> (r: StatusCode)
        ensures
            r == status_of(s@),
    {
        if str_eq(s, "001") {
            StatusCode::RPL_WELCOME
        } else if str_eq(s, "002") {
            StatusCode::RPL_YOURHOST
        } else if str_eq(s, "003") {
            StatusCode::RPL_CREATED
        } else if str_eq(s, "004") {
            StatusCode::RPL_MYINFO
        } else if str_eq(s, "005") {
            StatusCode::RPL_ISUPPORT
        } else if str_eq(s, "372") {
            StatusCode::RPL_MOTD
        } else if str_eq(s, "375") {
            StatusCode::RPL_MOTDSTART
        } else if str_eq(s, "376") {
            StatusCode::RPL_ENDOFMOTD
        } else if str_eq(s, "433") {
            StatusCode::ERR_NICKNAMEINUSE
        } else if str_eq(s, "JOIN") {
            StatusCode::JOIN
        } else if str_eq(s, "PART") {
            StatusCode::PART
        } else if str_eq(s, "MODE") {
            StatusCode::MODE
        } else if str_eq(s, "NICK") {
            StatusCode::NICK
        } else if str_eq(s, "NOTICE") {
            StatusCode::NOTICE
        } else if str_eq(s, "KICK") {
            StatusCode::KICK
        } else if str_eq(s, "INVITE") {
            StatusCode::INVITE
        } else if str_eq(s, "TOPIC") {
            StatusCode::TOPIC
        } else if str_eq(s, "PRIVMSG") {
            StatusCode::PRIVMSG
        } else if str_eq(s, "QUIT") {
            StatusCode::QUIT
        } else {
            StatusCode::UNKNOWN
        }
    }
}

/// One character of `s` as a string of its own.
fn char_at(s: &str, i: usize) -> (r: String)
    requires
        i < s@.len() <= usize::MAX,
    ensures
        r@ == seq![s@[i as int]],
{
    let t = s.substring_char(i, i + 1);
    let r = t.to_owned();
    assert(r@ =~= seq![s@[i as int]]);
    r
}

/// `msg.replace("\r", "").replace("\n", "")`.
pub fn strip_line_breaks_exec(msg: &str) -> (r: String)
    ensures
        r@ == strip_line_breaks(msg@),
{
    let n = msg.unicode_len();
    let mut res = String::new();
    let mut i: usize = 0;
    assert(msg@.take(0) =~= Seq::<char>::empty());
    while i < n
        invariant
            n == msg@.len(),
            i <= n,
            res@ == strip_line_breaks(msg@.take(i as int)),
        decreases n - i,
    {
        let c = msg.get_char(i);
        assert(msg@.take(i + 1).drop_last() =~= msg@.take(i as int));
        if c != '\r' && c != '\n' {
            let one = char_at(msg, i);
            res.append(one.as_str());
        }
        i += 1;
    }
    assert(msg@.take(n as int) =~= msg@);
    res
}

/// Whether [`frame_message`] accepts `msg`.
pub fn can_frame_message(msg: &str) -> (r: bool)
    ensures
        r == can_frame(msg@),
{
    let trimmed = strip_line_breaks_exec(msg);
    let t = trimmed.as_str();
    if t.as_bytes().len() > MAX_LEN {
        t.is_char_boundary(MAX_LEN)
    } else {
        true
    }
}

/// The line sent for `msg`: line breaks dropped, cut to 510 bytes, CR LF added.
pub fn frame_message(msg: &str) -> (r: String)
    requires
        can_frame(msg@),
    ensures
        r@ == framed(msg@),
{
    let trimmed = strip_line_breaks_exec(msg);
    let n = trimmed.as_str().as_bytes().len();
    let ghost b = body_bytes(msg@);
    assert(n == b.len());
    let mut s = if n > MAX_LEN {
        let (head, _tail) = trimmed.as_str().split_at(MAX_LEN);
        proof {
            assert(encode_utf8(head@) =~= b.take(MAX_LEN as int));
            assert(decode_utf8(encode_utf8(head@)) == head@);
        }
        let h = head.to_owned();
        assert(h@ == decode_utf8(b.take(MAX_LEN as int)));
        h
    } else {
        trimmed
    };
    let ghost body = s@;
    assert(body + crlf() == framed(msg@));
    s.append("\r\n");
    proof {
        reveal_strlit("\r\n");
        assert("\r\n"@ =~= crlf());
    }
    assert(s@ == body + crlf());
    s
}

/// `s.split("\r\n")` with each piece owned.
pub fn split_lines_exec(s: &str) -> (r: Vec<String>)
    ensures
        views(r@) == split_lines(s@),
{
    let n = s.unicode_len();
    let mut pieces: Vec<String> = Vec::new();
    let mut start: usize = 0;
    let mut i: usize = 0;
    assert(s@.take(0) =~= Seq::<char>::empty());
    assert(views(pieces@).push(s@.subrange(0, 0)) =~= split_lines(s@.take(0)));
    while i < n
        invariant
            n == s@.len(),
            start <= i <= n,
            i >= 1 ==> !(s@[i - 1] == '\r' && i < n && s@[i as int] == '\n'),
            views(pieces@).push(s@.subrange(start as int, i as int)) == split_lines(
                s@.take(i as int),
            ),
        decreases n - i,
    {
        let c = s.get_char(i);
        let ghost old_pieces = views(pieces@);
        let ghost old_start = start;
        if c == '\r' && i + 1 < n && s.get_char(i + 1) == '\n' {
            let piece = s.substring_char(start, i).to_owned();
            pieces.push(piece);
            start = i + 2;
            proof {
                let t = s@.take(i + 2);
                assert(t.take(t.len() - 2) =~= s@.take(i as int));
                assert(views(pieces@) =~= old_pieces.push(s@.subrange(old_start as int, i as int)));
                assert(s@.subrange(start as int, i + 2) =~= Seq::<char>::empty());
                assert(split_lines(t) == split_lines(s@.take(i as int)).push(Seq::<char>::empty()));
                assert(views(pieces@).push(s@.subrange(start as int, i + 2)) =~= split_lines(t));
            }
            i += 2;
        } else {
            proof {
                let t = s@.take(i + 1);
                assert(t.drop_last() =~= s@.take(i as int));
                assert(t.last() == c);
                let p = old_pieces.push(s@.subrange(start as int, i as int));
                assert(s@.subrange(start as int, i as int).push(c) =~= s@.subrange(
                    start as int,
                    i + 1,
                ));
                assert(p.update(p.len() - 1, p.last().push(c)) =~= old_pieces.push(
                    s@.subrange(start as int, i + 1),
                ));
            }
            i += 1;
        }
    }
    let last = s.substring_char(start, n).to_owned();
    let ghost before = views(pieces@);
    pieces.push(last);
    assert(s@.take(n as int) =~= s@);
    assert(views(pieces@) =~= before.push(s@.subrange(start as int, n as int)));
    pieces
}

/// The regular expression that a host mask stands for.
pub fn mask_to_pattern_exec(mask: &str) -> (r: String)
    ensures
        r@ == mask_to_pattern(mask@),
{
    let n = mask.unicode_len();
    let mut res = String::new();
    let mut i: usize = 0;
    assert(mask@.take(0) =~= Seq::<char>::empty());
    while i < n
        invariant
            n == mask@.len(),
            i <= n,
            res@ == mask_to_pattern(mask@.take(i as int)),
        decreases n - i,
    {
        let c = mask.get_char(i);
        assert(mask@.take(i + 1).drop_last() =~= mask@.take(i as int));
        if c == '.' {
            res.append("\\.");
            proof {
                reveal_strlit("\\.");
            }
        } else if c == '*' {
            res.append(".*");
            proof {
                reveal_strlit(".*");
            }
        } else {
            let one = char_at(mask, i);
            res.append(one.as_str());
        }
        i += 1;
    }
    assert(mask@.take(n as int) =~= mask@);
    res
}

/// The decimal digits of `n`.
pub fn decimal_string(n: u16) -> (r: String)
    ensures
        r@ == decimal(n as nat),
    decreases n,
{
    let digits = "0123456789";
    proof {
        reveal_strlit("0123456789");
    }
    if n < 10 {
        let one = char_at(digits, n as usize);
        one
    } else {
        let mut s = decimal_string(n / 10);
        let one = char_at(digits, (n % 10) as usize);
        s.append(one.as_str());
        s
    }
}

/// `b.to_string()`.
pub fn bool_string(b: bool) -> (r: String)
    ensures
        r@ == bool_text(b),
{
    if b {
        "true".to_owned()
    } else {
        "false".to_owned()
    }
}

} // verus!
