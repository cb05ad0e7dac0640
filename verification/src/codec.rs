//! The JSON wire form of the protocol: an envelope is encoded as
//! `{"type":<variant>,"data":<payload>}`, strings with the usual JSON
//! escapes, absent options as `null`. The decoder accepts insignificant
//! JSON whitespace between any two tokens, but holds the fields to their
//! declaration order (the order every JSON serializer this protocol meets
//! emits); anything else is a decode failure, which the chat actor treats
//! as plain chat text.

use vstd::prelude::*;

use crate::profile::{DiscordUser, SessionView, UserSession, UserView};
use crate::protocol::{ChatMessage, ChatView, MessageView, PresenceEntry, PresenceEntryView,
    WebsocketMessage};

verus! {

// ---------------------------------------------------------------------------
// Spec: encoding
// ---------------------------------------------------------------------------

/// The decimal digit character for `d` (0 to 9).
pub open spec fn digit_char(d: int) -> char {
    if d == 0 { '0' }
    else if d == 1 { '1' }
    else if d == 2 { '2' }
    else if d == 3 { '3' }
    else if d == 4 { '4' }
    else if d == 5 { '5' }
    else if d == 6 { '6' }
    else if d == 7 { '7' }
    else if d == 8 { '8' }
    else { '9' }
}

/// The lowercase hexadecimal digit character for `d` (0 to 15).
pub open spec fn hex_char(d: int) -> char {
    if d < 10 { digit_char(d) }
    else if d == 10 { 'a' }
    else if d == 11 { 'b' }
    else if d == 12 { 'c' }
    else if d == 13 { 'd' }
    else if d == 14 { 'e' }
    else { 'f' }
}

/// How one character appears inside a JSON string: quote and backslash are
/// escaped, the named control characters take their short escapes, any other
/// control character becomes `\u00XX`, everything else stands for itself.
pub open spec fn escape_char(c: char) -> Seq<char> {
    if c == '"' { seq!['\\', '"'] }
    else if c == '\\' { seq!['\\', '\\'] }
    else if c == '\n' { seq!['\\', 'n'] }
    else if c == '\r' { seq!['\\', 'r'] }
    else if c == '\t' { seq!['\\', 't'] }
    else if c == '\u{8}' { seq!['\\', 'b'] }
    else if c == '\u{c}' { seq!['\\', 'f'] }
    else if (c as int) < 32 {
        seq!['\\', 'u', '0', '0', hex_char((c as int) / 16), hex_char((c as int) % 16)]
    } else {
        seq![c]
    }
}

/// A whole character sequence, escaped.
pub open spec fn escape(s: Seq<char>) -> Seq<char>
    decreases s.len(),
{
    if s.len() == 0 {
        Seq::empty()
    } else {
        escape_char(s[0]) + escape(s.skip(1))
    }
}

/// A JSON string literal: the escaped characters between quotes.
pub open spec fn jstr(s: Seq<char>) -> Seq<char> {
    seq!['"'] + escape(s) + seq!['"']
}

/// An optional string: `null` or a JSON string.
pub open spec fn jopt_str(o: Option<Seq<char>>) -> Seq<char> {
    match o {
        None => ("null")@,
        Some(s) => jstr(s),
    }
}

/// The decimal digits of `n`, most significant first.
pub open spec fn dec_digits(n: nat) -> Seq<char>
    decreases n,
{
    if n < 10 {
        seq![digit_char(n as int)]
    } else {
        dec_digits(n / 10).push(digit_char((n % 10) as int))
    }
}

/// A JSON integer: a minus sign for negatives, then decimal digits.
pub open spec fn jint(n: int) -> Seq<char> {
    if n < 0 {
        seq!['-'] + dec_digits((-n) as nat)
    } else {
        dec_digits(n as nat)
    }
}

/// An optional integer: `null` or a JSON integer.
pub open spec fn jopt_int(o: Option<i32>) -> Seq<char> {
    match o {
        None => ("null")@,
        Some(n) => jint(n as int),
    }
}

/// A profile as a JSON object, fields in declaration order.
pub open spec fn juser(u: UserView) -> Seq<char> {
    ("{\"id\":")@ + jstr(u.id) + (",\"username\":")@ + jstr(u.username) + (",\"discriminator\":")@
        + jstr(u.discriminator) + (",\"global_name\":")@ + jopt_str(u.global_name) + (",\"avatar\":")@
        + jopt_str(u.avatar) + (",\"accent_color\":")@ + jopt_int(u.accent_color) + ("}")@
}

/// A chat line as a JSON object.
pub open spec fn jchat(c: ChatView) -> Seq<char> {
    ("{\"author\":")@ + jstr(c.author) + (",\"content\":")@ + jstr(c.content) + ("}")@
}

/// One presence mapping entry: the identity as a key, the profile as its
/// value.
pub open spec fn juser_entry(e: PresenceEntryView) -> Seq<char> {
    jstr(e.identity) + (":")@ + juser(e.profile)
}

/// The presence entries joined with commas.
pub open spec fn juser_entries(entries: Seq<PresenceEntryView>) -> Seq<char>
    decreases entries.len(),
{
    if entries.len() == 0 {
        Seq::empty()
    } else if entries.len() == 1 {
        juser_entry(entries[0])
    } else {
        juser_entry(entries[0]) + (",")@ + juser_entries(entries.skip(1))
    }
}

/// A presence mapping as a JSON object, entries in table order.
pub open spec fn jusers(entries: Seq<PresenceEntryView>) -> Seq<char> {
    ("{")@ + juser_entries(entries) + ("}")@
}

/// A session record as a JSON object: the token pair and the profile.
pub open spec fn jsession(s: SessionView) -> Seq<char> {
    ("{\"access_token\":")@ + jstr(s.access_token) + (",\"refresh_token\":")@ + jstr(s.refresh_token)
        + (",\"session\":")@ + juser(s.session) + ("}")@
}

/// The wire form of an envelope: the tagged `{"type":...,"data":...}`
/// object.
pub open spec fn spec_encode(m: MessageView) -> Seq<char> {
    match m {
        MessageView::Session(u) => ("{\"type\":\"Session\",\"data\":")@ + juser(u) + ("}")@,
        MessageView::ConnectedUsers(es) => ("{\"type\":\"ConnectedUsers\",\"data\":")@ + jusers(es)
            + ("}")@,
        MessageView::Message(c) => ("{\"type\":\"Message\",\"data\":")@ + jchat(c) + ("}")@,
        MessageView::Disconnect(r) => ("{\"type\":\"Disconnect\",\"data\":")@ + jstr(r) + ("}")@,
    }
}

// ---------------------------------------------------------------------------
// Encoding helpers
// ---------------------------------------------------------------------------

/// Escaping distributes over appending one character.
proof fn lemma_escape_snoc(s: Seq<char>, c: char)
    ensures
        escape(s.push(c)) == escape(s) + escape_char(c),
    decreases s.len(),
{
    if s.len() == 0 {
        assert(s.push(c)[0] == c);
        assert(s.push(c).skip(1) =~= Seq::<char>::empty());
        assert(escape(Seq::<char>::empty()) == Seq::<char>::empty());
        assert(escape(s.push(c)) =~= escape_char(c) + Seq::<char>::empty());
        assert(escape(s.push(c)) =~= escape(s) + escape_char(c));
    } else {
        assert(s.push(c)[0] == s[0]);
        assert(s.push(c).skip(1) =~= s.skip(1).push(c));
        lemma_escape_snoc(s.skip(1), c);
        assert(escape(s.push(c)) =~= escape(s) + escape_char(c));
    }
}

/// Joining entries distributes over appending one entry.
proof fn lemma_entries_snoc(entries: Seq<PresenceEntryView>, e: PresenceEntryView)
    ensures
        juser_entries(entries.push(e)) == if entries.len() == 0 {
            juser_entry(e)
        } else {
            juser_entries(entries) + (",")@ + juser_entry(e)
        },
    decreases entries.len(),
{
    if entries.len() == 0 {
        assert(entries.push(e)[0] == e);
        assert(juser_entries(entries.push(e)) =~= juser_entry(e));
    } else if entries.len() == 1 {
        assert(entries.push(e)[0] == entries[0]);
        assert(entries.push(e).skip(1) =~= seq![e]);
        assert(juser_entries(seq![e]) == juser_entry(e));
        assert(juser_entries(entries.push(e)) =~= juser_entries(entries) + (",")@ + juser_entry(e));
    } else {
        assert(entries.push(e)[0] == entries[0]);
        assert(entries.push(e).skip(1) =~= entries.skip(1).push(e));
        lemma_entries_snoc(entries.skip(1), e);
        assert(juser_entries(entries.push(e)) =~= juser_entries(entries) + (",")@ + juser_entry(e));
    }
}

/// Relies on `String`'s `FromIterator` over `char`: collecting a vector of
/// characters yields the string of exactly those characters.
#[verifier::external_body]
pub(crate) fn chars_to_string(v: Vec<char>) -> (r: String)
    ensures
        r@ == v@,
{
    String::from_iter(v)
}

/// Append every character of `s`.
fn push_str_chars(out: &mut Vec<char>, s: &str)
    ensures
        final(out)@ == old(out)@ + s@,
{
    let n = s.unicode_len();
    let mut i: usize = 0;
    while i < n
        invariant
            i <= n,
            n == s@.len(),
            out@ == old(out)@ + s@.take(i as int),
        decreases n - i,
    {
        out.push(s.get_char(i));
        proof {
            assert(s@.take(i + 1 as int) =~= s@.take(i as int).push(s@[i as int]));
            assert(old(out)@ + s@.take(i + 1 as int) =~= (old(out)@ + s@.take(i as int)).push(
                s@[i as int],
            ));
        }
        i = i + 1;
    }
    assert(s@.take(n as int) =~= s@);
}

/// The decimal digit character for `d`.
fn digit_char_exec(d: u32) -> (c: char)
    requires
        d < 10,
    ensures
        c == digit_char(d as int),
{
    match d {
        0 => '0',
        1 => '1',
        2 => '2',
        3 => '3',
        4 => '4',
        5 => '5',
        6 => '6',
        7 => '7',
        8 => '8',
        _ => '9',
    }
}

/// The lowercase hexadecimal digit character for `d`.
fn hex_char_exec(d: u32) -> (c: char)
    requires
        d < 16,
    ensures
        c == hex_char(d as int),
{
    if d < 10 {
        digit_char_exec(d)
    } else {
        match d {
            10 => 'a',
            11 => 'b',
            12 => 'c',
            13 => 'd',
            14 => 'e',
            _ => 'f',
        }
    }
}

/// Append the escape of one character.
fn push_escaped_char(out: &mut Vec<char>, c: char)
    ensures
        final(out)@ == old(out)@ + escape_char(c),
{
    if c == '"' {
        out.push('\\');
        out.push('"');
        assert(final(out)@ =~= old(out)@ + escape_char(c));
    } else if c == '\\' {
        out.push('\\');
        out.push('\\');
        assert(final(out)@ =~= old(out)@ + escape_char(c));
    } else if c == '\n' {
        out.push('\\');
        out.push('n');
        assert(final(out)@ =~= old(out)@ + escape_char(c));
    } else if c == '\r' {
        out.push('\\');
        out.push('r');
        assert(final(out)@ =~= old(out)@ + escape_char(c));
    } else if c == '\t' {
        out.push('\\');
        out.push('t');
        assert(final(out)@ =~= old(out)@ + escape_char(c));
    } else if c == '\u{8}' {
        out.push('\\');
        out.push('b');
        assert(final(out)@ =~= old(out)@ + escape_char(c));
    } else if c == '\u{c}' {
        out.push('\\');
        out.push('f');
        assert(final(out)@ =~= old(out)@ + escape_char(c));
    } else if (c as u32) < 32 {
        let v = c as u32;
        out.push('\\');
        out.push('u');
        out.push('0');
        out.push('0');
        out.push(hex_char_exec(v / 16));
        out.push(hex_char_exec(v % 16));
        assert(final(out)@ =~= old(out)@ + escape_char(c));
    } else {
        out.push(c);
        assert(final(out)@ =~= old(out)@ + escape_char(c));
    }
}

/// Append a JSON string literal for `s`.
fn push_jstr(out: &mut Vec<char>, s: &str)
    ensures
        final(out)@ == old(out)@ + jstr(s@),
{
    out.push('"');
    let n = s.unicode_len();
    let mut i: usize = 0;
    while i < n
        invariant
            i <= n,
            n == s@.len(),
            out@ == old(out)@ + seq!['"'] + escape(s@.take(i as int)),
        decreases n - i,
    {
        push_escaped_char(out, s.get_char(i));
        proof {
            assert(s@.take(i + 1 as int) =~= s@.take(i as int).push(s@[i as int]));
            lemma_escape_snoc(s@.take(i as int), s@[i as int]);
            assert(out@ =~= old(out)@ + seq!['"'] + escape(s@.take(i + 1 as int)));
        }
        i = i + 1;
    }
    out.push('"');
    proof {
        assert(s@.take(n as int) =~= s@);
        assert(final(out)@ =~= old(out)@ + jstr(s@));
    }
}

/// Append `null` or a JSON string.
fn push_opt_jstr(out: &mut Vec<char>, o: &Option<String>)
    ensures
        final(out)@ == old(out)@ + jopt_str(
            match o {
                Some(s) => Some(s@),
                None => None,
            },
        ),
{
    match o {
        None => push_str_chars(out, "null"),
        Some(s) => push_jstr(out, s.as_str()),
    }
}

/// Append the decimal digits of `n`.
fn push_u32_decimal(out: &mut Vec<char>, n: u32)
    ensures
        final(out)@ == old(out)@ + dec_digits(n as nat),
    decreases n,
{
    if n < 10 {
        out.push(digit_char_exec(n));
        assert(final(out)@ =~= old(out)@ + dec_digits(n as nat));
    } else {
        push_u32_decimal(out, n / 10);
        out.push(digit_char_exec(n % 10));
        assert(final(out)@ =~= old(out)@ + dec_digits(n as nat));
    }
}

/// Append a JSON integer.
fn push_i32(out: &mut Vec<char>, n: i32)
    ensures
        final(out)@ == old(out)@ + jint(n as int),
{
    if n < 0 {
        out.push('-');
        let wide: i64 = n as i64;
        let m: u32 = (-wide) as u32;
        assert(m as nat == (-(n as int)) as nat);
        push_u32_decimal(out, m);
        assert(final(out)@ =~= old(out)@ + jint(n as int));
    } else {
        push_u32_decimal(out, n as u32);
        assert(n as nat == (n as int) as nat);
    }
}

/// Append `null` or a JSON integer.
fn push_opt_i32(out: &mut Vec<char>, o: &Option<i32>)
    ensures
        final(out)@ == old(out)@ + jopt_int(*o),
{
    match o {
        None => push_str_chars(out, "null"),
        Some(n) => push_i32(out, *n),
    }
}

/// Append a profile object.
fn push_user(out: &mut Vec<char>, u: &DiscordUser)
    ensures
        final(out)@ == old(out)@ + juser(u@),
{
    push_str_chars(out, "{\"id\":");
    push_jstr(out, u.id.as_str());
    push_str_chars(out, ",\"username\":");
    push_jstr(out, u.username.as_str());
    push_str_chars(out, ",\"discriminator\":");
    push_jstr(out, u.discriminator.as_str());
    push_str_chars(out, ",\"global_name\":");
    push_opt_jstr(out, &u.global_name);
    push_str_chars(out, ",\"avatar\":");
    push_opt_jstr(out, &u.avatar);
    push_str_chars(out, ",\"accent_color\":");
    push_opt_i32(out, &u.accent_color);
    push_str_chars(out, "}");
    assert(final(out)@ =~= old(out)@ + juser(u@));
}

/// Append a presence mapping object.
fn push_users(out: &mut Vec<char>, entries: &Vec<PresenceEntry>)
    ensures
        final(out)@ == old(out)@ + jusers(entries@.map_values(|e: PresenceEntry| e@)),
{
    let ghost views = entries@.map_values(|e: PresenceEntry| e@);
    push_str_chars(out, "{");
    let mut i: usize = 0;
    while i < entries.len()
        invariant
            i <= entries.len(),
            views == entries@.map_values(|e: PresenceEntry| e@),
            views.len() == entries@.len(),
            forall|j: int| 0 <= j < entries@.len() ==> #[trigger] views[j] == entries@[j]@,
            out@ == old(out)@ + ("{")@ + juser_entries(views.take(i as int)),
        decreases entries.len() - i,
    {
        if i > 0 {
            push_str_chars(out, ",");
        }
        let e = &entries[i];
        push_jstr(out, e.identity.as_str());
        push_str_chars(out, ":");
        push_user(out, &e.profile);
        proof {
            assert(views.take(i + 1 as int) =~= views.take(i as int).push(views[i as int]));
            lemma_entries_snoc(views.take(i as int), views[i as int]);
            assert(juser_entry(views[i as int]) == jstr(entries@[i as int]@.identity) + (":")@
                + juser(entries@[i as int]@.profile));
            assert(out@ =~= old(out)@ + ("{")@ + juser_entries(views.take(i + 1 as int)));
        }
        i = i + 1;
    }
    push_str_chars(out, "}");
    proof {
        assert(views.take(views.len() as int) =~= views);
        assert(final(out)@ =~= old(out)@ + jusers(views));
    }
}

/// Append a chat object.
fn push_chat(out: &mut Vec<char>, c: &ChatMessage)
    ensures
        final(out)@ == old(out)@ + jchat(c@),
{
    push_str_chars(out, "{\"author\":");
    push_jstr(out, c.author.as_str());
    push_str_chars(out, ",\"content\":");
    push_jstr(out, c.content.as_str());
    push_str_chars(out, "}");
    assert(final(out)@ =~= old(out)@ + jchat(c@));
}

// ---------------------------------------------------------------------------
// Public encoders
// ---------------------------------------------------------------------------

/// Encode an envelope to its wire text.
pub fn encode_message(m: &WebsocketMessage) -> (r: String)
    ensures
        r@ == spec_encode(m@),
{
    let mut out: Vec<char> = Vec::new();
    match m {
        WebsocketMessage::Session(u) => {
            push_str_chars(&mut out, "{\"type\":\"Session\",\"data\":");
            push_user(&mut out, u);
            push_str_chars(&mut out, "}");
        },
        WebsocketMessage::ConnectedUsers(es) => {
            push_str_chars(&mut out, "{\"type\":\"ConnectedUsers\",\"data\":");
            push_users(&mut out, es);
            push_str_chars(&mut out, "}");
        },
        WebsocketMessage::Message(c) => {
            push_str_chars(&mut out, "{\"type\":\"Message\",\"data\":");
            push_chat(&mut out, c);
            push_str_chars(&mut out, "}");
        },
        WebsocketMessage::Disconnect(r) => {
            push_str_chars(&mut out, "{\"type\":\"Disconnect\",\"data\":");
            push_jstr(&mut out, r.as_str());
            push_str_chars(&mut out, "}");
        },
    }
    assert(out@ =~= spec_encode(m@));
    chars_to_string(out)
}

/// Encode a session record to the single text frame a resolved login socket
/// receives.
pub fn encode_session_record(s: &UserSession) -> (r: String)
    ensures
        r@ == jsession(s@),
{
    let mut out: Vec<char> = Vec::new();
    push_str_chars(&mut out, "{\"access_token\":");
    push_jstr(&mut out, s.access_token.as_str());
    push_str_chars(&mut out, ",\"refresh_token\":");
    push_jstr(&mut out, s.refresh_token.as_str());
    push_str_chars(&mut out, ",\"session\":");
    push_user(&mut out, &s.session);
    push_str_chars(&mut out, "}");
    assert(out@ =~= jsession(s@));
    chars_to_string(out)
}

// ---------------------------------------------------------------------------
// Spec: decoding
// ---------------------------------------------------------------------------

/// Does `s` continue with `lit` at position `i`? `Some` holds the position
/// just past it.
pub open spec fn parse_lit(s: Seq<char>, i: int, lit: Seq<char>) -> Option<int> {
    if 0 <= i && i + lit.len() <= s.len() && s.subrange(i, i + lit.len()) == lit {
        Some(i + lit.len())
    } else {
        None
    }
}

/// The value of a lowercase hexadecimal digit character, if it is one.
pub open spec fn hex_val(c: char) -> Option<int> {
    if 48 <= c as int && c as int <= 57 {
        Some(c as int - 48)
    } else if 97 <= c as int && c as int <= 102 {
        Some(c as int - 87)
    } else {
        None
    }
}

/// Is `c` a decimal digit character?
pub open spec fn is_digit(c: char) -> bool {
    48 <= c as int && c as int <= 57
}

/// The value of a decimal digit character.
pub open spec fn digit_val(c: char) -> int {
    c as int - 48
}

/// Is `c` insignificant JSON whitespace?
pub open spec fn is_jws(c: char) -> bool {
    c == ' ' || c == '\t' || c == '\n' || c == '\r'
}

/// The position after any insignificant JSON whitespace.
pub open spec fn skip_jws(s: Seq<char>, i: int) -> int
    decreases s.len() - i,
    when 0 <= i <= s.len()
{
    if i < s.len() && is_jws(s[i]) {
        skip_jws(s, i + 1)
    } else {
        i
    }
}

/// The next token is the single character `c`: whitespace, then `c`.
pub open spec fn parse_tok_char(s: Seq<char>, i: int, c: char) -> Option<int> {
    let j = skip_jws(s, i);
    if j < s.len() && s[j] == c {
        Some(j + 1)
    } else {
        None
    }
}

/// The next token is the literal `lit`: whitespace, then `lit` verbatim.
pub open spec fn parse_tok_lit(s: Seq<char>, i: int, lit: Seq<char>) -> Option<int> {
    parse_lit(s, skip_jws(s, i), lit)
}

/// The characters of a JSON string after its opening quote: unescapes up to
/// the closing quote, yielding the position just past it. Raw control
/// characters, unknown escapes and an unterminated string all fail.
pub open spec fn parse_string_body(s: Seq<char>, i: int) -> Option<(Seq<char>, int)>
    decreases s.len() - i,
    when 0 <= i <= s.len()
{
    if i >= s.len() {
        None
    } else if s[i] == '"' {
        Some((Seq::empty(), i + 1))
    } else if s[i] == '\\' {
        if i + 1 >= s.len() {
            None
        } else if s[i + 1] == 'u' {
            if i + 6 <= s.len() && s[i + 2] == '0' && s[i + 3] == '0' && (hex_val(s[i + 4]) matches Some(_))
                && (hex_val(s[i + 5]) matches Some(_)) {
                let h1 = match hex_val(s[i + 4]) { Some(v) => v, None => 0 };
                let h2 = match hex_val(s[i + 5]) { Some(v) => v, None => 0 };
                match parse_string_body(s, i + 6) {
                    Some((rest, j)) => Some((seq![((16 * h1 + h2) as u8) as char] + rest, j)),
                    None => None,
                }
            } else {
                None
            }
        } else {
            let u: Option<char> = if s[i + 1] == '"' {
                Some('"')
            } else if s[i + 1] == '\\' {
                Some('\\')
            } else if s[i + 1] == 'n' {
                Some('\n')
            } else if s[i + 1] == 'r' {
                Some('\r')
            } else if s[i + 1] == 't' {
                Some('\t')
            } else if s[i + 1] == 'b' {
                Some('\u{8}')
            } else if s[i + 1] == 'f' {
                Some('\u{c}')
            } else {
                None
            };
            match u {
                Some(c) => match parse_string_body(s, i + 2) {
                    Some((rest, j)) => Some((seq![c] + rest, j)),
                    None => None,
                },
                None => None,
            }
        }
    } else if s[i] as int >= 32 {
        match parse_string_body(s, i + 1) {
            Some((rest, j)) => Some((seq![s[i]] + rest, j)),
            None => None,
        }
    } else {
        None
    }
}

/// A JSON string token starting at `i`: whitespace, then a string literal.
pub open spec fn parse_jstring(s: Seq<char>, i: int) -> Option<(Seq<char>, int)> {
    let j = skip_jws(s, i);
    if j < s.len() && s[j] == '"' {
        parse_string_body(s, j + 1)
    } else {
        None
    }
}

/// `null` or a JSON string, as a token.
pub open spec fn parse_opt_str(s: Seq<char>, i: int) -> Option<(Option<Seq<char>>, int)> {
    match parse_tok_lit(s, i, ("null")@) {
        Some(j) => Some((None, j)),
        None => match parse_jstring(s, i) {
            Some((v, j)) => Some((Some(v), j)),
            None => None,
        },
    }
}

/// Decimal digits starting at `i`, left to right, on top of `acc`; stops at
/// the first non-digit. Fails once the value can no longer be an `i32`
/// magnitude.
pub open spec fn parse_number(s: Seq<char>, i: int, acc: int) -> Option<(int, int)>
    decreases s.len() - i,
    when 0 <= i <= s.len()
{
    if i < s.len() && is_digit(s[i]) {
        if acc * 10 + digit_val(s[i]) > 2147483648 {
            None
        } else {
            parse_number(s, i + 1, acc * 10 + digit_val(s[i]))
        }
    } else {
        Some((acc, i))
    }
}

/// A JSON integer token that fits an `i32`: whitespace, then the number.
pub open spec fn parse_int(s: Seq<char>, i: int) -> Option<(i32, int)> {
    let i = skip_jws(s, i);
    if 0 <= i && i < s.len() && s[i] == '-' {
        if i + 1 < s.len() && is_digit(s[i + 1]) {
            match parse_number(s, i + 1, 0) {
                Some((v, j)) => Some(((-v) as i32, j)),
                None => None,
            }
        } else {
            None
        }
    } else if 0 <= i && i < s.len() && is_digit(s[i]) {
        match parse_number(s, i, 0) {
            Some((v, j)) => if v <= 2147483647 {
                Some((v as i32, j))
            } else {
                None
            },
            None => None,
        }
    } else {
        None
    }
}

/// `null` or a JSON integer, as a token.
pub open spec fn parse_opt_int(s: Seq<char>, i: int) -> Option<(Option<i32>, int)> {
    match parse_tok_lit(s, i, ("null")@) {
        Some(j) => Some((None, j)),
        None => match parse_int(s, i) {
            Some((v, j)) => Some((Some(v), j)),
            None => None,
        },
    }
}

/// A profile object, fields in declaration order, whitespace allowed
/// between tokens.
pub open spec fn parse_user(s: Seq<char>, i: int) -> Option<(UserView, int)> {
    match parse_tok_char(s, i, '{') {
        None => None,
        Some(a0) => match parse_tok_lit(s, a0, ("\"id\"")@) {
            None => None,
            Some(a1) => match parse_tok_char(s, a1, ':') {
                None => None,
                Some(a2) => match parse_jstring(s, a2) {
                    None => None,
                    Some((id, a3)) => match parse_tok_char(s, a3, ',') {
                        None => None,
                        Some(b0) => match parse_tok_lit(s, b0, ("\"username\"")@) {
                            None => None,
                            Some(b1) => match parse_tok_char(s, b1, ':') {
                                None => None,
                                Some(b2) => match parse_jstring(s, b2) {
                                    None => None,
                                    Some((username, b3)) => match parse_tok_char(s, b3, ',') {
                                        None => None,
                                        Some(c0) => match parse_tok_lit(
                                            s,
                                            c0,
                                            ("\"discriminator\"")@,
                                        ) {
                                            None => None,
                                            Some(c1) => match parse_tok_char(s, c1, ':') {
                                                None => None,
                                                Some(c2) => match parse_jstring(s, c2) {
                                                    None => None,
                                                    Some((discriminator, c3)) => parse_user_rest(
                                                        s,
                                                        c3,
                                                        id,
                                                        username,
                                                        discriminator,
                                                    ),
                                                },
                                            },
                                        },
                                    },
                                },
                            },
                        },
                    },
                },
            },
        },
    }
}

/// The optional fields of a profile object, after the discriminator.
pub open spec fn parse_user_rest(
    s: Seq<char>,
    i: int,
    id: Seq<char>,
    username: Seq<char>,
    discriminator: Seq<char>,
) -> Option<(UserView, int)> {
    match parse_tok_char(s, i, ',') {
        None => None,
        Some(d0) => match parse_tok_lit(s, d0, ("\"global_name\"")@) {
            None => None,
            Some(d1) => match parse_tok_char(s, d1, ':') {
                None => None,
                Some(d2) => match parse_opt_str(s, d2) {
                    None => None,
                    Some((global_name, d3)) => match parse_tok_char(s, d3, ',') {
                        None => None,
                        Some(e0) => match parse_tok_lit(s, e0, ("\"avatar\"")@) {
                            None => None,
                            Some(e1) => match parse_tok_char(s, e1, ':') {
                                None => None,
                                Some(e2) => match parse_opt_str(s, e2) {
                                    None => None,
                                    Some((avatar, e3)) => match parse_tok_char(s, e3, ',') {
                                        None => None,
                                        Some(f0) => match parse_tok_lit(
                                            s,
                                            f0,
                                            ("\"accent_color\"")@,
                                        ) {
                                            None => None,
                                            Some(f1) => match parse_tok_char(s, f1, ':') {
                                                None => None,
                                                Some(f2) => match parse_opt_int(s, f2) {
                                                    None => None,
                                                    Some((accent_color, f3)) => match parse_tok_char(
                                                        s,
                                                        f3,
                                                        '}',
                                                    ) {
                                                        None => None,
                                                        Some(f4) => Some(
                                                            (
                                                                UserView {
                                                                    id,
                                                                    username,
                                                                    discriminator,
                                                                    global_name,
                                                                    avatar,
                                                                    accent_color,
                                                                },
                                                                f4,
                                                            ),
                                                        ),
                                                    },
                                                },
                                            },
                                        },
                                    },
                                },
                            },
                        },
                    },
                },
            },
        },
    }
}

/// A chat object, whitespace allowed between tokens.
pub open spec fn parse_chat(s: Seq<char>, i: int) -> Option<(ChatView, int)> {
    match parse_tok_char(s, i, '{') {
        None => None,
        Some(a0) => match parse_tok_lit(s, a0, ("\"author\"")@) {
            None => None,
            Some(a1) => match parse_tok_char(s, a1, ':') {
                None => None,
                Some(a2) => match parse_jstring(s, a2) {
                    None => None,
                    Some((author, a3)) => match parse_tok_char(s, a3, ',') {
                        None => None,
                        Some(b0) => match parse_tok_lit(s, b0, ("\"content\"")@) {
                            None => None,
                            Some(b1) => match parse_tok_char(s, b1, ':') {
                                None => None,
                                Some(b2) => match parse_jstring(s, b2) {
                                    None => None,
                                    Some((content, b3)) => match parse_tok_char(s, b3, '}') {
                                        None => None,
                                        Some(b4) => Some((ChatView { author, content }, b4)),
                                    },
                                },
                            },
                        },
                    },
                },
            },
        },
    }
}

/// One or more presence entries, comma-separated, up to and including the
/// closing brace, whitespace allowed between tokens. `fuel` bounds the
/// recursion; the decoder hands it the whole text's length, more than one
/// per entry consumed.
pub open spec fn parse_users_entries(s: Seq<char>, i: int, fuel: nat) -> Option<
    (Seq<PresenceEntryView>, int),
>
    decreases fuel,
{
    if fuel == 0 {
        None
    } else {
        match parse_jstring(s, i) {
            None => None,
            Some((id, j)) => match parse_tok_char(s, j, ':') {
                None => None,
                Some(j2) => match parse_user(s, j2) {
                    None => None,
                    Some((u, k)) => match parse_tok_char(s, k, ',') {
                        Some(k2) => match parse_users_entries(s, k2, (fuel - 1) as nat) {
                            Some((rest, m)) => Some(
                                (seq![PresenceEntryView { identity: id, profile: u }] + rest, m),
                            ),
                            None => None,
                        },
                        None => match parse_tok_char(s, k, '}') {
                            Some(k2) => Some(
                                (seq![PresenceEntryView { identity: id, profile: u }], k2),
                            ),
                            None => None,
                        },
                    },
                },
            },
        }
    }
}

/// A presence mapping object, whitespace allowed between tokens.
pub open spec fn parse_users(s: Seq<char>, i: int) -> Option<(Seq<PresenceEntryView>, int)> {
    match parse_tok_char(s, i, '{') {
        None => None,
        Some(a0) => match parse_tok_char(s, a0, '}') {
            Some(a1) => Some((Seq::empty(), a1)),
            None => parse_users_entries(s, a0, s.len() as nat),
        },
    }
}

/// The envelope `s` decodes to, if any: the tagged object grammar with the
/// fields in declaration order, insignificant JSON whitespace allowed
/// between tokens, matched in full (trailing characters beyond whitespace
/// are a failure).
pub open spec fn spec_decode(s: Seq<char>) -> Option<MessageView> {
    match parse_tok_char(s, 0, '{') {
        None => None,
        Some(a0) => match parse_tok_lit(s, a0, ("\"type\"")@) {
            None => None,
            Some(a1) => match parse_tok_char(s, a1, ':') {
                None => None,
                Some(a2) => match parse_tok_lit(s, a2, ("\"Session\"")@) {
                    Some(v) => match spec_decode_data(s, v) {
                        None => None,
                        Some(p) => match parse_user(s, p) {
                            Some((u, m)) => match spec_decode_end(s, m) {
                                true => Some(MessageView::Session(u)),
                                false => None,
                            },
                            None => None,
                        },
                    },
                    None => match parse_tok_lit(s, a2, ("\"ConnectedUsers\"")@) {
                        Some(v) => match spec_decode_data(s, v) {
                            None => None,
                            Some(p) => match parse_users(s, p) {
                                Some((es, m)) => match spec_decode_end(s, m) {
                                    true => Some(MessageView::ConnectedUsers(es)),
                                    false => None,
                                },
                                None => None,
                            },
                        },
                        None => match parse_tok_lit(s, a2, ("\"Message\"")@) {
                            Some(v) => match spec_decode_data(s, v) {
                                None => None,
                                Some(p) => match parse_chat(s, p) {
                                    Some((c, m)) => match spec_decode_end(s, m) {
                                        true => Some(MessageView::Message(c)),
                                        false => None,
                                    },
                                    None => None,
                                },
                            },
                            None => match parse_tok_lit(s, a2, ("\"Disconnect\"")@) {
                                Some(v) => match spec_decode_data(s, v) {
                                    None => None,
                                    Some(p) => match parse_jstring(s, p) {
                                        Some((r, m)) => match spec_decode_end(s, m) {
                                            true => Some(MessageView::Disconnect(r)),
                                            false => None,
                                        },
                                        None => None,
                                    },
                                },
                                None => None,
                            },
                        },
                    },
                },
            },
        },
    }
}

/// The `,"data":` tokens between the variant tag and the payload.
pub open spec fn spec_decode_data(s: Seq<char>, i: int) -> Option<int> {
    match parse_tok_char(s, i, ',') {
        None => None,
        Some(b0) => match parse_tok_lit(s, b0, ("\"data\"")@) {
            None => None,
            Some(b1) => parse_tok_char(s, b1, ':'),
        },
    }
}

/// The closing brace of the envelope and the end of the text.
pub open spec fn spec_decode_end(s: Seq<char>, i: int) -> bool {
    match parse_tok_char(s, i, '}') {
        None => false,
        Some(e) => skip_jws(s, e) == s.len(),
    }
}

// ---------------------------------------------------------------------------
// Exec decoding
// ---------------------------------------------------------------------------

/// The position after any insignificant JSON whitespace.
fn skip_jws_exec(s: &str, i: usize) -> (r: usize)
    requires
        i <= s@.len(),
    ensures
        r == skip_jws(s@, i as int),
        i <= r <= s@.len(),
{
    let sl = s.unicode_len();
    let mut j = i;
    loop
        invariant
            i <= j <= sl,
            sl == s@.len(),
            skip_jws(s@, i as int) == skip_jws(s@, j as int),
        decreases sl - j,
    {
        if j < sl {
            let c = s.get_char(j);
            if c == ' ' || c == '\t' || c == '\n' || c == '\r' {
                j = j + 1;
                continue ;
            }
        }
        assert(skip_jws(s@, j as int) == j as int);
        return j;
    }
}

/// Match the single-character token `c` at position `i`.
fn parse_tok_char_exec(s: &str, i: usize, c: char) -> (r: Option<usize>)
    requires
        i <= s@.len(),
    ensures
        match r {
            Some(j) => parse_tok_char(s@, i as int, c) == Some(j as int) && i < j && j <= s@.len(),
            None => parse_tok_char(s@, i as int, c) == None::<int>,
        },
{
    let sl = s.unicode_len();
    let j = skip_jws_exec(s, i);
    if j < sl && s.get_char(j) == c {
        Some(j + 1)
    } else {
        None
    }
}

/// Match the literal token `lit` at position `i`.
fn parse_tok_lit_exec(s: &str, i: usize, lit: &str) -> (r: Option<usize>)
    requires
        i <= s@.len(),
    ensures
        match r {
            Some(j) => parse_tok_lit(s@, i as int, lit@) == Some(j as int) && i <= j && j
                <= s@.len(),
            None => parse_tok_lit(s@, i as int, lit@) == None::<int>,
        },
{
    let j = skip_jws_exec(s, i);
    parse_lit_exec(s, j, lit)
}

/// Match `lit` at position `i`.
pub(crate) fn parse_lit_exec(s: &str, i: usize, lit: &str) -> (r: Option<usize>)
    ensures
        match r {
            Some(j) => parse_lit(s@, i as int, lit@) == Some(j as int) && i <= j && j <= s@.len(),
            None => parse_lit(s@, i as int, lit@) == None::<int>,
        },
{
    let sl = s.unicode_len();
    let n = lit.unicode_len();
    if i > sl || sl - i < n {
        return None;
    }
    let mut k: usize = 0;
    while k < n
        invariant
            k <= n,
            n == lit@.len(),
            sl == s@.len(),
            i + n <= sl,
            forall|t: int| 0 <= t < k ==> s@[i + t] == lit@[t],
        decreases n - k,
    {
        if s.get_char(i + k) != lit.get_char(k) {
            proof {
                if s@.subrange(i as int, i + n) == lit@ {
                    assert(s@.subrange(i as int, i + n)[k as int] == s@[i + k]);
                }
            }
            return None;
        }
        k = k + 1;
    }
    proof {
        assert(s@.subrange(i as int, i + n) =~= lit@);
    }
    Some(i + n)
}

/// The value of a lowercase hexadecimal digit character.
fn hex_val_exec(c: char) -> (r: Option<u32>)
    ensures
        match r {
            Some(v) => hex_val(c) == Some(v as int) && v < 16,
            None => hex_val(c) == None::<int>,
        },
{
    let v = c as u32;
    if 48 <= v && v <= 57 {
        Some(v - 48)
    } else if 97 <= v && v <= 102 {
        Some(v - 87)
    } else {
        None
    }
}

/// The characters of a JSON string after its opening quote.
fn parse_string_body_exec(s: &str, i: usize) -> (r: Option<(Vec<char>, usize)>)
    requires
        i <= s@.len(),
    ensures
        match r {
            Some(p) => parse_string_body(s@, i as int) == Some((p.0@, p.1 as int)) && i < p.1
                && p.1 <= s@.len(),
            None => parse_string_body(s@, i as int) == None::<(Seq<char>, int)>,
        },
    decreases s@.len() - i,
{
    let sl = s.unicode_len();
    if i >= sl {
        return None;
    }
    let c = s.get_char(i);
    if c == '"' {
        let v: Vec<char> = Vec::new();
        assert(v@ =~= Seq::<char>::empty());
        return Some((v, i + 1));
    }
    if c == '\\' {
        if i + 1 >= sl {
            return None;
        }
        let e = s.get_char(i + 1);
        if e == 'u' {
            if sl - i < 6 {
                return None;
            }
            if !(s.get_char(i + 2) == '0') || !(s.get_char(i + 3) == '0') {
                return None;
            }
            let h1 = match hex_val_exec(s.get_char(i + 4)) {
                Some(v) => v,
                None => {
                    return None;
                },
            };
            let h2 = match hex_val_exec(s.get_char(i + 5)) {
                Some(v) => v,
                None => {
                    return None;
                },
            };
            match parse_string_body_exec(s, i + 6) {
                Some((rest, j)) => {
                    let mut rest = rest;
                    let ghost tail = rest@;
                    let ch = ((16 * h1 + h2) as u8) as char;
                    rest.insert(0, ch);
                    proof {
                        assert(rest@ =~= seq![ch] + tail);
                    }
                    Some((rest, j))
                },
                None => None,
            }
        } else {
            let u: Option<char> = if e == '"' {
                Some('"')
            } else if e == '\\' {
                Some('\\')
            } else if e == 'n' {
                Some('\n')
            } else if e == 'r' {
                Some('\r')
            } else if e == 't' {
                Some('\t')
            } else if e == 'b' {
                Some('\u{8}')
            } else if e == 'f' {
                Some('\u{c}')
            } else {
                None
            };
            match u {
                Some(ch) => match parse_string_body_exec(s, i + 2) {
                    Some((rest, j)) => {
                        let mut rest = rest;
                        let ghost tail = rest@;
                        rest.insert(0, ch);
                        proof {
                            assert(rest@ =~= seq![ch] + tail);
                        }
                        Some((rest, j))
                    },
                    None => None,
                },
                None => None,
            }
        }
    } else if c as u32 >= 32 {
        match parse_string_body_exec(s, i + 1) {
            Some((rest, j)) => {
                let mut rest = rest;
                let ghost tail = rest@;
                rest.insert(0, c);
                proof {
                    assert(rest@ =~= seq![c] + tail);
                }
                Some((rest, j))
            },
            None => None,
        }
    } else {
        None
    }
}

/// A JSON string token starting at `i`.
fn parse_jstring_exec(s: &str, i: usize) -> (r: Option<(Vec<char>, usize)>)
    requires
        i <= s@.len(),
    ensures
        match r {
            Some(p) => parse_jstring(s@, i as int) == Some((p.0@, p.1 as int)) && i < p.1 && p.1
                <= s@.len(),
            None => parse_jstring(s@, i as int) == None::<(Seq<char>, int)>,
        },
{
    let sl = s.unicode_len();
    let j = skip_jws_exec(s, i);
    if j < sl && s.get_char(j) == '"' {
        parse_string_body_exec(s, j + 1)
    } else {
        None
    }
}

/// `null` or a JSON string.
fn parse_opt_str_exec(s: &str, i: usize) -> (r: Option<(Option<String>, usize)>)
    requires
        i <= s@.len(),
    ensures
        match r {
            Some(p) => parse_opt_str(s@, i as int) == Some(
                (
                    match p.0 {
                        Some(v) => Some(v@),
                        None => None,
                    },
                    p.1 as int,
                ),
            ) && i <= p.1 && p.1 <= s@.len(),
            None => parse_opt_str(s@, i as int) == None::<(Option<Seq<char>>, int)>,
        },
{
    match parse_tok_lit_exec(s, i, "null") {
        Some(j) => Some((None, j)),
        None => match parse_jstring_exec(s, i) {
            Some((v, j)) => Some((Some(chars_to_string(v)), j)),
            None => None,
        },
    }
}

/// Decimal digits on top of `acc`.
fn parse_number_exec(s: &str, i: usize, acc: u32) -> (r: Option<(u32, usize)>)
    requires
        i <= s@.len(),
        acc <= 2147483648,
    ensures
        match r {
            Some(p) => parse_number(s@, i as int, acc as int) == Some((p.0 as int, p.1 as int))
                && i <= p.1 && p.1 <= s@.len() && p.0 <= 2147483648,
            None => parse_number(s@, i as int, acc as int) == None::<(int, int)>,
        },
    decreases s@.len() - i,
{
    let sl = s.unicode_len();
    if i < sl {
        let c = s.get_char(i);
        let v = c as u32;
        if 48 <= v && v <= 57 {
            let wide: u64 = acc as u64 * 10 + (v - 48) as u64;
            if wide > 2147483648 {
                return None;
            }
            return parse_number_exec(s, i + 1, wide as u32);
        }
    }
    Some((acc, i))
}

/// A JSON integer that fits an `i32`.
fn parse_int_exec(s: &str, i: usize) -> (r: Option<(i32, usize)>)
    requires
        i <= s@.len(),
    ensures
        match r {
            Some(p) => parse_int(s@, i as int) == Some((p.0, p.1 as int)) && i <= p.1 && p.1
                <= s@.len(),
            None => parse_int(s@, i as int) == None::<(i32, int)>,
        },
{
    let sl = s.unicode_len();
    let i = skip_jws_exec(s, i);
    if i < sl && s.get_char(i) == '-' {
        if i + 1 < sl {
            let d = s.get_char(i + 1) as u32;
            if 48 <= d && d <= 57 {
                match parse_number_exec(s, i + 1, 0) {
                    Some((v, j)) => {
                        let res: i32 = (-(v as i64)) as i32;
                        assert(res == (-(v as int)) as i32);
                        return Some((res, j));
                    },
                    None => {
                        return None;
                    },
                }
            }
        }
        return None;
    }
    if i < sl {
        let d = s.get_char(i) as u32;
        if 48 <= d && d <= 57 {
            match parse_number_exec(s, i, 0) {
                Some((v, j)) => {
                    if v <= 2147483647 {
                        return Some((v as i32, j));
                    } else {
                        return None;
                    }
                },
                None => {
                    return None;
                },
            }
        }
    }
    None
}

/// `null` or a JSON integer.
fn parse_opt_int_exec(s: &str, i: usize) -> (r: Option<(Option<i32>, usize)>)
    requires
        i <= s@.len(),
    ensures
        match r {
            Some(p) => parse_opt_int(s@, i as int) == Some((p.0, p.1 as int)) && i <= p.1 && p.1
                <= s@.len(),
            None => parse_opt_int(s@, i as int) == None::<(Option<i32>, int)>,
        },
{
    match parse_tok_lit_exec(s, i, "null") {
        Some(j) => Some((None, j)),
        None => match parse_int_exec(s, i) {
            Some((v, j)) => Some((Some(v), j)),
            None => None,
        },
    }
}

/// A profile object.
fn parse_user_exec(s: &str, i: usize) -> (r: Option<(DiscordUser, usize)>)
    requires
        i <= s@.len(),
    ensures
        match r {
            Some(p) => parse_user(s@, i as int) == Some((p.0@, p.1 as int)) && i <= p.1 && p.1
                <= s@.len(),
            None => parse_user(s@, i as int) == None::<(UserView, int)>,
        },
{
    let a0 = match parse_tok_char_exec(s, i, '{') {
        Some(j) => j,
        None => {
            return None;
        },
    };
    let a1 = match parse_tok_lit_exec(s, a0, "\"id\"") {
        Some(j) => j,
        None => {
            return None;
        },
    };
    let a2 = match parse_tok_char_exec(s, a1, ':') {
        Some(j) => j,
        None => {
            return None;
        },
    };
    let (id, a3) = match parse_jstring_exec(s, a2) {
        Some(p) => p,
        None => {
            return None;
        },
    };
    let b0 = match parse_tok_char_exec(s, a3, ',') {
        Some(j) => j,
        None => {
            return None;
        },
    };
    let b1 = match parse_tok_lit_exec(s, b0, "\"username\"") {
        Some(j) => j,
        None => {
            return None;
        },
    };
    let b2 = match parse_tok_char_exec(s, b1, ':') {
        Some(j) => j,
        None => {
            return None;
        },
    };
    let (username, b3) = match parse_jstring_exec(s, b2) {
        Some(p) => p,
        None => {
            return None;
        },
    };
    let c0 = match parse_tok_char_exec(s, b3, ',') {
        Some(j) => j,
        None => {
            return None;
        },
    };
    let c1 = match parse_tok_lit_exec(s, c0, "\"discriminator\"") {
        Some(j) => j,
        None => {
            return None;
        },
    };
    let c2 = match parse_tok_char_exec(s, c1, ':') {
        Some(j) => j,
        None => {
            return None;
        },
    };
    let (discriminator, c3) = match parse_jstring_exec(s, c2) {
        Some(p) => p,
        None => {
            return None;
        },
    };
    let d0 = match parse_tok_char_exec(s, c3, ',') {
        Some(j) => j,
        None => {
            return None;
        },
    };
    let d1 = match parse_tok_lit_exec(s, d0, "\"global_name\"") {
        Some(j) => j,
        None => {
            return None;
        },
    };
    let d2 = match parse_tok_char_exec(s, d1, ':') {
        Some(j) => j,
        None => {
            return None;
        },
    };
    let (global_name, d3) = match parse_opt_str_exec(s, d2) {
        Some(p) => p,
        None => {
            return None;
        },
    };
    let e0 = match parse_tok_char_exec(s, d3, ',') {
        Some(j) => j,
        None => {
            return None;
        },
    };
    let e1 = match parse_tok_lit_exec(s, e0, "\"avatar\"") {
        Some(j) => j,
        None => {
            return None;
        },
    };
    let e2 = match parse_tok_char_exec(s, e1, ':') {
        Some(j) => j,
        None => {
            return None;
        },
    };
    let (avatar, e3) = match parse_opt_str_exec(s, e2) {
        Some(p) => p,
        None => {
            return None;
        },
    };
    let f0 = match parse_tok_char_exec(s, e3, ',') {
        Some(j) => j,
        None => {
            return None;
        },
    };
    let f1 = match parse_tok_lit_exec(s, f0, "\"accent_color\"") {
        Some(j) => j,
        None => {
            return None;
        },
    };
    let f2 = match parse_tok_char_exec(s, f1, ':') {
        Some(j) => j,
        None => {
            return None;
        },
    };
    let (accent_color, f3) = match parse_opt_int_exec(s, f2) {
        Some(p) => p,
        None => {
            return None;
        },
    };
    let f4 = match parse_tok_char_exec(s, f3, '}') {
        Some(j) => j,
        None => {
            return None;
        },
    };
    let user = DiscordUser {
        id: chars_to_string(id),
        username: chars_to_string(username),
        discriminator: chars_to_string(discriminator),
        global_name,
        avatar,
        accent_color,
    };
    Some((user, f4))
}

/// A chat object.
fn parse_chat_exec(s: &str, i: usize) -> (r: Option<(ChatMessage, usize)>)
    requires
        i <= s@.len(),
    ensures
        match r {
            Some(p) => parse_chat(s@, i as int) == Some((p.0@, p.1 as int)) && i <= p.1 && p.1
                <= s@.len(),
            None => parse_chat(s@, i as int) == None::<(ChatView, int)>,
        },
{
    let a0 = match parse_tok_char_exec(s, i, '{') {
        Some(j) => j,
        None => {
            return None;
        },
    };
    let a1 = match parse_tok_lit_exec(s, a0, "\"author\"") {
        Some(j) => j,
        None => {
            return None;
        },
    };
    let a2 = match parse_tok_char_exec(s, a1, ':') {
        Some(j) => j,
        None => {
            return None;
        },
    };
    let (author, a3) = match parse_jstring_exec(s, a2) {
        Some(p) => p,
        None => {
            return None;
        },
    };
    let b0 = match parse_tok_char_exec(s, a3, ',') {
        Some(j) => j,
        None => {
            return None;
        },
    };
    let b1 = match parse_tok_lit_exec(s, b0, "\"content\"") {
        Some(j) => j,
        None => {
            return None;
        },
    };
    let b2 = match parse_tok_char_exec(s, b1, ':') {
        Some(j) => j,
        None => {
            return None;
        },
    };
    let (content, b3) = match parse_jstring_exec(s, b2) {
        Some(p) => p,
        None => {
            return None;
        },
    };
    let b4 = match parse_tok_char_exec(s, b3, '}') {
        Some(j) => j,
        None => {
            return None;
        },
    };
    let chat = ChatMessage { author: chars_to_string(author), content: chars_to_string(content) };
    Some((chat, b4))
}

/// One or more presence entries, through the closing brace.
fn parse_users_entries_exec(s: &str, i: usize, fuel: usize) -> (r: Option<(Vec<PresenceEntry>, usize)>)
    requires
        i <= s@.len(),
    ensures
        match r {
            Some(p) => parse_users_entries(s@, i as int, fuel as nat) == Some(
                (p.0@.map_values(|e: PresenceEntry| e@), p.1 as int),
            ) && i <= p.1 && p.1 <= s@.len(),
            None => parse_users_entries(s@, i as int, fuel as nat) == None::<(
                Seq<PresenceEntryView>,
                int,
            )>,
        },
    decreases fuel,
{
    if fuel == 0 {
        return None;
    }
    let (id, j) = match parse_jstring_exec(s, i) {
        Some(p) => p,
        None => {
            return None;
        },
    };
    let j2 = match parse_tok_char_exec(s, j, ':') {
        Some(j2) => j2,
        None => {
            return None;
        },
    };
    let (u, k) = match parse_user_exec(s, j2) {
        Some(p) => p,
        None => {
            return None;
        },
    };
    let entry = PresenceEntry { identity: chars_to_string(id), profile: u };
    match parse_tok_char_exec(s, k, ',') {
        Some(k2) => match parse_users_entries_exec(s, k2, fuel - 1) {
            Some((rest, m)) => {
                let mut rest = rest;
                let ghost tail = rest@.map_values(|e: PresenceEntry| e@);
                rest.insert(0, entry);
                proof {
                    assert(rest@.map_values(|e: PresenceEntry| e@) =~= seq![rest@[0]@] + tail);
                }
                Some((rest, m))
            },
            None => None,
        },
        None => match parse_tok_char_exec(s, k, '}') {
            Some(k2) => {
                let mut out: Vec<PresenceEntry> = Vec::new();
                out.push(entry);
                proof {
                    assert(out@.map_values(|e: PresenceEntry| e@) =~= seq![out@[0]@]);
                }
                Some((out, k2))
            },
            None => None,
        },
    }
}

/// A presence mapping object.
fn parse_users_exec(s: &str, i: usize) -> (r: Option<(Vec<PresenceEntry>, usize)>)
    requires
        i <= s@.len(),
    ensures
        match r {
            Some(p) => parse_users(s@, i as int) == Some(
                (p.0@.map_values(|e: PresenceEntry| e@), p.1 as int),
            ) && i <= p.1 && p.1 <= s@.len(),
            None => parse_users(s@, i as int) == None::<(Seq<PresenceEntryView>, int)>,
        },
{
    let sl = s.unicode_len();
    let a0 = match parse_tok_char_exec(s, i, '{') {
        Some(j) => j,
        None => {
            return None;
        },
    };
    match parse_tok_char_exec(s, a0, '}') {
        Some(a1) => {
            let out: Vec<PresenceEntry> = Vec::new();
            proof {
                assert(out@.map_values(|e: PresenceEntry| e@) =~= Seq::<
                    PresenceEntryView,
                >::empty());
            }
            Some((out, a1))
        },
        None => parse_users_entries_exec(s, a0, sl),
    }
}

/// Decode wire text to the envelope it denotes, if it denotes one.
pub fn decode_message(s: &str) -> (r: Option<WebsocketMessage>)
    ensures
        match r {
            Some(m) => spec_decode(s@) == Some(m@),
            None => spec_decode(s@) == None::<MessageView>,
        },
{
    let sl = s.unicode_len();
    let a0 = match parse_tok_char_exec(s, 0, '{') {
        Some(j) => j,
        None => {
            return None;
        },
    };
    let a1 = match parse_tok_lit_exec(s, a0, "\"type\"") {
        Some(j) => j,
        None => {
            return None;
        },
    };
    let a2 = match parse_tok_char_exec(s, a1, ':') {
        Some(j) => j,
        None => {
            return None;
        },
    };
    match parse_tok_lit_exec(s, a2, "\"Session\"") {
        Some(v) => {
            let p = match decode_data_exec(s, v) {
                Some(p) => p,
                None => {
                    return None;
                },
            };
            let (u, m) = match parse_user_exec(s, p) {
                Some(q) => q,
                None => {
                    return None;
                },
            };
            if decode_end_exec(s, m) {
                Some(WebsocketMessage::Session(u))
            } else {
                None
            }
        },
        None => match parse_tok_lit_exec(s, a2, "\"ConnectedUsers\"") {
            Some(v) => {
                let p = match decode_data_exec(s, v) {
                    Some(p) => p,
                    None => {
                        return None;
                    },
                };
                let (es, m) = match parse_users_exec(s, p) {
                    Some(q) => q,
                    None => {
                        return None;
                    },
                };
                if decode_end_exec(s, m) {
                    Some(WebsocketMessage::ConnectedUsers(es))
                } else {
                    None
                }
            },
            None => match parse_tok_lit_exec(s, a2, "\"Message\"") {
                Some(v) => {
                    let p = match decode_data_exec(s, v) {
                        Some(p) => p,
                        None => {
                            return None;
                        },
                    };
                    let (c, m) = match parse_chat_exec(s, p) {
                        Some(q) => q,
                        None => {
                            return None;
                        },
                    };
                    if decode_end_exec(s, m) {
                        Some(WebsocketMessage::Message(c))
                    } else {
                        None
                    }
                },
                None => match parse_tok_lit_exec(s, a2, "\"Disconnect\"") {
                    Some(v) => {
                        let p = match decode_data_exec(s, v) {
                            Some(p) => p,
                            None => {
                                return None;
                            },
                        };
                        let (t, m) = match parse_jstring_exec(s, p) {
                            Some(q) => q,
                            None => {
                                return None;
                            },
                        };
                        if decode_end_exec(s, m) {
                            Some(WebsocketMessage::Disconnect(chars_to_string(t)))
                        } else {
                            None
                        }
                    },
                    None => None,
                },
            },
        },
    }
}

/// The `,"data":` tokens between the variant tag and the payload.
fn decode_data_exec(s: &str, i: usize) -> (r: Option<usize>)
    requires
        i <= s@.len(),
    ensures
        match r {
            Some(j) => spec_decode_data(s@, i as int) == Some(j as int) && i <= j && j <= s@.len(),
            None => spec_decode_data(s@, i as int) == None::<int>,
        },
{
    let b0 = match parse_tok_char_exec(s, i, ',') {
        Some(j) => j,
        None => {
            return None;
        },
    };
    let b1 = match parse_tok_lit_exec(s, b0, "\"data\"") {
        Some(j) => j,
        None => {
            return None;
        },
    };
    parse_tok_char_exec(s, b1, ':')
}

/// The closing brace of the envelope and the end of the text.
fn decode_end_exec(s: &str, i: usize) -> (r: bool)
    requires
        i <= s@.len(),
    ensures
        r == spec_decode_end(s@, i as int),
{
    let sl = s.unicode_len();
    match parse_tok_char_exec(s, i, '}') {
        Some(e) => skip_jws_exec(s, e) == sl,
        None => false,
    }
}

// ---------------------------------------------------------------------------
// Round trip: a canonical encoding decodes to what was encoded
// ---------------------------------------------------------------------------

/// A character's numeric value is the same through either integer cast.
proof fn lemma_char_cast_eq(c: char)
    ensures
        c as int == c as u32 as int,
{
}

/// A control character survives the trip through its code.
proof fn lemma_char_code_round_trip(c: char)
    requires
        (c as u32) < 32,
    ensures
        (((c as u32) as u8) as char) == c,
{
}

/// `hex_val` inverts `hex_char`.
proof fn lemma_hex_char_val(d: int)
    requires
        0 <= d < 16,
    ensures
        hex_val(hex_char(d)) == Some(d),
{
}

/// The string-body parser inverts escaping: if the characters from `i` up
/// to `j` are the escape of `r` and a closing quote stands at `j`, the
/// parser yields exactly `r` and stops just past the quote.
proof fn lemma_parse_body_of_escape(s: Seq<char>, i: int, r: Seq<char>, j: int)
    requires
        0 <= i <= j < s.len(),
        s.subrange(i, j) == escape(r),
        s[j] == '"',
    ensures
        parse_string_body(s, i) == Some((r, j + 1)),
    decreases r.len(),
{
    if r.len() == 0 {
        assert(escape(r).len() == 0);
        assert(i == j);
        assert(r =~= Seq::<char>::empty());
    } else {
        let c = r[0];
        let u = escape_char(c);
        let k = u.len() as int;
        assert(escape(r) == u + escape(r.skip(1)));
        assert(escape(r.skip(1)).len() >= 0);
        assert(k <= j - i) by {
            assert(escape(r).len() == k + escape(r.skip(1)).len());
        }
        assert forall|t: int| 0 <= t < k implies s[i + t] == u[t] by {
            assert(s.subrange(i, j)[t] == s[i + t]);
            assert((u + escape(r.skip(1)))[t] == u[t]);
        }
        assert(s.subrange(i + k, j) =~= escape(r.skip(1))) by {
            assert forall|t: int| 0 <= t < j - (i + k) implies s.subrange(i + k, j)[t] == escape(
                r.skip(1),
            )[t] by {
                assert(s.subrange(i, j)[k + t] == s[i + k + t]);
                assert((u + escape(r.skip(1)))[k + t] == escape(r.skip(1))[t]);
            }
        }
        if i + k <= j {
            lemma_parse_body_of_escape(s, i + k, r.skip(1), j);
        }
        assert(seq![c] + r.skip(1) =~= r);
        if c == '"' {
            assert(s[i] == '\\' && s[i + 1] == '"');
            assert(parse_string_body(s, i) == Some((seq!['"'] + r.skip(1), j + 1)));
        } else if c == '\\' {
            assert(s[i] == '\\' && s[i + 1] == '\\');
        } else if c == '\n' {
            assert(s[i] == '\\' && s[i + 1] == 'n');
        } else if c == '\r' {
            assert(s[i] == '\\' && s[i + 1] == 'r');
        } else if c == '\t' {
            assert(s[i] == '\\' && s[i + 1] == 't');
        } else if c == '\u{8}' {
            assert(s[i] == '\\' && s[i + 1] == 'b');
        } else if c == '\u{c}' {
            assert(s[i] == '\\' && s[i + 1] == 'f');
        } else if (c as int) < 32 {
            let v = c as int;
            lemma_char_cast_eq(c);
            assert(0 <= v < 32);
            assert(s[i] == '\\' && s[i + 1] == 'u' && s[i + 2] == '0' && s[i + 3] == '0');
            assert(s[i + 4] == hex_char(v / 16) && s[i + 5] == hex_char(v % 16));
            lemma_hex_char_val(v / 16);
            lemma_hex_char_val(v % 16);
            assert(16 * (v / 16) + v % 16 == v);
            lemma_char_code_round_trip(c);
            assert((v as u8) as int == v);
            assert(((c as u32) as u8) as int == c as u32 as int);
            assert((v as u8) == ((c as u32) as u8));
            assert(((v as u8) as char) == c);
        } else {
            assert(s[i] == c);
            assert(c as int >= 32);
        }
    }
}

/// A literal present at `i` parses.
proof fn lemma_parse_lit_hit(s: Seq<char>, i: int, lit: Seq<char>)
    requires
        0 <= i,
        i + lit.len() <= s.len(),
        s.subrange(i, i + lit.len()) == lit,
    ensures
        parse_lit(s, i, lit) == Some(i + lit.len()),
{
}

/// Whitespace skipping stands still on a significant character.
proof fn lemma_skip_jws_at(s: Seq<char>, i: int)
    requires
        0 <= i <= s.len(),
        i < s.len() ==> !is_jws(s[i]),
    ensures
        skip_jws(s, i) == i,
{
}

/// A single-character token standing at `i` parses.
proof fn lemma_tok_char_hit(s: Seq<char>, i: int, c: char)
    requires
        0 <= i < s.len(),
        s[i] == c,
        !is_jws(c),
    ensures
        parse_tok_char(s, i, c) == Some(i + 1),
{
    lemma_skip_jws_at(s, i);
}

/// A token of a different significant character fails to parse.
proof fn lemma_tok_char_miss(s: Seq<char>, i: int, c: char)
    requires
        0 <= i <= s.len(),
        i < s.len() ==> !is_jws(s[i]) && s[i] != c,
    ensures
        parse_tok_char(s, i, c) == None::<int>,
{
    lemma_skip_jws_at(s, i);
}

/// A literal token standing at `i` parses.
proof fn lemma_tok_lit_hit(s: Seq<char>, i: int, lit: Seq<char>)
    requires
        0 <= i,
        lit.len() > 0,
        i + lit.len() <= s.len(),
        s.subrange(i, i + lit.len()) == lit,
        !is_jws(lit[0]),
    ensures
        parse_tok_lit(s, i, lit) == Some(i + lit.len()),
{
    assert(s[i] == lit[0]) by {
        assert(s.subrange(i, i + lit.len())[0] == s[i]);
    }
    lemma_skip_jws_at(s, i);
    lemma_parse_lit_hit(s, i, lit);
}

/// A literal token whose character at index `t` differs fails to parse;
/// the position itself must hold a significant character.
proof fn lemma_tok_lit_miss(s: Seq<char>, i: int, lit: Seq<char>, t: int)
    requires
        0 <= i <= s.len(),
        0 <= t < lit.len(),
        i < s.len() ==> !is_jws(s[i]),
        i + t < s.len() ==> s[i + t] != lit[t],
    ensures
        parse_tok_lit(s, i, lit) == None::<int>,
{
    lemma_skip_jws_at(s, i);
    if i + lit.len() <= s.len() {
        assert(i + t < s.len());
        if s.subrange(i, i + lit.len()) == lit {
            assert(s.subrange(i, i + lit.len())[t] == s[i + t]);
        }
    }
}

/// A JSON string token standing at `i` parses to the string it encodes.
proof fn lemma_parse_jstring_at(s: Seq<char>, i: int, r: Seq<char>)
    requires
        0 <= i,
        i + jstr(r).len() <= s.len(),
        s.subrange(i, i + jstr(r).len()) == jstr(r),
    ensures
        parse_jstring(s, i) == Some((r, i + jstr(r).len())),
{
    let jl = jstr(r).len() as int;
    let el = escape(r).len() as int;
    assert(jl == el + 2);
    assert(s[i] == '"') by {
        assert(s.subrange(i, i + jl)[0] == s[i]);
        assert(jstr(r)[0] == '"');
    }
    lemma_skip_jws_at(s, i);
    assert(s.subrange(i + 1, i + 1 + el) =~= escape(r)) by {
        assert forall|t: int| 0 <= t < el implies s.subrange(i + 1, i + 1 + el)[t] == escape(r)[t] by {
            assert(s.subrange(i, i + jl)[1 + t] == s[i + 1 + t]);
            assert(jstr(r)[1 + t] == escape(r)[t]);
        }
    }
    assert(s[i + 1 + el] == '"') by {
        assert(s.subrange(i, i + jl)[jl - 1] == s[i + jl - 1]);
        assert(jstr(r)[jl - 1] == '"');
    }
    lemma_parse_body_of_escape(s, i + 1, r, i + 1 + el);
}

/// Every character of `ds` is a decimal digit.
spec fn all_digits(ds: Seq<char>) -> bool {
    forall|t: int| 0 <= t < ds.len() ==> is_digit(#[trigger] ds[t])
}

/// The value of reading `ds` left to right on top of `acc`.
spec fn left_val(acc: int, ds: Seq<char>) -> int
    decreases ds.len(),
{
    if ds.len() == 0 {
        acc
    } else {
        left_val(acc * 10 + digit_val(ds[0]), ds.skip(1))
    }
}

/// `digit_val` inverts `digit_char`.
proof fn lemma_digit_char_val(d: int)
    requires
        0 <= d < 10,
    ensures
        is_digit(digit_char(d)),
        digit_val(digit_char(d)) == d,
{
}

/// The decimal digits of a value are digits, and there is at least one.
proof fn lemma_dec_digits_are_digits(v: nat)
    ensures
        dec_digits(v).len() > 0,
        all_digits(dec_digits(v)),
    decreases v,
{
    if v < 10 {
        lemma_digit_char_val(v as int);
    } else {
        lemma_dec_digits_are_digits(v / 10);
        lemma_digit_char_val((v % 10) as int);
        assert forall|t: int| 0 <= t < dec_digits(v).len() implies is_digit(
            #[trigger] dec_digits(v)[t],
        ) by {
            if t < dec_digits(v / 10).len() {
                assert(dec_digits(v)[t] == dec_digits(v / 10)[t]);
            }
        }
    }
}

/// Reading one more digit multiplies the value by ten and adds it.
proof fn lemma_left_val_snoc(acc: int, ds: Seq<char>, d: char)
    ensures
        left_val(acc, ds.push(d)) == left_val(acc, ds) * 10 + digit_val(d),
    decreases ds.len(),
{
    if ds.len() == 0 {
        assert(ds.push(d)[0] == d);
        assert(ds.push(d).skip(1) =~= Seq::<char>::empty());
        assert(left_val(acc * 10 + digit_val(d), Seq::<char>::empty()) == acc * 10 + digit_val(
            d,
        ));
        assert(left_val(acc, ds) == acc);
    } else {
        assert(ds.push(d)[0] == ds[0]);
        assert(ds.push(d).skip(1) =~= ds.skip(1).push(d));
        lemma_left_val_snoc(acc * 10 + digit_val(ds[0]), ds.skip(1), d);
        assert(left_val(acc, ds.push(d)) == left_val(acc * 10 + digit_val(ds[0]), ds.skip(1).push(
            d,
        )));
        assert(left_val(acc, ds) == left_val(acc * 10 + digit_val(ds[0]), ds.skip(1)));
    }
}

/// Reading back the decimal digits of `v` yields `v`.
proof fn lemma_left_val_of_dec_digits(v: nat)
    ensures
        left_val(0, dec_digits(v)) == v,
    decreases v,
{
    if v < 10 {
        lemma_digit_char_val(v as int);
        assert(dec_digits(v) == seq![digit_char(v as int)]);
        assert(dec_digits(v).skip(1) =~= Seq::<char>::empty());
        assert(left_val(0, dec_digits(v)) == left_val(digit_val(digit_char(v as int)), dec_digits(
            v,
        ).skip(1)));
        assert(left_val(digit_val(digit_char(v as int)), Seq::<char>::empty()) == v);
    } else {
        lemma_left_val_of_dec_digits(v / 10);
        lemma_digit_char_val((v % 10) as int);
        lemma_left_val_snoc(0, dec_digits(v / 10), digit_char((v % 10) as int));
        assert(dec_digits(v) == dec_digits(v / 10).push(digit_char((v % 10) as int)));
        assert(left_val(0, dec_digits(v)) == (v / 10) * 10 + (v % 10));
    }
}

/// Reading digits never decreases a nonnegative accumulator.
proof fn lemma_left_val_lower(acc: int, ds: Seq<char>)
    requires
        0 <= acc,
        all_digits(ds),
    ensures
        left_val(acc, ds) >= acc,
    decreases ds.len(),
{
    if ds.len() > 0 {
        assert(is_digit(ds[0]));
        assert(all_digits(ds.skip(1))) by {
            assert forall|t: int| 0 <= t < ds.skip(1).len() implies is_digit(
                #[trigger] ds.skip(1)[t],
            ) by {
                assert(ds.skip(1)[t] == ds[t + 1]);
            }
        }
        lemma_left_val_lower(acc * 10 + digit_val(ds[0]), ds.skip(1));
    }
}

/// The digit parser reads exactly a maximal digit run.
proof fn lemma_parse_number_at(s: Seq<char>, i: int, ds: Seq<char>, acc: int)
    requires
        0 <= i,
        i + ds.len() <= s.len(),
        ds.len() > 0,
        all_digits(ds),
        s.subrange(i, i + ds.len()) == ds,
        i + ds.len() < s.len() ==> !is_digit(s[i + ds.len()]),
        0 <= acc,
        left_val(acc, ds) <= 2147483648,
    ensures
        parse_number(s, i, acc) == Some((left_val(acc, ds), i + ds.len())),
    decreases ds.len(),
{
    assert(s[i] == ds[0]) by {
        assert(s.subrange(i, i + ds.len())[0] == s[i]);
    }
    assert(is_digit(s[i]));
    let acc2 = acc * 10 + digit_val(s[i]);
    assert(all_digits(ds.skip(1))) by {
        assert forall|t: int| 0 <= t < ds.skip(1).len() implies is_digit(
            #[trigger] ds.skip(1)[t],
        ) by {
            assert(ds.skip(1)[t] == ds[t + 1]);
        }
    }
    assert(left_val(acc, ds) == left_val(acc2, ds.skip(1)));
    lemma_left_val_lower(acc2, ds.skip(1));
    assert(acc2 <= 2147483648);
    assert(parse_number(s, i, acc) == parse_number(s, i + 1, acc2));
    if ds.len() == 1 {
        assert(left_val(acc, ds) == acc2);
        assert(parse_number(s, i + 1, acc2) == Some((acc2, i + 1)));
    } else {
        assert(s.subrange(i + 1, i + ds.len()) =~= ds.skip(1)) by {
            assert forall|t: int| 0 <= t < ds.len() - 1 implies s.subrange(
                i + 1,
                i + ds.len(),
            )[t] == ds.skip(1)[t] by {
                assert(s.subrange(i, i + ds.len())[t + 1] == s[i + 1 + t]);
            }
        }
        lemma_parse_number_at(s, i + 1, ds.skip(1), acc2);
    }
}

/// A JSON integer standing at `i` parses to the value it encodes.
proof fn lemma_parse_int_at(s: Seq<char>, i: int, n: i32)
    requires
        0 <= i,
        i + jint(n as int).len() <= s.len(),
        s.subrange(i, i + jint(n as int).len()) == jint(n as int),
        i + jint(n as int).len() < s.len() ==> !is_digit(s[i + jint(n as int).len()]),
    ensures
        parse_int(s, i) == Some((n, i + jint(n as int).len())),
{
    let jl = jint(n as int).len() as int;
    if n >= 0 {
        let ds = dec_digits(n as nat);
        lemma_dec_digits_are_digits(n as nat);
        lemma_left_val_of_dec_digits(n as nat);
        assert(s[i] == ds[0]) by {
            assert(s.subrange(i, i + jl)[0] == s[i]);
        }
        assert(is_digit(s[i]));
        assert(s[i] != '-') by {
            assert('-' as int == 45);
        }
        lemma_parse_number_at(s, i, ds, 0);
        assert((n as int) as i32 == n);
    } else {
        let ds = dec_digits((-(n as int)) as nat);
        lemma_dec_digits_are_digits((-(n as int)) as nat);
        lemma_left_val_of_dec_digits((-(n as int)) as nat);
        assert(jint(n as int) == seq!['-'] + ds);
        assert(s[i] == '-') by {
            assert(s.subrange(i, i + jl)[0] == s[i]);
            assert((seq!['-'] + ds)[0] == '-');
        }
        assert(s.subrange(i + 1, i + jl) =~= ds) by {
            assert forall|t: int| 0 <= t < jl - 1 implies s.subrange(i + 1, i + jl)[t] == ds[t] by {
                assert(s.subrange(i, i + jl)[t + 1] == s[i + 1 + t]);
                assert((seq!['-'] + ds)[t + 1] == ds[t]);
            }
        }
        assert(s[i + 1] == ds[0]) by {
            assert(s.subrange(i + 1, i + jl)[0] == s[i + 1]);
        }
        assert(is_digit(s[i + 1]));
        assert(-(n as int) <= 2147483648);
        lemma_parse_number_at(s, i + 1, ds, 0);
        assert((-(-(n as int))) as i32 == n);
    }
}

/// A piece of a known region of `s` is itself a known region of `s`.
proof fn lemma_piece(s: Seq<char>, i: int, whole: Seq<char>, off: int, piece: Seq<char>)
    requires
        0 <= i,
        i + whole.len() <= s.len(),
        s.subrange(i, i + whole.len()) == whole,
        0 <= off,
        off + piece.len() <= whole.len(),
        whole.subrange(off, off + piece.len()) == piece,
    ensures
        s.subrange(i + off, i + off + piece.len()) == piece,
{
    assert forall|t: int| 0 <= t < piece.len() implies s.subrange(
        i + off,
        i + off + piece.len(),
    )[t] == piece[t] by {
        assert(s.subrange(i, i + whole.len())[off + t] == s[i + off + t]);
        assert(whole.subrange(off, off + piece.len())[t] == whole[off + t]);
    }
    assert(s.subrange(i + off, i + off + piece.len()) =~= piece);
}

/// An optional string standing at `i` parses to the option it encodes.
proof fn lemma_parse_opt_str_at(s: Seq<char>, i: int, o: Option<Seq<char>>)
    requires
        0 <= i,
        i + jopt_str(o).len() <= s.len(),
        s.subrange(i, i + jopt_str(o).len()) == jopt_str(o),
    ensures
        parse_opt_str(s, i) == Some((o, i + jopt_str(o).len())),
{
    reveal_strlit("null");
    match o {
        None => {
            lemma_tok_lit_hit(s, i, ("null")@);
        },
        Some(r) => {
            assert(s[i] == '"') by {
                assert(s.subrange(i, i + jstr(r).len())[0] == s[i]);
                assert(jstr(r)[0] == '"');
            }
            lemma_tok_lit_miss(s, i, ("null")@, 0);
            lemma_parse_jstring_at(s, i, r);
        },
    }
}

/// An optional integer standing at `i` parses to the option it encodes.
proof fn lemma_parse_opt_int_at(s: Seq<char>, i: int, o: Option<i32>)
    requires
        0 <= i,
        i + jopt_int(o).len() <= s.len(),
        s.subrange(i, i + jopt_int(o).len()) == jopt_int(o),
        i + jopt_int(o).len() < s.len() ==> !is_digit(s[i + jopt_int(o).len()]),
    ensures
        parse_opt_int(s, i) == Some((o, i + jopt_int(o).len())),
{
    reveal_strlit("null");
    match o {
        None => {
            lemma_tok_lit_hit(s, i, ("null")@);
        },
        Some(n) => {
            let w = jint(n as int);
            assert(s[i] == w[0]) by {
                assert(s.subrange(i, i + w.len())[0] == s[i]);
            }
            if n >= 0 {
                lemma_dec_digits_are_digits(n as nat);
                assert(is_digit(w[0]));
                assert(s[i] != 'n' && !is_jws(s[i])) by {
                    assert('n' as int == 110);
                }
            } else {
                lemma_dec_digits_are_digits((-(n as int)) as nat);
                assert(w[0] == '-') by {
                    assert((seq!['-'] + dec_digits((-(n as int)) as nat))[0] == '-');
                }
                assert(s[i] != 'n' && !is_jws(s[i])) by {
                    assert('n' as int == 110);
                    assert('-' as int == 45);
                }
            }
            lemma_tok_lit_miss(s, i, ("null")@, 0);
            lemma_parse_int_at(s, i, n);
        },
    }
}

/// A chat object standing at `i` parses to the chat line it encodes.
proof fn lemma_parse_chat_at(s: Seq<char>, i: int, c: ChatView)
    requires
        0 <= i,
        i + jchat(c).len() <= s.len(),
        s.subrange(i, i + jchat(c).len()) == jchat(c),
    ensures
        parse_chat(s, i) == Some((c, i + jchat(c).len())),
{
    reveal_strlit("{\"author\":");
    reveal_strlit(",\"content\":");
    reveal_strlit("}");
    reveal_strlit("\"author\"");
    reveal_strlit("\"content\"");
    let l1 = ("{\"author\":")@;
    let ja = jstr(c.author);
    let l2 = (",\"content\":")@;
    let jc = jstr(c.content);
    let l3 = ("}")@;
    let w = jchat(c);
    assert(w == l1 + ja + l2 + jc + l3);
    let o1 = l1.len() as int;
    let o2 = o1 + ja.len();
    let o3 = o2 + l2.len();
    let o4 = o3 + jc.len();
    assert(w.subrange(0, o1) =~= l1);
    assert(w.subrange(o1, o2) =~= ja);
    assert(w.subrange(o2, o3) =~= l2);
    assert(w.subrange(o3, o4) =~= jc);
    assert(w.subrange(o4, o4 + 1) =~= l3);
    lemma_piece(s, i, w, 0, l1);
    let ghost sl1 = s.subrange(i, i + o1);
    assert(s[i] == '{') by {
        assert(sl1[0] == s[i]);
    }
    lemma_tok_char_hit(s, i, '{');
    assert(s.subrange(i + 1, i + 9) =~= ("\"author\"")@) by {
        assert forall|t: int| 0 <= t < 8 implies s.subrange(i + 1, i + 9)[t] == ("\"author\"")@[t] by {
            assert(sl1[1 + t] == s[i + 1 + t]);
        }
    }
    lemma_tok_lit_hit(s, i + 1, ("\"author\"")@);
    assert(s[i + 9] == ':') by {
        assert(sl1[9] == s[i + 9]);
    }
    lemma_tok_char_hit(s, i + 9, ':');
    lemma_piece(s, i, w, o1, ja);
    lemma_parse_jstring_at(s, i + o1, c.author);
    lemma_piece(s, i, w, o2, l2);
    let ghost sl2 = s.subrange(i + o2, i + o3);
    assert(s[i + o2] == ',') by {
        assert(sl2[0] == s[i + o2]);
    }
    lemma_tok_char_hit(s, i + o2, ',');
    assert(s.subrange(i + o2 + 1, i + o2 + 10) =~= ("\"content\"")@) by {
        assert forall|t: int|
            0 <= t < 9 implies s.subrange(i + o2 + 1, i + o2 + 10)[t] == ("\"content\"")@[t] by {
            assert(sl2[1 + t] == s[i + o2 + 1 + t]);
        }
    }
    lemma_tok_lit_hit(s, i + o2 + 1, ("\"content\"")@);
    assert(s[i + o2 + 10] == ':') by {
        assert(sl2[10] == s[i + o2 + 10]);
    }
    lemma_tok_char_hit(s, i + o2 + 10, ':');
    lemma_piece(s, i, w, o3, jc);
    lemma_parse_jstring_at(s, i + o3, c.content);
    lemma_piece(s, i, w, o4, l3);
    assert(s[i + o4] == '}') by {
        assert(s.subrange(i + o4, i + o4 + 1)[0] == s[i + o4]);
    }
    lemma_tok_char_hit(s, i + o4, '}');
}

/// A profile object standing at `i` parses to the profile it encodes.
#[verifier::rlimit(100)]
proof fn lemma_parse_user_at(s: Seq<char>, i: int, u: UserView)
    requires
        0 <= i,
        i + juser(u).len() <= s.len(),
        s.subrange(i, i + juser(u).len()) == juser(u),
    ensures
        parse_user(s, i) == Some((u, i + juser(u).len())),
{
    reveal_strlit("{\"id\":");
    reveal_strlit(",\"username\":");
    reveal_strlit(",\"discriminator\":");
    reveal_strlit(",\"global_name\":");
    reveal_strlit(",\"avatar\":");
    reveal_strlit(",\"accent_color\":");
    reveal_strlit("}");
    reveal_strlit("\"id\"");
    reveal_strlit("\"username\"");
    reveal_strlit("\"discriminator\"");
    reveal_strlit("\"global_name\"");
    reveal_strlit("\"avatar\"");
    reveal_strlit("\"accent_color\"");
    let l1 = ("{\"id\":")@;
    let p1 = jstr(u.id);
    let l2 = (",\"username\":")@;
    let p2 = jstr(u.username);
    let l3 = (",\"discriminator\":")@;
    let p3 = jstr(u.discriminator);
    let l4 = (",\"global_name\":")@;
    let p4 = jopt_str(u.global_name);
    let l5 = (",\"avatar\":")@;
    let p5 = jopt_str(u.avatar);
    let l6 = (",\"accent_color\":")@;
    let p6 = jopt_int(u.accent_color);
    let l7 = ("}")@;
    let w = juser(u);
    assert(w == l1 + p1 + l2 + p2 + l3 + p3 + l4 + p4 + l5 + p5 + l6 + p6 + l7);
    let a1 = l1.len() as int;
    let a2 = a1 + p1.len();
    let a3 = a2 + l2.len();
    let a4 = a3 + p2.len();
    let a5 = a4 + l3.len();
    let a6 = a5 + p3.len();
    let a7 = a6 + l4.len();
    let a8 = a7 + p4.len();
    let a9 = a8 + l5.len();
    let a10 = a9 + p5.len();
    let a11 = a10 + l6.len();
    let a12 = a11 + p6.len();
    assert(w.subrange(0, a1) =~= l1);
    assert(w.subrange(a1, a2) =~= p1);
    assert(w.subrange(a2, a3) =~= l2);
    assert(w.subrange(a3, a4) =~= p2);
    assert(w.subrange(a4, a5) =~= l3);
    assert(w.subrange(a5, a6) =~= p3);
    assert(w.subrange(a6, a7) =~= l4);
    assert(w.subrange(a7, a8) =~= p4);
    assert(w.subrange(a8, a9) =~= l5);
    assert(w.subrange(a9, a10) =~= p5);
    assert(w.subrange(a10, a11) =~= l6);
    assert(w.subrange(a11, a12) =~= p6);
    assert(w.subrange(a12, a12 + 1) =~= l7);
    lemma_piece(s, i, w, 0, l1);
    let ghost sl1 = s.subrange(i, i + a1);
    assert(s[i] == '{') by {
        assert(sl1[0] == s[i]);
    }
    lemma_tok_char_hit(s, i, '{');
    assert(s.subrange(i + 1, i + 5) =~= ("\"id\"")@) by {
        assert forall|t: int| 0 <= t < 4 implies s.subrange(i + 1, i + 5)[t] == ("\"id\"")@[t] by {
            assert(sl1[1 + t] == s[i + 1 + t]);
        }
    }
    lemma_tok_lit_hit(s, i + 1, ("\"id\"")@);
    assert(s[i + 5] == ':') by {
        assert(sl1[5] == s[i + 5]);
    }
    lemma_tok_char_hit(s, i + 5, ':');
    lemma_piece(s, i, w, a1, p1);
    lemma_parse_jstring_at(s, i + a1, u.id);
    lemma_piece(s, i, w, a2, l2);
    let ghost sl2 = s.subrange(i + a2, i + a3);
    assert(s[i + a2] == ',') by {
        assert(sl2[0] == s[i + a2]);
    }
    lemma_tok_char_hit(s, i + a2, ',');
    assert(s.subrange(i + a2 + 1, i + a2 + 11) =~= ("\"username\"")@) by {
        assert forall|t: int|
            0 <= t < 10 implies s.subrange(i + a2 + 1, i + a2 + 11)[t] == ("\"username\"")@[t] by {
            assert(sl2[1 + t] == s[i + a2 + 1 + t]);
        }
    }
    lemma_tok_lit_hit(s, i + a2 + 1, ("\"username\"")@);
    assert(s[i + a2 + 11] == ':') by {
        assert(sl2[11] == s[i + a2 + 11]);
    }
    lemma_tok_char_hit(s, i + a2 + 11, ':');
    lemma_piece(s, i, w, a3, p2);
    lemma_parse_jstring_at(s, i + a3, u.username);
    lemma_piece(s, i, w, a4, l3);
    let ghost sl3 = s.subrange(i + a4, i + a5);
    assert(s[i + a4] == ',') by {
        assert(sl3[0] == s[i + a4]);
    }
    lemma_tok_char_hit(s, i + a4, ',');
    assert(s.subrange(i + a4 + 1, i + a4 + 16) =~= ("\"discriminator\"")@) by {
        assert forall|t: int|
            0 <= t < 15 implies s.subrange(i + a4 + 1, i + a4 + 16)[t] == ("\"discriminator\"")@[t] by {
            assert(sl3[1 + t] == s[i + a4 + 1 + t]);
        }
    }
    lemma_tok_lit_hit(s, i + a4 + 1, ("\"discriminator\"")@);
    assert(s[i + a4 + 16] == ':') by {
        assert(sl3[16] == s[i + a4 + 16]);
    }
    lemma_tok_char_hit(s, i + a4 + 16, ':');
    lemma_piece(s, i, w, a5, p3);
    lemma_parse_jstring_at(s, i + a5, u.discriminator);
    lemma_piece(s, i, w, a6, l4);
    let ghost sl4 = s.subrange(i + a6, i + a7);
    assert(s[i + a6] == ',') by {
        assert(sl4[0] == s[i + a6]);
    }
    lemma_tok_char_hit(s, i + a6, ',');
    assert(s.subrange(i + a6 + 1, i + a6 + 14) =~= ("\"global_name\"")@) by {
        assert forall|t: int|
            0 <= t < 13 implies s.subrange(i + a6 + 1, i + a6 + 14)[t] == ("\"global_name\"")@[t] by {
            assert(sl4[1 + t] == s[i + a6 + 1 + t]);
        }
    }
    lemma_tok_lit_hit(s, i + a6 + 1, ("\"global_name\"")@);
    assert(s[i + a6 + 14] == ':') by {
        assert(sl4[14] == s[i + a6 + 14]);
    }
    lemma_tok_char_hit(s, i + a6 + 14, ':');
    lemma_piece(s, i, w, a7, p4);
    lemma_parse_opt_str_at(s, i + a7, u.global_name);
    lemma_piece(s, i, w, a8, l5);
    let ghost sl5 = s.subrange(i + a8, i + a9);
    assert(s[i + a8] == ',') by {
        assert(sl5[0] == s[i + a8]);
    }
    lemma_tok_char_hit(s, i + a8, ',');
    assert(s.subrange(i + a8 + 1, i + a8 + 9) =~= ("\"avatar\"")@) by {
        assert forall|t: int|
            0 <= t < 8 implies s.subrange(i + a8 + 1, i + a8 + 9)[t] == ("\"avatar\"")@[t] by {
            assert(sl5[1 + t] == s[i + a8 + 1 + t]);
        }
    }
    lemma_tok_lit_hit(s, i + a8 + 1, ("\"avatar\"")@);
    assert(s[i + a8 + 9] == ':') by {
        assert(sl5[9] == s[i + a8 + 9]);
    }
    lemma_tok_char_hit(s, i + a8 + 9, ':');
    lemma_piece(s, i, w, a9, p5);
    lemma_parse_opt_str_at(s, i + a9, u.avatar);
    lemma_piece(s, i, w, a10, l6);
    let ghost sl6 = s.subrange(i + a10, i + a11);
    assert(s[i + a10] == ',') by {
        assert(sl6[0] == s[i + a10]);
    }
    lemma_tok_char_hit(s, i + a10, ',');
    assert(s.subrange(i + a10 + 1, i + a10 + 15) =~= ("\"accent_color\"")@) by {
        assert forall|t: int|
            0 <= t < 14 implies s.subrange(i + a10 + 1, i + a10 + 15)[t] == ("\"accent_color\"")@[t] by {
            assert(sl6[1 + t] == s[i + a10 + 1 + t]);
        }
    }
    lemma_tok_lit_hit(s, i + a10 + 1, ("\"accent_color\"")@);
    assert(s[i + a10 + 15] == ':') by {
        assert(sl6[15] == s[i + a10 + 15]);
    }
    lemma_tok_char_hit(s, i + a10 + 15, ':');
    lemma_piece(s, i, w, a11, p6);
    assert(s[i + a12] == '}') by {
        assert(s.subrange(i + a12, i + a12 + 1)[0] == s[i + a12]) by {
            lemma_piece(s, i, w, a12, l7);
        }
        assert(l7[0] == '}');
    }
    assert(!is_digit(s[i + a12])) by {
        assert('}' as int == 125);
    }
    lemma_parse_opt_int_at(s, i + a11, u.accent_color);
    lemma_tok_char_hit(s, i + a12, '}');
}

/// The joined entries are at least as long as the entry count.
proof fn lemma_entries_len_lower(entries: Seq<PresenceEntryView>)
    ensures
        juser_entries(entries).len() >= entries.len(),
    decreases entries.len(),
{
    if entries.len() == 0 {
    } else if entries.len() == 1 {
        assert(juser_entry(entries[0]).len() >= 1);
    } else {
        lemma_entries_len_lower(entries.skip(1));
        assert(juser_entry(entries[0]).len() >= 1);
    }
}

/// Comma-joined presence entries standing at `i`, with the closing brace
/// right after them, parse to exactly those entries.
#[verifier::rlimit(100)]
proof fn lemma_parse_entries_at(s: Seq<char>, i: int, entries: Seq<PresenceEntryView>, fuel: nat)
    requires
        0 <= i,
        entries.len() > 0,
        fuel >= entries.len(),
        i + juser_entries(entries).len() < s.len(),
        s.subrange(i, i + juser_entries(entries).len()) == juser_entries(entries),
        s[i + juser_entries(entries).len()] == '}',
    ensures
        parse_users_entries(s, i, fuel) == Some(
            (entries, i + juser_entries(entries).len() + 1),
        ),
    decreases entries.len(),
{
    reveal_strlit(":");
    reveal_strlit(",");
    let e0 = entries[0];
    let w = juser_entries(entries);
    let q1 = jstr(e0.identity);
    let q2 = (":")@;
    let q3 = juser(e0.profile);
    let b1 = q1.len() as int;
    let b2 = b1 + 1;
    let b3 = b2 + q3.len();
    assert(juser_entry(e0) == q1 + q2 + q3);
    if entries.len() == 1 {
        assert(w == q1 + q2 + q3);
        assert(w.subrange(0, b1) =~= q1);
        assert(w.subrange(b1, b2) =~= q2);
        assert(w.subrange(b2, b3) =~= q3);
        lemma_piece(s, i, w, 0, q1);
        lemma_parse_jstring_at(s, i, e0.identity);
        lemma_piece(s, i, w, b1, q2);
        assert(s[i + b1] == ':') by {
            assert(s.subrange(i + b1, i + b2)[0] == s[i + b1]);
            assert(q2[0] == ':');
        }
        lemma_tok_char_hit(s, i + b1, ':');
        lemma_piece(s, i, w, b2, q3);
        lemma_parse_user_at(s, i + b2, e0.profile);
        assert(s[i + b3] == '}');
        assert(!is_jws(s[i + b3]) && s[i + b3] != ',') by {
            assert('}' as int == 125);
            assert(',' as int == 44);
        }
        lemma_tok_char_miss(s, i + b3, ',');
        lemma_tok_char_hit(s, i + b3, '}');
        assert(seq![PresenceEntryView { identity: e0.identity, profile: e0.profile }]
            =~= entries);
    } else {
        let rest = juser_entries(entries.skip(1));
        assert(w == juser_entry(e0) + (",")@ + rest);
        assert(w == q1 + q2 + q3 + (",")@ + rest) by {
            assert(w =~= q1 + q2 + q3 + (",")@ + rest);
        }
        assert(w.subrange(0, b1) =~= q1);
        assert(w.subrange(b1, b2) =~= q2);
        assert(w.subrange(b2, b3) =~= q3);
        assert(w.subrange(b3, b3 + 1) =~= (",")@);
        assert(w.subrange(b3 + 1, w.len() as int) =~= rest);
        lemma_piece(s, i, w, 0, q1);
        lemma_parse_jstring_at(s, i, e0.identity);
        lemma_piece(s, i, w, b1, q2);
        assert(s[i + b1] == ':') by {
            assert(s.subrange(i + b1, i + b2)[0] == s[i + b1]);
            assert(q2[0] == ':');
        }
        lemma_tok_char_hit(s, i + b1, ':');
        lemma_piece(s, i, w, b2, q3);
        lemma_parse_user_at(s, i + b2, e0.profile);
        lemma_piece(s, i, w, b3, (",")@);
        assert(s[i + b3] == ',') by {
            assert(s.subrange(i + b3, i + b3 + 1)[0] == s[i + b3]);
            assert((",")@[0] == ',');
        }
        lemma_tok_char_hit(s, i + b3, ',');
        lemma_piece(s, i, w, b3 + 1, rest);
        lemma_parse_entries_at(s, i + b3 + 1, entries.skip(1), (fuel - 1) as nat);
        assert(seq![PresenceEntryView { identity: e0.identity, profile: e0.profile }]
            + entries.skip(1) =~= entries);
    }
}

/// A presence mapping object standing at `i` parses to its entries.
proof fn lemma_parse_users_at(s: Seq<char>, i: int, entries: Seq<PresenceEntryView>)
    requires
        0 <= i,
        i + jusers(entries).len() <= s.len(),
        s.subrange(i, i + jusers(entries).len()) == jusers(entries),
    ensures
        parse_users(s, i) == Some((entries, i + jusers(entries).len())),
{
    reveal_strlit("{");
    reveal_strlit("}");
    let w = jusers(entries);
    let jel = juser_entries(entries).len() as int;
    assert(w == ("{")@ + juser_entries(entries) + ("}")@);
    assert(s[i] == '{') by {
        assert(s.subrange(i, i + w.len())[0] == s[i]);
        assert(w[0] == '{');
    }
    lemma_tok_char_hit(s, i, '{');
    assert(s[i + 1 + jel] == '}') by {
        assert(s.subrange(i, i + w.len())[w.len() - 1] == s[i + w.len() - 1]);
        assert(w[w.len() - 1] == '}');
    }
    if entries.len() == 0 {
        assert(jel == 0);
        assert(s[i + 1] == '}');
        lemma_tok_char_hit(s, i + 1, '}');
        assert(Seq::<PresenceEntryView>::empty() =~= entries);
    } else {
        assert(w.subrange(1, 1 + jel) =~= juser_entries(entries));
        lemma_piece(s, i, w, 1, juser_entries(entries));
        assert(s[i + 1] == juser_entries(entries)[0]) by {
            assert(s.subrange(i + 1, i + 1 + jel)[0] == s[i + 1]);
        }
        assert(juser_entries(entries)[0] == '"') by {
            assert(juser_entry(entries[0])[0] == jstr(entries[0].identity)[0]);
            assert(jstr(entries[0].identity)[0] == '"');
        }
        assert(!is_jws(s[i + 1]) && s[i + 1] != '}') by {
            assert('"' as int == 34);
            assert('}' as int == 125);
        }
        lemma_tok_char_miss(s, i + 1, '}');
        lemma_entries_len_lower(entries);
        lemma_parse_entries_at(s, i + 1, entries, s.len() as nat);
    }
}

/// The canonical wire text of a `Session` envelope decodes to it.
#[verifier::rlimit(50)]
proof fn lemma_round_trip_session(u: UserView)
    ensures
        spec_decode(spec_encode(MessageView::Session(u))) == Some(MessageView::Session(u)),
{
    reveal_strlit("{\"type\":\"Session\",\"data\":");
    reveal_strlit("\"type\"");
    reveal_strlit("\"Session\"");
    reveal_strlit("\"data\"");
    reveal_strlit("}");
    let pre = ("{\"type\":\"Session\",\"data\":")@;
    let pl = juser(u).len() as int;
    let s = pre + juser(u) + ("}")@;
    assert(pre.len() == 25);
    assert(s.len() == 26 + pl);
    assert(s[0] == '{');
    lemma_tok_char_hit(s, 0, '{');
    assert(s.subrange(1, 7) =~= ("\"type\"")@);
    lemma_tok_lit_hit(s, 1, ("\"type\"")@);
    assert(s[7] == ':');
    lemma_tok_char_hit(s, 7, ':');
    assert(s.subrange(8, 17) =~= ("\"Session\"")@);
    lemma_tok_lit_hit(s, 8, ("\"Session\"")@);
    assert(s[17] == ',');
    lemma_tok_char_hit(s, 17, ',');
    assert(s.subrange(18, 24) =~= ("\"data\"")@);
    lemma_tok_lit_hit(s, 18, ("\"data\"")@);
    assert(s[24] == ':');
    lemma_tok_char_hit(s, 24, ':');
    assert(s.subrange(25, 25 + pl) =~= juser(u));
    lemma_parse_user_at(s, 25, u);
    assert(s[25 + pl] == '}');
    lemma_tok_char_hit(s, 25 + pl, '}');
    lemma_skip_jws_at(s, 26 + pl);
}

/// The canonical wire text of a `ConnectedUsers` envelope decodes to it.
#[verifier::rlimit(50)]
proof fn lemma_round_trip_connected_users(es: Seq<PresenceEntryView>)
    ensures
        spec_decode(spec_encode(MessageView::ConnectedUsers(es))) == Some(
            MessageView::ConnectedUsers(es),
        ),
{
    reveal_strlit("{\"type\":\"ConnectedUsers\",\"data\":");
    reveal_strlit("\"type\"");
    reveal_strlit("\"Session\"");
    reveal_strlit("\"ConnectedUsers\"");
    reveal_strlit("\"data\"");
    reveal_strlit("}");
    let pre = ("{\"type\":\"ConnectedUsers\",\"data\":")@;
    let pl = jusers(es).len() as int;
    let s = pre + jusers(es) + ("}")@;
    assert(pre.len() == 32);
    assert(s.len() == 33 + pl);
    assert(s[0] == '{');
    lemma_tok_char_hit(s, 0, '{');
    assert(s.subrange(1, 7) =~= ("\"type\"")@);
    lemma_tok_lit_hit(s, 1, ("\"type\"")@);
    assert(s[7] == ':');
    lemma_tok_char_hit(s, 7, ':');
    assert(s[8] == '"' && s[9] == 'C');
    lemma_tok_lit_miss(s, 8, ("\"Session\"")@, 1);
    assert(s.subrange(8, 24) =~= ("\"ConnectedUsers\"")@);
    lemma_tok_lit_hit(s, 8, ("\"ConnectedUsers\"")@);
    assert(s[24] == ',');
    lemma_tok_char_hit(s, 24, ',');
    assert(s.subrange(25, 31) =~= ("\"data\"")@);
    lemma_tok_lit_hit(s, 25, ("\"data\"")@);
    assert(s[31] == ':');
    lemma_tok_char_hit(s, 31, ':');
    assert(s.subrange(32, 32 + pl) =~= jusers(es));
    lemma_parse_users_at(s, 32, es);
    assert(s[32 + pl] == '}');
    lemma_tok_char_hit(s, 32 + pl, '}');
    lemma_skip_jws_at(s, 33 + pl);
}

/// The canonical wire text of a `Message` envelope decodes to it.
#[verifier::rlimit(50)]
proof fn lemma_round_trip_message(c: ChatView)
    ensures
        spec_decode(spec_encode(MessageView::Message(c))) == Some(MessageView::Message(c)),
{
    reveal_strlit("{\"type\":\"Message\",\"data\":");
    reveal_strlit("\"type\"");
    reveal_strlit("\"Session\"");
    reveal_strlit("\"ConnectedUsers\"");
    reveal_strlit("\"Message\"");
    reveal_strlit("\"data\"");
    reveal_strlit("}");
    let pre = ("{\"type\":\"Message\",\"data\":")@;
    let pl = jchat(c).len() as int;
    let s = pre + jchat(c) + ("}")@;
    assert(pre.len() == 25);
    assert(s.len() == 26 + pl);
    assert(s[0] == '{');
    lemma_tok_char_hit(s, 0, '{');
    assert(s.subrange(1, 7) =~= ("\"type\"")@);
    lemma_tok_lit_hit(s, 1, ("\"type\"")@);
    assert(s[7] == ':');
    lemma_tok_char_hit(s, 7, ':');
    assert(s[8] == '"' && s[9] == 'M');
    lemma_tok_lit_miss(s, 8, ("\"Session\"")@, 1);
    lemma_tok_lit_miss(s, 8, ("\"ConnectedUsers\"")@, 1);
    assert(s.subrange(8, 17) =~= ("\"Message\"")@);
    lemma_tok_lit_hit(s, 8, ("\"Message\"")@);
    assert(s[17] == ',');
    lemma_tok_char_hit(s, 17, ',');
    assert(s.subrange(18, 24) =~= ("\"data\"")@);
    lemma_tok_lit_hit(s, 18, ("\"data\"")@);
    assert(s[24] == ':');
    lemma_tok_char_hit(s, 24, ':');
    assert(s.subrange(25, 25 + pl) =~= jchat(c));
    lemma_parse_chat_at(s, 25, c);
    assert(s[25 + pl] == '}');
    lemma_tok_char_hit(s, 25 + pl, '}');
    lemma_skip_jws_at(s, 26 + pl);
}

/// The canonical wire text of a `Disconnect` envelope decodes to it.
#[verifier::rlimit(50)]
proof fn lemma_round_trip_disconnect(reason: Seq<char>)
    ensures
        spec_decode(spec_encode(MessageView::Disconnect(reason))) == Some(
            MessageView::Disconnect(reason),
        ),
{
    reveal_strlit("{\"type\":\"Disconnect\",\"data\":");
    reveal_strlit("\"type\"");
    reveal_strlit("\"Session\"");
    reveal_strlit("\"ConnectedUsers\"");
    reveal_strlit("\"Message\"");
    reveal_strlit("\"Disconnect\"");
    reveal_strlit("\"data\"");
    reveal_strlit("}");
    let pre = ("{\"type\":\"Disconnect\",\"data\":")@;
    let jl = jstr(reason).len() as int;
    let s = pre + jstr(reason) + ("}")@;
    assert(pre.len() == 28);
    assert(s.len() == 29 + jl);
    assert(s[0] == '{');
    lemma_tok_char_hit(s, 0, '{');
    assert(s.subrange(1, 7) =~= ("\"type\"")@);
    lemma_tok_lit_hit(s, 1, ("\"type\"")@);
    assert(s[7] == ':');
    lemma_tok_char_hit(s, 7, ':');
    assert(s[8] == '"' && s[9] == 'D');
    lemma_tok_lit_miss(s, 8, ("\"Session\"")@, 1);
    lemma_tok_lit_miss(s, 8, ("\"ConnectedUsers\"")@, 1);
    lemma_tok_lit_miss(s, 8, ("\"Message\"")@, 1);
    assert(s.subrange(8, 20) =~= ("\"Disconnect\"")@);
    lemma_tok_lit_hit(s, 8, ("\"Disconnect\"")@);
    assert(s[20] == ',');
    lemma_tok_char_hit(s, 20, ',');
    assert(s.subrange(21, 27) =~= ("\"data\"")@);
    lemma_tok_lit_hit(s, 21, ("\"data\"")@);
    assert(s[27] == ':');
    lemma_tok_char_hit(s, 27, ':');
    assert(s.subrange(28, 28 + jl) =~= jstr(reason));
    lemma_parse_jstring_at(s, 28, reason);
    assert(s[28 + jl] == '}');
    lemma_tok_char_hit(s, 28 + jl, '}');
    lemma_skip_jws_at(s, 29 + jl);
}

/// Decoding inverts encoding: the canonical wire text of any envelope
/// decodes to exactly that envelope.
pub proof fn lemma_decode_of_encode(m: MessageView)
    ensures
        spec_decode(spec_encode(m)) == Some(m),
{
    match m {
        MessageView::Session(u) => lemma_round_trip_session(u),
        MessageView::ConnectedUsers(es) => lemma_round_trip_connected_users(es),
        MessageView::Message(c) => lemma_round_trip_message(c),
        MessageView::Disconnect(reason) => lemma_round_trip_disconnect(reason),
    }
}

} // verus!
