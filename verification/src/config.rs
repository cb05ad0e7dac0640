//! Process configuration: the OAuth client credentials, read from a TOML
//! document whose `[global]` table binds `discord_client` and
//! `discord_secret` to basic strings, as in
//!
//! ```text
//! # credentials
//! [global]
//! discord_client = "..."   # issued by the provider
//! discord_secret = "..."
//! ```
//!
//! The I/O layer reads the file; this module parses its text. The grammar
//! covers the documents such a configuration actually takes: free spacing,
//! comment lines and trailing comments, any number of other tables before or
//! after `[global]` (their contents are skipped line by line), bare keys,
//! and single-line basic-string values. Deliberately outside the subset —
//! and rejected, never misread — are escape sequences inside the credential
//! values, literal or multi-line strings, and dotted or quoted keys.

use vstd::prelude::*;

verus! {

/// The parse failed: a malformed line in the `[global]` table, or a missing
/// credential key.
#[derive(Debug, PartialEq, Eq)]
pub struct ConfigError;

/// The `[global]` table of the configuration.
pub struct Global {
    pub discord_client: String,
    pub discord_secret: String,
}

/// The whole configuration document.
pub struct Config {
    pub global: Global,
}

/// Is `c` horizontal spacing?
pub open spec fn is_space(c: char) -> bool {
    c == ' ' || c == '\t' || c == '\r'
}

/// Is `c` spacing of any kind, line breaks included?
pub open spec fn is_ws(c: char) -> bool {
    is_space(c) || c == '\n'
}

/// Is `c` a bare-key character (letter, digit, underscore or dash)?
pub open spec fn is_key_char(c: char) -> bool {
    (97 <= c as int && c as int <= 122) || (65 <= c as int && c as int <= 90) || (48 <= c as int
        && c as int <= 57) || c == '_' || c == '-'
}

/// Is `c` part of a table name (anything but spacing, `]` or a line break)?
pub open spec fn is_header_char(c: char) -> bool {
    !is_space(c) && c != ']' && c != '\n'
}

/// The position after any horizontal spacing.
pub open spec fn skip_spaces(s: Seq<char>, i: int) -> int
    decreases s.len() - i,
    when 0 <= i <= s.len()
{
    if i < s.len() && is_space(s[i]) {
        skip_spaces(s, i + 1)
    } else {
        i
    }
}

/// The position after any mix of spacing, line breaks and `#` comments;
/// `in_comment` says whether `i` already stands inside a comment.
pub open spec fn skip_trivia_from(s: Seq<char>, i: int, in_comment: bool) -> int
    decreases s.len() - i,
    when 0 <= i <= s.len()
{
    if i >= s.len() {
        i
    } else if in_comment {
        skip_trivia_from(s, i + 1, s[i] != '\n')
    } else if is_ws(s[i]) {
        skip_trivia_from(s, i + 1, false)
    } else if s[i] == '#' {
        skip_trivia_from(s, i + 1, true)
    } else {
        i
    }
}

/// The position of the next significant character.
pub open spec fn skip_trivia(s: Seq<char>, i: int) -> int {
    skip_trivia_from(s, i, false)
}

/// The position of the next line break, or the end.
pub open spec fn skip_to_eol(s: Seq<char>, i: int) -> int
    decreases s.len() - i,
    when 0 <= i <= s.len()
{
    if i < s.len() && s[i] != '\n' {
        skip_to_eol(s, i + 1)
    } else {
        i
    }
}

/// The bare-key characters from `i` on, and the position after them.
pub open spec fn key_chars(s: Seq<char>, i: int) -> (Seq<char>, int)
    decreases s.len() - i,
    when 0 <= i <= s.len()
{
    if i < s.len() && is_key_char(s[i]) {
        let (rest, j) = key_chars(s, i + 1);
        (seq![s[i]] + rest, j)
    } else {
        (Seq::empty(), i)
    }
}

/// The table-name characters from `i` on, and the position after them.
pub open spec fn header_chars(s: Seq<char>, i: int) -> (Seq<char>, int)
    decreases s.len() - i,
    when 0 <= i <= s.len()
{
    if i < s.len() && is_header_char(s[i]) {
        let (rest, j) = header_chars(s, i + 1);
        (seq![s[i]] + rest, j)
    } else {
        (Seq::empty(), i)
    }
}

/// A quoted value's characters up to its closing quote; credential values
/// carry no escapes and cannot span lines.
pub open spec fn parse_value(s: Seq<char>, i: int) -> Option<(Seq<char>, int)>
    decreases s.len() - i,
    when 0 <= i <= s.len()
{
    if i >= s.len() {
        None
    } else if s[i] == '"' {
        Some((Seq::empty(), i + 1))
    } else if s[i] == '\n' {
        None
    } else {
        match parse_value(s, i + 1) {
            Some((rest, j)) => Some((seq![s[i]] + rest, j)),
            None => None,
        }
    }
}

/// Nothing but spacing and an optional comment remains of the line at `j`.
pub open spec fn line_rest_ok(s: Seq<char>, j: int) -> bool {
    j >= s.len() || s[j] == '\n' || s[j] == '#'
}

/// The `key = "value"` pairs of the document's `global` tables, from `i` to
/// the end. `in_global` says whether `i` stands inside a `[global]` table;
/// lines of other tables are skipped whole, as are non-string bindings
/// inside `[global]`. `fuel` bounds the recursion and the parser hands it
/// the document's length, more than one per line consumed.
pub open spec fn parse_items(s: Seq<char>, i: int, in_global: bool, fuel: nat) -> Option<
    Seq<(Seq<char>, Seq<char>)>,
>
    decreases fuel,
    when 0 <= i <= s.len()
{
    if fuel == 0 {
        None
    } else {
        let i1 = skip_trivia(s, i);
        if i1 >= s.len() {
            Some(Seq::empty())
        } else if s[i1] == '[' {
            let h1 = skip_spaces(s, i1 + 1);
            let (name, h2) = header_chars(s, h1);
            let h3 = skip_spaces(s, h2);
            if name.len() > 0 && h3 < s.len() && s[h3] == ']' && line_rest_ok(
                s,
                skip_spaces(s, h3 + 1),
            ) {
                parse_items(s, skip_spaces(s, h3 + 1), name == ("global")@, (fuel - 1) as nat)
            } else {
                None
            }
        } else if !in_global {
            parse_items(s, skip_to_eol(s, i1), false, (fuel - 1) as nat)
        } else if is_key_char(s[i1]) {
            let (k, j) = key_chars(s, i1);
            let j1 = skip_spaces(s, j);
            if j1 < s.len() && s[j1] == '=' {
                let j2 = skip_spaces(s, j1 + 1);
                if j2 < s.len() && s[j2] == '"' {
                    match parse_value(s, j2 + 1) {
                        Some((v, j3)) => {
                            let j4 = skip_spaces(s, j3);
                            if line_rest_ok(s, j4) {
                                match parse_items(s, j4, true, (fuel - 1) as nat) {
                                    Some(rest) => Some(seq![(k, v)] + rest),
                                    None => None,
                                }
                            } else {
                                None
                            }
                        },
                        None => None,
                    }
                } else {
                    // a binding of some other type: not a credential
                    parse_items(s, skip_to_eol(s, j2), true, (fuel - 1) as nat)
                }
            } else {
                None
            }
        } else {
            None
        }
    }
}

/// The first value bound to `key` among `pairs`.
pub open spec fn find_key(pairs: Seq<(Seq<char>, Seq<char>)>, key: Seq<char>) -> Option<Seq<char>>
    decreases pairs.len(),
{
    if pairs.len() == 0 {
        None
    } else if pairs[0].0 == key {
        Some(pairs[0].1)
    } else {
        find_key(pairs.skip(1), key)
    }
}

/// The credential pair a well-formed document configures: the first
/// bindings of the two keys among its `[global]` tables.
pub open spec fn spec_config(s: Seq<char>) -> Option<(Seq<char>, Seq<char>)> {
    match parse_items(s, 0, false, s.len() as nat) {
        None => None,
        Some(pairs) => match find_key(pairs, ("discord_client")@) {
            None => None,
            Some(client) => match find_key(pairs, ("discord_secret")@) {
                None => None,
                Some(secret) => Some((client, secret)),
            },
        },
    }
}

/// The position after any horizontal spacing.
fn skip_spaces_exec(s: &str, i: usize) -> (r: usize)
    requires
        i <= s@.len(),
    ensures
        r == skip_spaces(s@, i as int),
        i <= r <= s@.len(),
{
    let sl = s.unicode_len();
    let mut j = i;
    loop
        invariant
            i <= j <= sl,
            sl == s@.len(),
            skip_spaces(s@, i as int) == skip_spaces(s@, j as int),
        decreases sl - j,
    {
        if j < sl {
            let c = s.get_char(j);
            if c == ' ' || c == '\t' || c == '\r' {
                j = j + 1;
                continue ;
            }
        }
        assert(skip_spaces(s@, j as int) == j as int);
        return j;
    }
}

/// The position of the next significant character.
fn skip_trivia_exec(s: &str, i: usize) -> (r: usize)
    requires
        i <= s@.len(),
    ensures
        r == skip_trivia(s@, i as int),
        i <= r <= s@.len(),
{
    let sl = s.unicode_len();
    let mut j = i;
    let mut in_comment = false;
    loop
        invariant
            i <= j <= sl,
            sl == s@.len(),
            skip_trivia(s@, i as int) == skip_trivia_from(s@, j as int, in_comment),
        decreases sl - j,
    {
        if j < sl {
            let c = s.get_char(j);
            if in_comment {
                in_comment = !(c == '\n');
                j = j + 1;
                continue ;
            }
            if c == ' ' || c == '\t' || c == '\r' || c == '\n' {
                j = j + 1;
                continue ;
            }
            if c == '#' {
                in_comment = true;
                j = j + 1;
                continue ;
            }
        }
        assert(skip_trivia_from(s@, j as int, in_comment) == j as int);
        return j;
    }
}

/// The position of the next line break, or the end.
fn skip_to_eol_exec(s: &str, i: usize) -> (r: usize)
    requires
        i <= s@.len(),
    ensures
        r == skip_to_eol(s@, i as int),
        i <= r <= s@.len(),
{
    let sl = s.unicode_len();
    let mut j = i;
    loop
        invariant
            i <= j <= sl,
            sl == s@.len(),
            skip_to_eol(s@, i as int) == skip_to_eol(s@, j as int),
        decreases sl - j,
    {
        if j < sl && !(s.get_char(j) == '\n') {
            j = j + 1;
            continue ;
        }
        assert(skip_to_eol(s@, j as int) == j as int);
        return j;
    }
}

/// Is `c` a bare-key character?
fn is_key_char_exec(c: char) -> (r: bool)
    ensures
        r == is_key_char(c),
{
    let v = c as u32;
    (97 <= v && v <= 122) || (65 <= v && v <= 90) || (48 <= v && v <= 57) || c == '_' || c == '-'
}

/// The bare-key characters from `i` on.
fn key_chars_exec(s: &str, i: usize) -> (r: (Vec<char>, usize))
    requires
        i <= s@.len(),
    ensures
        key_chars(s@, i as int) == (r.0@, r.1 as int),
        i <= r.1 <= s@.len(),
    decreases s@.len() - i,
{
    let sl = s.unicode_len();
    if i < sl {
        let c = s.get_char(i);
        if is_key_char_exec(c) {
            let (rest, j) = key_chars_exec(s, i + 1);
            let mut rest = rest;
            let ghost tail = rest@;
            rest.insert(0, c);
            proof {
                assert(rest@ =~= seq![c] + tail);
            }
            return (rest, j);
        }
    }
    let out: Vec<char> = Vec::new();
    proof {
        assert(out@ =~= Seq::<char>::empty());
    }
    (out, i)
}

/// The table-name characters from `i` on.
fn header_chars_exec(s: &str, i: usize) -> (r: (Vec<char>, usize))
    requires
        i <= s@.len(),
    ensures
        header_chars(s@, i as int) == (r.0@, r.1 as int),
        i <= r.1 <= s@.len(),
    decreases s@.len() - i,
{
    let sl = s.unicode_len();
    if i < sl {
        let c = s.get_char(i);
        if !(c == ' ' || c == '\t' || c == '\r' || c == ']' || c == '\n') {
            let (rest, j) = header_chars_exec(s, i + 1);
            let mut rest = rest;
            let ghost tail = rest@;
            rest.insert(0, c);
            proof {
                assert(rest@ =~= seq![c] + tail);
            }
            return (rest, j);
        }
    }
    let out: Vec<char> = Vec::new();
    proof {
        assert(out@ =~= Seq::<char>::empty());
    }
    (out, i)
}

/// A quoted value's characters up to its closing quote.
fn parse_value_exec(s: &str, i: usize) -> (r: Option<(Vec<char>, usize)>)
    requires
        i <= s@.len(),
    ensures
        match r {
            Some(p) => parse_value(s@, i as int) == Some((p.0@, p.1 as int)) && i < p.1 && p.1
                <= s@.len(),
            None => parse_value(s@, i as int) == None::<(Seq<char>, int)>,
        },
    decreases s@.len() - i,
{
    let sl = s.unicode_len();
    if i >= sl {
        return None;
    }
    let c = s.get_char(i);
    if c == '"' {
        let out: Vec<char> = Vec::new();
        proof {
            assert(out@ =~= Seq::<char>::empty());
        }
        Some((out, i + 1))
    } else if c == '\n' {
        None
    } else {
        match parse_value_exec(s, i + 1) {
            Some((rest, j)) => {
                let mut rest = rest;
                let ghost tail = rest@;
                rest.insert(0, c);
                proof {
                    assert(rest@ =~= seq![c] + tail);
                }
                Some((rest, j))
            },
            None => None,
        }
    }
}

/// Do the characters of `v` spell exactly `s`?
fn chars_eq_str(v: &Vec<char>, s: &str) -> (r: bool)
    ensures
        r == (v@ == s@),
{
    let n = s.unicode_len();
    if v.len() != n {
        proof {
            assert(v@.len() != s@.len());
        }
        return false;
    }
    let mut i: usize = 0;
    while i < n
        invariant
            i <= n,
            n == s@.len(),
            n == v@.len(),
            forall|t: int| 0 <= t < i ==> v@[t] == s@[t],
        decreases n - i,
    {
        if v[i] != s.get_char(i) {
            proof {
                if v@ == s@ {
                    assert(v@[i as int] == s@[i as int]);
                }
            }
            return false;
        }
        i = i + 1;
    }
    proof {
        assert(v@ =~= s@);
    }
    true
}

/// One parsed binding of a `[global]` table.
struct RawEntry {
    key: Vec<char>,
    value: Vec<char>,
}

/// The `[global]` bindings of the document from `i` to the end.
fn parse_items_exec(s: &str, i: usize, in_global: bool, fuel: usize) -> (r: Option<Vec<RawEntry>>)
    requires
        i <= s@.len(),
    ensures
        match r {
            Some(es) => parse_items(s@, i as int, in_global, fuel as nat) == Some(
                es@.map_values(|e: RawEntry| (e.key@, e.value@)),
            ),
            None => parse_items(s@, i as int, in_global, fuel as nat) == None::<
                Seq<(Seq<char>, Seq<char>)>,
            >,
        },
    decreases fuel,
{
    if fuel == 0 {
        return None;
    }
    let sl = s.unicode_len();
    let i1 = skip_trivia_exec(s, i);
    if i1 >= sl {
        let out: Vec<RawEntry> = Vec::new();
        proof {
            assert(out@.map_values(|e: RawEntry| (e.key@, e.value@)) =~= Seq::<
                (Seq<char>, Seq<char>),
            >::empty());
        }
        return Some(out);
    }
    let c = s.get_char(i1);
    if c == '[' {
        let h1 = skip_spaces_exec(s, i1 + 1);
        let (name, h2) = header_chars_exec(s, h1);
        let h3 = skip_spaces_exec(s, h2);
        if name.len() == 0 || !(h3 < sl) || !(s.get_char(h3) == ']') {
            return None;
        }
        let h4 = skip_spaces_exec(s, h3 + 1);
        if h4 < sl && !(s.get_char(h4) == '\n') && !(s.get_char(h4) == '#') {
            return None;
        }
        return parse_items_exec(s, h4, chars_eq_str(&name, "global"), fuel - 1);
    }
    if !in_global {
        let j = skip_to_eol_exec(s, i1);
        return parse_items_exec(s, j, false, fuel - 1);
    }
    if !is_key_char_exec(c) {
        return None;
    }
    let (key, j) = key_chars_exec(s, i1);
    let j1 = skip_spaces_exec(s, j);
    if !(j1 < sl) {
        return None;
    }
    if !(s.get_char(j1) == '=') {
        return None;
    }
    let j2 = skip_spaces_exec(s, j1 + 1);
    if !(j2 < sl) || !(s.get_char(j2) == '"') {
        let j = skip_to_eol_exec(s, j2);
        return parse_items_exec(s, j, true, fuel - 1);
    }
    let (value, j3) = match parse_value_exec(s, j2 + 1) {
        Some(p) => p,
        None => {
            return None;
        },
    };
    let j4 = skip_spaces_exec(s, j3);
    if j4 < sl && !(s.get_char(j4) == '\n') && !(s.get_char(j4) == '#') {
        return None;
    }
    match parse_items_exec(s, j4, true, fuel - 1) {
        Some(rest) => {
            let mut rest = rest;
            let ghost tail = rest@.map_values(|e: RawEntry| (e.key@, e.value@));
            rest.insert(0, RawEntry { key, value });
            proof {
                assert(rest@.map_values(|e: RawEntry| (e.key@, e.value@)) =~= seq![
                    (rest@[0].key@, rest@[0].value@),
                ] + tail);
            }
            Some(rest)
        },
        None => None,
    }
}

/// The first value bound to `key` among `entries`.
fn find_key_exec(entries: &Vec<RawEntry>, key: &str) -> (r: Option<Vec<char>>)
    ensures
        match r {
            Some(v) => find_key(entries@.map_values(|e: RawEntry| (e.key@, e.value@)), key@)
                == Some(v@),
            None => find_key(entries@.map_values(|e: RawEntry| (e.key@, e.value@)), key@)
                == None::<Seq<char>>,
        },
{
    let ghost pairs = entries@.map_values(|e: RawEntry| (e.key@, e.value@));
    proof {
        assert(pairs.skip(0) =~= pairs);
    }
    let mut i: usize = 0;
    while i < entries.len()
        invariant
            i <= entries.len(),
            pairs == entries@.map_values(|e: RawEntry| (e.key@, e.value@)),
            pairs.len() == entries@.len(),
            forall|t: int|
                0 <= t < entries@.len() ==> #[trigger] pairs[t] == (
                    entries@[t].key@,
                    entries@[t].value@,
                ),
            find_key(pairs, key@) == find_key(pairs.skip(i as int), key@),
        decreases entries.len() - i,
    {
        proof {
            assert(pairs.skip(i as int)[0] == pairs[i as int]);
        }
        if chars_eq_str(&entries[i].key, key) {
            let mut out: Vec<char> = Vec::new();
            let e = &entries[i];
            let mut t: usize = 0;
            while t < e.value.len()
                invariant
                    t <= e.value.len(),
                    out@ == e.value@.take(t as int),
                decreases e.value.len() - t,
            {
                out.push(e.value[t]);
                proof {
                    assert(e.value@.take(t + 1 as int) =~= e.value@.take(t as int).push(
                        e.value@[t as int],
                    ));
                }
                t = t + 1;
            }
            proof {
                assert(e.value@.take(e.value@.len() as int) =~= e.value@);
            }
            return Some(out);
        }
        proof {
            assert(pairs.skip(i as int).skip(1) =~= pairs.skip(i + 1 as int));
        }
        i = i + 1;
    }
    proof {
        assert(pairs.skip(entries@.len() as int) =~= Seq::<(Seq<char>, Seq<char>)>::empty());
    }
    None
}

impl Config {
    /// Parse a configuration document. Succeeds exactly on documents the
    /// grammar accepts whose `[global]` table binds both credential keys;
    /// the parsed values are the first bindings of each.
    pub fn new(contents: &str) -> (r: Result<Config, ConfigError>)
        ensures
            match r {
                Ok(c) => spec_config(contents@) == Some(
                    (c.global.discord_client@, c.global.discord_secret@),
                ),
                Err(_) => spec_config(contents@) == None::<(Seq<char>, Seq<char>)>,
            },
    {
        let sl = contents.unicode_len();
        let entries = match parse_items_exec(contents, 0, false, sl) {
            Some(es) => es,
            None => {
                return Err(ConfigError);
            },
        };
        let client = match find_key_exec(&entries, "discord_client") {
            Some(v) => v,
            None => {
                return Err(ConfigError);
            },
        };
        let secret = match find_key_exec(&entries, "discord_secret") {
            Some(v) => v,
            None => {
                return Err(ConfigError);
            },
        };
        Ok(
            Config {
                global: Global {
                    discord_client: crate::codec::chars_to_string(client),
                    discord_secret: crate::codec::chars_to_string(secret),
                },
            },
        )
    }
}

} // verus!
