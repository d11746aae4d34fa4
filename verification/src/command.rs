//! The protocol codec: structured commands, decoding of wire lines, and
//! encoding back to CRLF-terminated wire lines.

use vstd::prelude::*;
use crate::text::{
    find_char, find_char_at, find_non_wsp, find_non_wsp_at, find_wsp, find_wsp_at, is_wsp,
    lemma_find_char, lemma_find_char_is, lemma_find_non_wsp, lemma_find_non_wsp_is,
    lemma_find_wsp, lemma_find_wsp_is, lemma_trim_end_idx_is, range_matches, copy_range, trim_of,
    trim_spec,
};

verus! {

/// A command that never reaches the wire: it only drives the local user
/// interface.
#[derive(Debug, PartialEq, Eq, Clone, Copy)]
pub enum UiCommand {
    PrintBuffers,
    SwitchBuffer(usize),
}

/// A structured protocol command, inbound or outbound.
#[derive(Debug, PartialEq, Eq)]
pub enum Command {
    /// Sender, target, message text.
    Privmsg(String, String, String),
    /// Sender, target, message text.
    Notice(String, String, String),
    /// Keep-alive payload.
    Ping(String),
    /// Keep-alive payload.
    Pong(String),
    /// Server password.
    Pass(String),
    /// Username and real name.
    User(String, String),
    /// Nickname.
    Nick(String),
    /// Channels to join.
    Join(Vec<String>),
    /// Channels to leave.
    Part(Vec<String>),
    /// Parting words.
    Quit(String),
    /// Local user-interface commands.
    Internal(UiCommand),
    Unknown,
}

/// The mathematical shape of a `Command`: every text field as a sequence
/// of characters.
#[verifier::ext_equal]
pub ghost enum CmdModel {
    Privmsg(Seq<char>, Seq<char>, Seq<char>),
    Notice(Seq<char>, Seq<char>, Seq<char>),
    Ping(Seq<char>),
    Pong(Seq<char>),
    Pass(Seq<char>),
    User(Seq<char>, Seq<char>),
    Nick(Seq<char>),
    Join(Seq<Seq<char>>),
    Part(Seq<Seq<char>>),
    Quit(Seq<char>),
    Internal(UiCommand),
    Unknown,
}

impl View for Command {
    type V = CmdModel;

    open spec fn view(&self) -> CmdModel {
        match self {
            Command::Privmsg(sender, target, msg) => CmdModel::Privmsg(sender@, target@, msg@),
            Command::Notice(sender, target, msg) => CmdModel::Notice(sender@, target@, msg@),
            Command::Ping(payload) => CmdModel::Ping(payload@),
            Command::Pong(payload) => CmdModel::Pong(payload@),
            Command::Pass(password) => CmdModel::Pass(password@),
            Command::User(username, realname) => CmdModel::User(username@, realname@),
            Command::Nick(nickname) => CmdModel::Nick(nickname@),
            Command::Join(channels) => CmdModel::Join(channels.deep_view()),
            Command::Part(channels) => CmdModel::Part(channels.deep_view()),
            Command::Quit(quitmsg) => CmdModel::Quit(quitmsg@),
            Command::Internal(ui) => CmdModel::Internal(*ui),
            Command::Unknown => CmdModel::Unknown,
        }
    }
}

/// The sender named by a `:sender` prefix token: the text after the colon
/// and before the first `!`.
pub open spec fn sender_of(tok: Seq<char>) -> Seq<char>
    recommends
        tok.len() >= 1,
{
    tok.subrange(1, find_char(tok, 1, '!'))
}

/// The trailing parameter that starts at or after `from`: leading
/// whitespace skipped, one leading colon stripped, and the rest trimmed.
pub open spec fn tail_payload(line: Seq<char>, from: int) -> Seq<char>
    recommends
        0 <= from <= line.len(),
{
    let p = find_non_wsp(line, from);
    let q = if p < line.len() && line[p] == ':' {
        p + 1
    } else {
        p
    };
    trim_spec(line.subrange(q, line.len() as int))
}

/// Decoding once the optional prefix has been consumed: `sender` is the
/// prefix's sender (empty if there was none) and `from` the position
/// right after the prefix.
pub open spec fn decode_verb(line: Seq<char>, sender: Seq<char>, from: int) -> CmdModel
    recommends
        0 <= from <= line.len(),
{
    let vi = find_non_wsp(line, from);
    if vi >= line.len() {
        CmdModel::Unknown
    } else {
        let ve = find_wsp(line, vi);
        let verb = line.subrange(vi, ve);
        if verb == "PRIVMSG"@ {
            let ti = find_non_wsp(line, ve);
            let te = find_wsp(line, ti);
            CmdModel::Privmsg(sender, line.subrange(ti, te), tail_payload(line, te))
        } else if verb == "NOTICE"@ {
            let ti = find_non_wsp(line, ve);
            let te = find_wsp(line, ti);
            CmdModel::Notice(sender, line.subrange(ti, te), tail_payload(line, te))
        } else if verb == "PING"@ {
            CmdModel::Ping(tail_payload(line, ve))
        } else if verb == "PONG"@ {
            CmdModel::Pong(tail_payload(line, ve))
        } else {
            CmdModel::Unknown
        }
    }
}

/// What decoding a wire line yields: an optional `:sender` prefix is
/// stripped, the next token is the verb, and only `PRIVMSG`, `NOTICE`,
/// `PING` and `PONG` are recognised; everything else is `Unknown`.
pub open spec fn decode_spec(line: Seq<char>) -> CmdModel {
    let i0 = find_non_wsp(line, 0);
    if i0 >= line.len() {
        CmdModel::Unknown
    } else if line[i0] == ':' {
        let e0 = find_wsp(line, i0);
        decode_verb(line, sender_of(line.subrange(i0, e0)), e0)
    } else {
        decode_verb(line, Seq::empty(), i0)
    }
}

/// The targets of a join or part, joined by commas.
pub open spec fn join_targets(ts: Seq<Seq<char>>) -> Seq<char>
    decreases ts.len(),
{
    if ts.len() == 0 {
        Seq::empty()
    } else if ts.len() == 1 {
        ts[0]
    } else {
        join_targets(ts.drop_last()) + ","@ + ts.last()
    }
}

/// The wire form of a command, if it has one: `Internal` and `Unknown`
/// never reach the wire.
pub open spec fn encode_spec(c: CmdModel) -> Option<Seq<char>> {
    match c {
        CmdModel::Privmsg(_, target, msg) => Some(
            "PRIVMSG "@ + target + " :"@ + msg + "\r\n"@,
        ),
        CmdModel::Notice(_, target, msg) => Some("NOTICE "@ + target + " :"@ + msg + "\r\n"@),
        CmdModel::Ping(payload) => Some("PING "@ + payload + "\r\n"@),
        CmdModel::Pong(payload) => Some("PONG "@ + payload + "\r\n"@),
        CmdModel::Pass(password) => Some("PASS "@ + password + "\r\n"@),
        CmdModel::User(username, realname) => Some(
            "USER "@ + username + " * * :"@ + realname + "\r\n"@,
        ),
        CmdModel::Nick(nickname) => Some("NICK "@ + nickname + "\r\n"@),
        CmdModel::Join(channels) => Some("JOIN "@ + join_targets(channels) + "\r\n"@),
        CmdModel::Part(channels) => Some("PART "@ + join_targets(channels) + "\r\n"@),
        CmdModel::Quit(quitmsg) => Some("QUIT :"@ + quitmsg + "\r\n"@),
        CmdModel::Internal(_) => None,
        CmdModel::Unknown => None,
    }
}

/// The display form of a command, if it has one: only messages are
/// shown, with their text trimmed.
pub open spec fn printable_spec(c: CmdModel) -> Option<Seq<char>> {
    match c {
        CmdModel::Privmsg(sender, _, msg) => Some("<"@ + sender + "> "@ + trim_spec(msg)),
        CmdModel::Notice(_, _, msg) => Some("-> "@ + trim_spec(msg)),
        _ => None,
    }
}

impl Command {
    /// Decodes one wire line.  Never fails: anything that is not a
    /// well-formed `PRIVMSG`, `NOTICE`, `PING` or `PONG` line comes back
    /// as `Unknown`, and missing fields come back empty.
    pub fn from_str(line: &str) -> (c: Command)
        ensures
            c@ == decode_spec(line@),
    {
        let n = line.unicode_len();
        let i0 = find_non_wsp_at(line, 0);
        if i0 == n {
            return Command::Unknown;
        }
        proof {
            lemma_find_non_wsp(line@, 0);
        }
        let (sender, from): (String, usize) = if line.get_char(i0) == ':' {
            let e0 = find_wsp_at(line, i0);
            proof {
                lemma_find_wsp(line@, i0 as int);
                assert(e0 > i0);
            }
            let bang = find_char_at(line, i0 + 1, '!');
            let send_end = if bang < e0 {
                bang
            } else {
                e0
            };
            proof {
                let tok = line@.subrange(i0 as int, e0 as int);
                lemma_find_char(line@, i0 + 1, '!');
                assert forall|j: int| 1 <= j < send_end - i0 implies tok[j] != '!' by {
                    assert(tok[j] == line@[i0 + j]);
                }
                if bang < e0 {
                    assert(tok[send_end - i0] == line@[bang as int]);
                }
                lemma_find_char_is(tok, 1, send_end - i0, '!');
                assert(sender_of(tok) =~= line@.subrange(i0 + 1, send_end as int));
            }
            (copy_range(line, i0 + 1, send_end), e0)
        } else {
            (String::new(), i0)
        };
        let vi = find_non_wsp_at(line, from);
        if vi == n {
            return Command::Unknown;
        }
        let ve = find_wsp_at(line, vi);
        if range_matches(line, vi, ve, "PRIVMSG") {
            let ti = find_non_wsp_at(line, ve);
            let te = find_wsp_at(line, ti);
            let target = copy_range(line, ti, te);
            let text = payload_after(line, te);
            Command::Privmsg(sender, target, text)
        } else if range_matches(line, vi, ve, "NOTICE") {
            let ti = find_non_wsp_at(line, ve);
            let te = find_wsp_at(line, ti);
            let target = copy_range(line, ti, te);
            let text = payload_after(line, te);
            Command::Notice(sender, target, text)
        } else if range_matches(line, vi, ve, "PING") {
            Command::Ping(payload_after(line, ve))
        } else if range_matches(line, vi, ve, "PONG") {
            Command::Pong(payload_after(line, ve))
        } else {
            Command::Unknown
        }
    }

    /// Encodes this command as a CRLF-terminated wire line; `Internal`
    /// and `Unknown` have none.
    pub fn to_string(&self) -> (r: Option<String>)
        ensures
            match r {
                Some(s) => encode_spec(self@) == Some(s@),
                None => encode_spec(self@) is None,
            },
    {
        match self {
            Command::Privmsg(_, target, msg) => {
                let mut s = String::from_str("PRIVMSG ");
                s.append(target.as_str());
                s.append(" :");
                s.append(msg.as_str());
                s.append("\r\n");
                proof {
                    assert(s@ =~= "PRIVMSG "@ + target@ + " :"@ + msg@ + "\r\n"@);
                }
                Some(s)
            },
            Command::Notice(_, target, msg) => {
                let mut s = String::from_str("NOTICE ");
                s.append(target.as_str());
                s.append(" :");
                s.append(msg.as_str());
                s.append("\r\n");
                proof {
                    assert(s@ =~= "NOTICE "@ + target@ + " :"@ + msg@ + "\r\n"@);
                }
                Some(s)
            },
            Command::Ping(payload) => {
                let mut s = String::from_str("PING ");
                s.append(payload.as_str());
                s.append("\r\n");
                proof {
                    assert(s@ =~= "PING "@ + payload@ + "\r\n"@);
                }
                Some(s)
            },
            Command::Pong(payload) => {
                let mut s = String::from_str("PONG ");
                s.append(payload.as_str());
                s.append("\r\n");
                proof {
                    assert(s@ =~= "PONG "@ + payload@ + "\r\n"@);
                }
                Some(s)
            },
            Command::Pass(password) => {
                let mut s = String::from_str("PASS ");
                s.append(password.as_str());
                s.append("\r\n");
                proof {
                    assert(s@ =~= "PASS "@ + password@ + "\r\n"@);
                }
                Some(s)
            },
            Command::User(username, realname) => {
                let mut s = String::from_str("USER ");
                s.append(username.as_str());
                s.append(" * * :");
                s.append(realname.as_str());
                s.append("\r\n");
                proof {
                    assert(s@ =~= "USER "@ + username@ + " * * :"@ + realname@ + "\r\n"@);
                }
                Some(s)
            },
            Command::Nick(nickname) => {
                let mut s = String::from_str("NICK ");
                s.append(nickname.as_str());
                s.append("\r\n");
                proof {
                    assert(s@ =~= "NICK "@ + nickname@ + "\r\n"@);
                }
                Some(s)
            },
            Command::Join(channels) => {
                let mut s = String::from_str("JOIN ");
                let joined = join_with_commas(channels);
                s.append(joined.as_str());
                s.append("\r\n");
                proof {
                    assert(s@ =~= "JOIN "@ + join_targets(channels.deep_view()) + "\r\n"@);
                }
                Some(s)
            },
            Command::Part(channels) => {
                let mut s = String::from_str("PART ");
                let joined = join_with_commas(channels);
                s.append(joined.as_str());
                s.append("\r\n");
                proof {
                    assert(s@ =~= "PART "@ + join_targets(channels.deep_view()) + "\r\n"@);
                }
                Some(s)
            },
            Command::Quit(quitmsg) => {
                let mut s = String::from_str("QUIT :");
                s.append(quitmsg.as_str());
                s.append("\r\n");
                proof {
                    assert(s@ =~= "QUIT :"@ + quitmsg@ + "\r\n"@);
                }
                Some(s)
            },
            Command::Internal(_) => None,
            Command::Unknown => None,
        }
    }

    /// The display form written to buffers, logs and the screen:
    /// `<sender> text` for a message, `-> text` for a notice, nothing
    /// for anything else.
    pub fn to_printable(&self) -> (r: Option<String>)
        ensures
            match r {
                Some(s) => printable_spec(self@) == Some(s@),
                None => printable_spec(self@) is None,
            },
    {
        match self {
            Command::Privmsg(sender, _, msg) => {
                let mut s = String::from_str("<");
                s.append(sender.as_str());
                s.append("> ");
                let trimmed = trim_of(msg.as_str());
                s.append(trimmed.as_str());
                proof {
                    assert(s@ =~= "<"@ + sender@ + "> "@ + trim_spec(msg@));
                }
                Some(s)
            },
            Command::Notice(_, _, msg) => {
                let mut s = String::from_str("-> ");
                let trimmed = trim_of(msg.as_str());
                s.append(trimmed.as_str());
                proof {
                    assert(s@ =~= "-> "@ + trim_spec(msg@));
                }
                Some(s)
            },
            _ => None,
        }
    }
}

/// The trailing parameter that starts at or after `from`, as a fresh
/// string.
fn payload_after(line: &str, from: usize) -> (r: String)
    requires
        from <= line@.len(),
    ensures
        r@ == tail_payload(line@, from as int),
{
    let n = line.unicode_len();
    let p = find_non_wsp_at(line, from);
    let q = if p < n && line.get_char(p) == ':' {
        p + 1
    } else {
        p
    };
    trim_of(line.substring_char(q, n))
}

/// The given targets joined by commas, as a fresh string.
fn join_with_commas(ts: &Vec<String>) -> (r: String)
    ensures
        r@ == join_targets(ts.deep_view()),
{
    let mut out = String::new();
    let mut i: usize = 0;
    while i < ts.len()
        invariant
            0 <= i <= ts.len(),
            out@ == join_targets(ts.deep_view().subrange(0, i as int)),
        decreases ts.len() - i,
    {
        if i > 0 {
            out.append(",");
        }
        out.append(ts[i].as_str());
        proof {
            let prefix = ts.deep_view().subrange(0, i + 1);
            assert(prefix.drop_last() =~= ts.deep_view().subrange(0, i as int));
            assert(prefix.last() == ts.deep_view()[i as int]);
            assert(ts.deep_view()[i as int] == ts@[i as int]@);
            if i == 0 {
                assert(out@ =~= join_targets(prefix));
            } else {
                assert(out@ =~= join_targets(prefix));
            }
        }
        i = i + 1;
    }
    assert(ts.deep_view().subrange(0, ts.len() as int) =~= ts.deep_view());
    out
}

/// The keep-alive answer: a `Ping` demands a `Pong` with the same
/// payload, sent back at once; nothing else demands an answer.
pub fn ping_response(c: &Command) -> (r: Option<Command>)
    ensures
        match c@ {
            CmdModel::Ping(payload) => (r matches Some(p) && p@ == CmdModel::Pong(payload)),
            _ => r is None,
        },
{
    match c {
        Command::Ping(payload) => Some(Command::Pong(payload.clone())),
        _ => None,
    }
}

/// The authentication sequence sent right after connecting: `PASS` when
/// a password is configured, then `NICK`, then `USER`, with the username
/// serving as nickname, username and real name alike.
pub fn auth_commands(conn: &crate::connection::Connection) -> (r: Vec<Command>)
    ensures
        match conn.password {
            Some(p) => {
                &&& r@.len() == 3
                &&& r@[0]@ == CmdModel::Pass(p@)
                &&& r@[1]@ == CmdModel::Nick(conn.username@)
                &&& r@[2]@ == CmdModel::User(conn.username@, conn.username@)
            },
            None => {
                &&& r@.len() == 2
                &&& r@[0]@ == CmdModel::Nick(conn.username@)
                &&& r@[1]@ == CmdModel::User(conn.username@, conn.username@)
            },
        },
{
    let mut out: Vec<Command> = Vec::new();
    match &conn.password {
        Some(p) => out.push(Command::Pass(p.clone())),
        None => {},
    }
    out.push(Command::Nick(conn.username.clone()));
    out.push(Command::User(conn.username.clone(), conn.username.clone()));
    out
}

/// A field that survives the wire as one token: non-empty and free of
/// whitespace.
pub open spec fn wire_word(t: Seq<char>) -> bool {
    t.len() > 0 && (forall|j: int| 0 <= j < t.len() ==> !is_wsp(#[trigger] t[j]))
}

/// A field that survives the wire as a trailing parameter: it neither
/// starts nor ends in whitespace, so trimming returns it unchanged.
pub open spec fn wire_text(m: Seq<char>) -> bool {
    m.len() == 0 || (!is_wsp(m[0]) && !is_wsp(m[m.len() - 1]))
}

/// The commands whose wire form decodes back to them: messages and
/// notices with a one-token target and a trimmed text, and keep-alives
/// whose payload is trimmed and does not begin with a colon.
pub open spec fn round_trippable(c: CmdModel) -> bool {
    match c {
        CmdModel::Privmsg(_, target, msg) => wire_word(target) && wire_text(msg),
        CmdModel::Notice(_, target, msg) => wire_word(target) && wire_text(msg),
        CmdModel::Ping(payload) => wire_text(payload) && (payload.len() > 0 ==> payload[0]
            != ':'),
        CmdModel::Pong(payload) => wire_text(payload) && (payload.len() > 0 ==> payload[0]
            != ':'),
        _ => false,
    }
}

/// `c` with its sender erased: the sender never reaches the wire, so a
/// decoded line always carries an empty one.
pub open spec fn wire_fields(c: CmdModel) -> CmdModel {
    match c {
        CmdModel::Privmsg(_, target, msg) => CmdModel::Privmsg(Seq::empty(), target, msg),
        CmdModel::Notice(_, target, msg) => CmdModel::Notice(Seq::empty(), target, msg),
        _ => c,
    }
}

/// Trimming a trailing parameter strips exactly the CRLF that encoding
/// appended.
proof fn lemma_trim_crlf(m: Seq<char>)
    requires
        wire_text(m),
    ensures
        trim_spec(m + "\r\n"@) == m,
{
    reveal_strlit("\r\n");
    let s = m + "\r\n"@;
    assert(s[m.len() as int] == '\r');
    assert(s[m.len() as int + 1] == '\n');
    if m.len() == 0 {
        lemma_find_non_wsp_is(s, 0, 2);
        lemma_trim_end_idx_is(s, 0);
        assert(trim_spec(s) =~= m);
    } else {
        assert(s[0] == m[0]);
        assert(s[m.len() - 1] == m[m.len() - 1]);
        lemma_find_non_wsp_is(s, 0, 0);
        lemma_trim_end_idx_is(s, m.len() as int);
        assert(trim_spec(s) =~= m);
    }
}

/// How a `<verb> <target> :<text>` line tokenises: where the verb, the
/// target and the trailing text are found.
proof fn lemma_msgline(verb: Seq<char>, t: Seq<char>, m: Seq<char>)
    requires
        verb.len() > 0,
        forall|j: int| 0 <= j < verb.len() ==> !is_wsp(#[trigger] verb[j]),
        wire_word(t),
        wire_text(m),
    ensures
        ({
            let w = verb + " "@ + t + " :"@ + m + "\r\n"@;
            let vl = verb.len() as int;
            let tl = t.len() as int;
            &&& w.len() == vl + tl + m.len() + 5
            &&& find_non_wsp(w, 0) == 0
            &&& w[0] == verb[0]
            &&& find_wsp(w, 0) == vl
            &&& w.subrange(0, vl) == verb
            &&& find_non_wsp(w, vl) == vl + 1
            &&& find_wsp(w, vl + 1) == vl + 1 + tl
            &&& w.subrange(vl + 1, vl + 1 + tl) == t
            &&& tail_payload(w, vl + 1 + tl) == m
        }),
{
    reveal_strlit(" ");
    reveal_strlit(" :");
    reveal_strlit("\r\n");
    let w = verb + " "@ + t + " :"@ + m + "\r\n"@;
    let vl = verb.len() as int;
    let tl = t.len() as int;
    let ml = m.len() as int;
    assert(w.len() == vl + tl + ml + 5);
    assert forall|j: int| 0 <= j < vl implies w[j] == verb[j] by {}
    assert(w[vl] == ' ');
    assert forall|j: int| vl + 1 <= j < vl + 1 + tl implies w[j] == t[j - vl - 1] by {}
    assert(w[vl + 1 + tl] == ' ');
    assert(w[vl + 2 + tl] == ':');
    assert forall|j: int| vl + 3 + tl <= j < vl + 3 + tl + ml implies w[j] == m[j - vl - 3 - tl]
        by {}
    assert(w[vl + 3 + tl + ml] == '\r');
    assert(w[vl + 4 + tl + ml] == '\n');
    lemma_find_non_wsp_is(w, 0, 0);
    lemma_find_wsp_is(w, 0, vl);
    assert(w.subrange(0, vl) =~= verb);
    lemma_find_non_wsp_is(w, vl, vl + 1);
    lemma_find_wsp_is(w, vl + 1, vl + 1 + tl);
    assert(w.subrange(vl + 1, vl + 1 + tl) =~= t);
    lemma_find_non_wsp_is(w, vl + 1 + tl, vl + 2 + tl);
    assert(w.subrange(vl + 3 + tl, w.len() as int) =~= m + "\r\n"@);
    lemma_trim_crlf(m);
}

/// How a `<verb> <payload>` keep-alive line tokenises.
proof fn lemma_pingline(verb: Seq<char>, p: Seq<char>)
    requires
        verb.len() > 0,
        forall|j: int| 0 <= j < verb.len() ==> !is_wsp(#[trigger] verb[j]),
        wire_text(p),
        p.len() > 0 ==> p[0] != ':',
    ensures
        ({
            let w = verb + " "@ + p + "\r\n"@;
            let vl = verb.len() as int;
            &&& w.len() == vl + p.len() + 3
            &&& find_non_wsp(w, 0) == 0
            &&& w[0] == verb[0]
            &&& find_wsp(w, 0) == vl
            &&& w.subrange(0, vl) == verb
            &&& tail_payload(w, vl) == p
        }),
{
    reveal_strlit(" ");
    reveal_strlit("\r\n");
    let w = verb + " "@ + p + "\r\n"@;
    let vl = verb.len() as int;
    let pl = p.len() as int;
    assert(w.len() == vl + pl + 3);
    assert forall|j: int| 0 <= j < vl implies w[j] == verb[j] by {}
    assert(w[vl] == ' ');
    assert forall|j: int| vl + 1 <= j < vl + 1 + pl implies w[j] == p[j - vl - 1] by {}
    assert(w[vl + 1 + pl] == '\r');
    assert(w[vl + 2 + pl] == '\n');
    lemma_find_non_wsp_is(w, 0, 0);
    lemma_find_wsp_is(w, 0, vl);
    assert(w.subrange(0, vl) =~= verb);
    if p.len() == 0 {
        lemma_find_non_wsp_is(w, vl, w.len() as int);
        assert(w.subrange(w.len() as int, w.len() as int) =~= Seq::<char>::empty());
        assert(trim_spec(Seq::<char>::empty()) =~= p);
    } else {
        lemma_find_non_wsp_is(w, vl, vl + 1);
        assert(w[vl + 1] != ':');
        assert(w.subrange(vl + 1, w.len() as int) =~= p + "\r\n"@);
        lemma_trim_crlf(p);
    }
}

/// Round trip of the codec: every message, notice and keep-alive whose
/// fields can survive the wire decodes, from its own encoding, back to
/// the fields that were encoded.  The sender is not part of the wire
/// form and comes back empty.
pub proof fn lemma_round_trip(c: CmdModel)
    requires
        round_trippable(c),
    ensures
        encode_spec(c) matches Some(w) && decode_spec(w) == wire_fields(c),
{
    reveal_strlit("PRIVMSG");
    reveal_strlit("PRIVMSG ");
    reveal_strlit("NOTICE");
    reveal_strlit("NOTICE ");
    reveal_strlit("PING");
    reveal_strlit("PING ");
    reveal_strlit("PONG");
    reveal_strlit("PONG ");
    reveal_strlit(" ");
    assert("PONG"@ != "PING"@) by {
        reveal_strlit("PING");
        reveal_strlit("PONG");
        assert("PONG"@[1] != "PING"@[1]);
    }
    match c {
        CmdModel::Privmsg(_, t, m) => {
            let w = "PRIVMSG "@ + t + " :"@ + m + "\r\n"@;
            assert(w =~= "PRIVMSG"@ + " "@ + t + " :"@ + m + "\r\n"@);
            lemma_msgline("PRIVMSG"@, t, m);
            assert(decode_spec(w) == CmdModel::Privmsg(Seq::empty(), t, m));
        },
        CmdModel::Notice(_, t, m) => {
            let w = "NOTICE "@ + t + " :"@ + m + "\r\n"@;
            assert(w =~= "NOTICE"@ + " "@ + t + " :"@ + m + "\r\n"@);
            lemma_msgline("NOTICE"@, t, m);
            assert(decode_spec(w) == CmdModel::Notice(Seq::empty(), t, m));
        },
        CmdModel::Ping(p) => {
            let w = "PING "@ + p + "\r\n"@;
            assert(w =~= "PING"@ + " "@ + p + "\r\n"@);
            lemma_pingline("PING"@, p);
            assert(decode_spec(w) == CmdModel::Ping(p));
        },
        CmdModel::Pong(p) => {
            let w = "PONG "@ + p + "\r\n"@;
            assert(w =~= "PONG"@ + " "@ + p + "\r\n"@);
            lemma_pingline("PONG"@, p);
            assert(decode_spec(w) == CmdModel::Pong(p));
        },
        _ => {},
    }
}

} // verus!
