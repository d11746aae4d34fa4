//! The routing rules of the two worker loops: where an inbound command
//! is filed and what a typed line means.

use vstd::prelude::*;
use crate::channel::{Channel, ChannelModel};
use crate::command::{printable_spec, CmdModel, Command, UiCommand};
use crate::interface::{find_id, ids_of, reclamped, Interface, LogEntryModel};
use crate::text::{
    all_digits, digits_val, parse_usize, str_eq, split_tokens, tokens, trim_of, trim_spec,
};

verus! {

/// The channel an inbound message is filed under: a private query (the
/// target is this session's own username) files under its sender,
/// anything else under its target.
pub open spec fn log_target_spec(
    sender: Seq<char>,
    target: Seq<char>,
    username: Seq<char>,
) -> Seq<char> {
    if target == username {
        sender
    } else {
        target
    }
}

/// A fresh, empty channel of this session's server.
pub open spec fn fresh_channel(id: Seq<char>, server: Seq<char>) -> ChannelModel {
    ChannelModel { id, server, log: Seq::empty(), buffer: Seq::empty() }
}

/// The channel list after joining every target in order.
pub open spec fn joined_channels(
    chs: Seq<ChannelModel>,
    server: Seq<char>,
    ts: Seq<Seq<char>>,
) -> Seq<ChannelModel> {
    chs + ts.map_values(|t: Seq<char>| fresh_channel(t, server))
}

/// One part step: the first channel named `id` leaves, unless it is the
/// permanent status channel at index 0 or does not exist; the active
/// index is re-clamped.  Also tells whether a channel left.
pub open spec fn part_one(chs: Seq<ChannelModel>, active: int, id: Seq<char>) -> (
    Seq<ChannelModel>,
    int,
    bool,
) {
    let k = find_id(ids_of(chs), id);
    if 0 < k < chs.len() {
        (chs.remove(k), reclamped(active, k, chs.len() - 1), true)
    } else {
        (chs, active, false)
    }
}

/// The channel list, the active index, and the targets that actually
/// left, after parting every target in order.
pub open spec fn part_all(chs: Seq<ChannelModel>, active: int, ts: Seq<Seq<char>>) -> (
    Seq<ChannelModel>,
    int,
    Seq<Seq<char>>,
)
    decreases ts.len(),
{
    if ts.len() == 0 {
        (chs, active, Seq::empty())
    } else {
        let step = part_one(chs, active, ts[0]);
        let rest = part_all(step.0, step.1, ts.skip(1));
        (
            rest.0,
            rest.1,
            if step.2 {
                seq![ts[0]] + rest.2
            } else {
                rest.2
            },
        )
    }
}

/// Routes one decoded inbound command into the session, per the reader
/// rules: a message is filed under its log target, creating the channel
/// on first contact (an implicit join, which stales the buffer list); a
/// notice or any other displayable command is filed under the status
/// channel; everything else is dropped.  The display line comes back
/// exactly when the channel written is the active one, so the caller can
/// forward it to the screen.
pub fn parse_incoming_cmd(cmd: Command, itf: &mut Interface) -> (r: Option<String>)
    requires
        old(itf)@.wf(),
    ensures
        final(itf)@.wf(),
        final(itf)@.username == old(itf)@.username,
        final(itf)@.server == old(itf)@.server,
        final(itf)@.shutdown == old(itf)@.shutdown,
        final(itf)@.active == old(itf)@.active,
        ({
            let o = old(itf)@;
            let m = final(itf)@;
            match cmd@ {
                CmdModel::Privmsg(sender, target, text) => {
                    let lt = log_target_spec(sender, target, o.username);
                    let k = find_id(o.ids(), lt);
                    &&& printable_spec(cmd@) matches Some(line) && (if k < o.channels.len() {
                        &&& o.wrote_line(m, k, line)
                        &&& m.refresh == o.refresh
                        &&& (if k == o.active {
                            r matches Some(s) && s@ == line
                        } else {
                            r is None
                        })
                    } else {
                        &&& m.channels == o.channels.push(
                            ChannelModel {
                                id: lt,
                                server: o.server,
                                log: seq![line],
                                buffer: seq![line],
                            },
                        )
                        &&& m.pending == o.pending.push(
                            LogEntryModel { channel: lt, line: line },
                        )
                        &&& m.refresh == true
                        &&& r is None
                    })
                },
                _ => {
                    match printable_spec(cmd@) {
                        Some(line) => {
                            &&& o.wrote_line(m, 0, line)
                            &&& m.refresh == o.refresh
                            &&& (if o.active == 0 {
                                r matches Some(s) && s@ == line
                            } else {
                                r is None
                            })
                        },
                        None => m == o && r is None,
                    }
                },
            }
        }),
{
    match &cmd {
        Command::Privmsg(sender, target, _) => {
            let username = itf.get_username();
            let log_target: &str = if str_eq(target.as_str(), username.as_str()) {
                sender.as_str()
            } else {
                target.as_str()
            };
            let output = match cmd.to_printable() {
                Some(s) => s,
                None => {
                    proof {
                        assert(false);
                    }
                    String::new()
                },
            };
            match itf.get_channel_pos(log_target) {
                Some(pos) => {
                    itf.write_to_chan(pos, output.as_str());
                    proof {
                        assert(itf@.ids() =~= old(itf)@.ids());
                    }
                    if itf.is_active(log_target) {
                        Some(output)
                    } else {
                        None
                    }
                },
                None => {
                    let server = itf.get_server();
                    let chan = Channel::new(log_target, server.as_str());
                    itf.push_channel(chan);
                    let n = itf.channels_len();
                    itf.write_to_chan(n - 1, output.as_str());
                    itf.set_refresh_buffers_flag();
                    proof {
                        let o = old(itf)@;
                        let m = itf@;
                        let lt = log_target_spec(sender@, target@, o.username);
                        let last = o.channels.len() as int;
                        assert(m.channels[last].wf());
                        assert(m.channels[last].log =~= seq![output@]);
                        assert(m.channels[last].buffer =~= m.channels[last].log);
                        assert(m.channels =~~= o.channels.push(
                            ChannelModel {
                                id: lt,
                                server: o.server,
                                log: seq![output@],
                                buffer: seq![output@],
                            },
                        ));
                    }
                    None
                },
            }
        },
        _ => {
            match cmd.to_printable() {
                Some(output) => {
                    itf.write_to_chan(0, output.as_str());
                    if itf.get_active_channel_pos() == 0 {
                        Some(output)
                    } else {
                        None
                    }
                },
                None => None,
            }
        },
    }
}

/// Parses one typed line, applying its local effects to the session.  A
/// line not starting with the meta prefix `:` is a message to the active
/// channel.  Otherwise the second character selects: `q` raises
/// shutdown and yields `Quit` (with the rest of the line as the parting
/// words, or a stock phrase); `j` joins each named channel and makes the
/// last one active; `p` parts each named channel that exists (the
/// status channel is permanent); `c` followed by an in-range number
/// switches the active channel, and otherwise asks for the buffer list.
pub fn parse_user_input(inp: &str, itf: &mut Interface) -> (c: Command)
    requires
        old(itf)@.wf(),
    ensures
        final(itf)@.wf(),
        final(itf)@.username == old(itf)@.username,
        final(itf)@.server == old(itf)@.server,
        final(itf)@.pending == old(itf)@.pending,
        ({
            let o = old(itf)@;
            let m = final(itf)@;
            if inp@.len() == 0 || inp@[0] != ':' {
                &&& m == o
                &&& c@ == CmdModel::Privmsg(o.username, o.channels[o.active].id, inp@)
            } else if inp@.len() == 1 {
                &&& m == o
                &&& c@ == CmdModel::Unknown
            } else {
                let sel = inp@[1];
                let args = inp@.subrange(2, inp@.len() as int);
                if sel == 'q' {
                    &&& m.shutdown == true
                    &&& m.channels == o.channels
                    &&& m.active == o.active
                    &&& m.refresh == o.refresh
                    &&& c@ == CmdModel::Quit(
                        if trim_spec(args).len() == 0 {
                            "Quitting ..."@
                        } else {
                            trim_spec(args)
                        },
                    )
                } else if sel == 'j' {
                    let ts = tokens(args);
                    &&& c@ == CmdModel::Join(ts)
                    &&& m.shutdown == o.shutdown
                    &&& (if ts.len() > 0 {
                        &&& m.channels == joined_channels(o.channels, o.server, ts)
                        &&& m.active == m.channels.len() - 1
                        &&& m.refresh == true
                    } else {
                        m == o
                    })
                } else if sel == 'p' {
                    let res = part_all(o.channels, o.active, tokens(args));
                    &&& c@ == CmdModel::Part(res.2)
                    &&& m.channels == res.0
                    &&& m.active == res.1
                    &&& m.refresh == true
                    &&& m.shutdown == o.shutdown
                } else if sel == 'c' {
                    let num = trim_spec(args);
                    if num.len() > 0 && all_digits(num) && digits_val(num) < o.channels.len() {
                        &&& c@ matches CmdModel::Internal(ui) && ui matches
                            UiCommand::SwitchBuffer(k) && k == digits_val(num)
                        &&& m.channels == o.channels
                        &&& m.active == digits_val(num)
                        &&& m.refresh == true
                        &&& m.shutdown == o.shutdown
                    } else {
                        &&& m == o
                        &&& c@ == CmdModel::Internal(UiCommand::PrintBuffers)
                    }
                } else {
                    &&& m == o
                    &&& c@ == CmdModel::Unknown
                }
            }
        }),
{
    let n = inp.unicode_len();
    if n == 0 || inp.get_char(0) != ':' {
        let username = itf.get_username();
        let active = itf.get_active_channel();
        return Command::Privmsg(username, active, String::from_str(inp));
    }
    if n == 1 {
        return Command::Unknown;
    }
    let sel = inp.get_char(1);
    let args = inp.substring_char(2, n);
    if sel == 'q' {
        itf.set_shutdown_flag();
        let reason = trim_of(args);
        if reason.as_str().unicode_len() == 0 {
            Command::Quit(String::from_str("Quitting ..."))
        } else {
            Command::Quit(reason)
        }
    } else if sel == 'j' {
        let ts = split_tokens(args);
        let ghost o = old(itf)@;
        let ghost tsd = ts.deep_view();
        if ts.len() > 0 {
            let server = itf.get_server();
            let mut i: usize = 0;
            proof {
                assert(tsd.len() == ts@.len());
                assert(itf@.channels =~= o.channels + tsd.subrange(0, 0).map_values(
                    |t: Seq<char>| fresh_channel(t, o.server),
                ));
            }
            while i < ts.len()
                invariant
                    0 <= i <= ts.len(),
                    tsd == ts.deep_view(),
                    tsd.len() == ts@.len(),
                    server@ == o.server,
                    itf@.wf(),
                    itf@.channels == o.channels + tsd.subrange(0, i as int).map_values(
                        |t: Seq<char>| fresh_channel(t, o.server),
                    ),
                    itf@.active == o.active,
                    itf@.same_identity(o),
                    o.wf(),
                decreases ts.len() - i,
            {
                let chan = Channel::new(ts[i].as_str(), server.as_str());
                itf.push_channel(chan);
                proof {
                    assert(tsd[i as int] == ts@[i as int]@);
                    assert(itf@.channels =~= o.channels + tsd.subrange(0, i + 1).map_values(
                        |t: Seq<char>| fresh_channel(t, o.server),
                    ));
                }
                i = i + 1;
            }
            proof {
                assert(tsd.subrange(0, tsd.len() as int) =~= tsd);
                assert(itf@.channels =~= joined_channels(o.channels, o.server, tsd));
            }
            let last = itf.channels_len() - 1;
            itf.store_active_channel(last);
            itf.set_refresh_buffers_flag();
        }
        Command::Join(ts)
    } else if sel == 'p' {
        let ts = split_tokens(args);
        let ghost o = old(itf)@;
        let ghost tsd = ts.deep_view();
        let ghost goal = part_all(o.channels, o.active, tsd);
        let mut kept: Vec<String> = Vec::new();
        let mut i: usize = 0;
        proof {
            assert(tsd.len() == ts@.len());
            assert(tsd.skip(0) =~= tsd);
        }
        while i < ts.len()
            invariant
                0 <= i <= ts.len(),
                tsd == ts.deep_view(),
                tsd.len() == ts@.len(),
                itf@.wf(),
                itf@.same_identity(o),
                goal == part_all(o.channels, o.active, tsd),
                part_all(itf@.channels, itf@.active, tsd.skip(i as int)).0 == goal.0,
                part_all(itf@.channels, itf@.active, tsd.skip(i as int)).1 == goal.1,
                kept.deep_view() + part_all(itf@.channels, itf@.active, tsd.skip(i as int)).2
                    == goal.2,
            decreases ts.len() - i,
        {
            let ghost cur = itf@;
            let ghost remaining = tsd.skip(i as int);
            proof {
                assert(remaining.len() == tsd.len() - i);
                assert(remaining[0] == tsd[i as int]);
                assert(remaining.skip(1) =~= tsd.skip(i + 1));
                assert(tsd[i as int] == ts@[i as int]@);
            }
            let ghost kd = kept.deep_view();
            let ghost step = part_one(cur.channels, cur.active, remaining[0]);
            match itf.get_channel_pos(ts[i].as_str()) {
                Some(pos) => {
                    if pos != 0 {
                        itf.remove_channel(pos);
                        kept.push(ts[i].clone());
                        proof {
                            assert(step.2);
                            assert(itf@.channels =~~= step.0);
                            assert(itf@.active == step.1);
                            assert(kept.deep_view() =~= kd + seq![tsd[i as int]]);
                            let tail2 = part_all(itf@.channels, itf@.active, tsd.skip(i + 1)).2;
                            assert(part_all(cur.channels, cur.active, remaining).2 == seq![tsd[i as int]]
                                + tail2);
                            assert((kd + seq![tsd[i as int]]) + tail2 =~= kd + (seq![tsd[i as int]]
                                + tail2));
                        }
                    } else {
                        proof {
                            assert(!step.2);
                            assert(itf@.channels =~~= step.0);
                        }
                    }
                },
                None => {
                    proof {
                        assert(!step.2);
                        assert(itf@.channels =~~= step.0);
                    }
                },
            }
            i = i + 1;
        }
        proof {
            assert(tsd.skip(tsd.len() as int) =~= Seq::<Seq<char>>::empty());
            assert(kept.deep_view() + Seq::<Seq<char>>::empty() =~= kept.deep_view());
        }
        itf.set_refresh_buffers_flag();
        Command::Part(kept)
    } else if sel == 'c' {
        let len = itf.channels_len();
        let num = trim_of(args);
        match parse_usize(num.as_str()) {
            Some(k) => {
                if k < len {
                    itf.store_active_channel(k);
                    itf.set_refresh_buffers_flag();
                    Command::Internal(UiCommand::SwitchBuffer(k))
                } else {
                    Command::Internal(UiCommand::PrintBuffers)
                }
            },
            None => Command::Internal(UiCommand::PrintBuffers),
        }
    } else {
        Command::Unknown
    }
}

} // verus!
