//! The shared session state: the ordered channel list with its permanent
//! status channel, the active-channel index, the shutdown and
//! refresh-needed flags, and the queue of log appends not yet flushed.
//!
//! One value of this type is created per connection and drives every
//! loop of the client.  The caller is expected to guard it by a single
//! mutual-exclusion domain; each operation here is one atomic step of
//! the session.

use vstd::prelude::*;
use crate::channel::{Channel, ChannelModel};
use crate::connection::Connection;
use crate::text::str_eq;

verus! {

/// One pending append to a channel's log file: which channel's log, and
/// the line to add.  The library records appends in order; the caller
/// drains them and performs the file writes.
pub struct LogEntry {
    pub channel: String,
    pub line: String,
}

/// The mathematical shape of a pending log append.
#[verifier::ext_equal]
pub ghost struct LogEntryModel {
    pub channel: Seq<char>,
    pub line: Seq<char>,
}

impl View for LogEntry {
    type V = LogEntryModel;

    open spec fn view(&self) -> LogEntryModel {
        LogEntryModel { channel: self.channel@, line: self.line@ }
    }
}

impl DeepView for LogEntry {
    type V = LogEntryModel;

    open spec fn deep_view(&self) -> LogEntryModel {
        self.view()
    }
}

/// The mathematical shape of the session: the channels in order, the
/// connection's identity, the active index, the two control flags, and
/// the pending log appends.
#[verifier::ext_equal]
pub ghost struct SessionModel {
    pub channels: Seq<ChannelModel>,
    pub username: Seq<char>,
    pub server: Seq<char>,
    pub active: int,
    pub shutdown: bool,
    pub refresh: bool,
    pub pending: Seq<LogEntryModel>,
}

/// The ids of a channel list, in order.
pub open spec fn ids_of(chs: Seq<ChannelModel>) -> Seq<Seq<char>> {
    chs.map_values(|c: ChannelModel| c.id)
}

impl SessionModel {
    /// The ids of the channels, in order.
    pub open spec fn ids(self) -> Seq<Seq<char>> {
        ids_of(self.channels)
    }

    /// `other` is `self` after one line entered the history of channel
    /// `pos`: that channel's log grew by the line, the append joined the
    /// pending queue, and no other channel moved.
    pub open spec fn wrote_line(self, other: SessionModel, pos: int, line: Seq<char>) -> bool {
        &&& other.channels.len() == self.channels.len()
        &&& forall|j: int|
            0 <= j < self.channels.len() && j != pos ==> other.channels[j] == self.channels[j]
        &&& other.channels[pos].id == self.channels[pos].id
        &&& other.channels[pos].server == self.channels[pos].server
        &&& other.channels[pos].log == self.channels[pos].log.push(line)
        &&& other.pending == self.pending.push(
            LogEntryModel { channel: self.channels[pos].id, line: line },
        )
    }

    /// The session always holds at least the status channel at index 0,
    /// the active index is valid, and every channel's window is
    /// well-formed.
    pub open spec fn wf(self) -> bool {
        &&& self.channels.len() >= 1
        &&& 0 <= self.active < self.channels.len()
        &&& forall|j: int|
            0 <= j < self.channels.len() ==> (#[trigger] self.channels[j]).wf()
    }

    /// Everything but the channel list and the active index, unchanged.
    pub open spec fn same_identity(self, other: SessionModel) -> bool {
        &&& self.username == other.username
        &&& self.server == other.server
        &&& self.shutdown == other.shutdown
        &&& self.refresh == other.refresh
        &&& self.pending == other.pending
    }
}

/// The position of the first channel whose id is `id`, scanning from
/// `i`; the list's length when there is none.
pub open spec fn find_id_from(ids: Seq<Seq<char>>, id: Seq<char>, i: int) -> int
    decreases ids.len() - i when 0 <= i <= ids.len()
{
    if i >= ids.len() {
        ids.len() as int
    } else if ids[i] == id {
        i
    } else {
        find_id_from(ids, id, i + 1)
    }
}

/// The position of the first channel whose id is `id`, or the list's
/// length when there is none.
pub open spec fn find_id(ids: Seq<Seq<char>>, id: Seq<char>) -> int {
    find_id_from(ids, id, 0)
}

/// Where the active index lands after removing index `removed` from a
/// list that now has `new_len` entries: unchanged while it still points
/// at the same channel's slot, the new last slot otherwise.
pub open spec fn reclamped(active: int, removed: int, new_len: int) -> int {
    if active == removed || active >= new_len {
        new_len - 1
    } else {
        active
    }
}

/// The shared session state.
pub struct Interface {
    channels: Vec<Channel>,
    conn: Connection,
    active_channel: usize,
    shutdown_flag: bool,
    refresh_buffers_flag: bool,
    pending: Vec<LogEntry>,
}

impl View for Interface {
    type V = SessionModel;

    closed spec fn view(&self) -> SessionModel {
        SessionModel {
            channels: self.channels.deep_view(),
            username: self.conn.username@,
            server: self.conn.server@,
            active: self.active_channel as int,
            shutdown: self.shutdown_flag,
            refresh: self.refresh_buffers_flag,
            pending: self.pending.deep_view(),
        }
    }
}

impl Interface {
    /// A fresh session: only the status channel, named after the server,
    /// exists; it is active; no flag is set; nothing is pending.
    pub fn new(conn: Connection) -> (itf: Interface)
        ensures
            itf@.channels.len() == 1,
            itf@.channels[0] == (ChannelModel {
                id: conn.server@,
                server: conn.server@,
                log: Seq::empty(),
                buffer: Seq::empty(),
            }),
            itf@.username == conn.username@,
            itf@.server == conn.server@,
            itf@.active == 0,
            itf@.shutdown == false,
            itf@.refresh == false,
            itf@.pending == Seq::<LogEntryModel>::empty(),
            itf@.wf(),
    {
        let root = Channel::new(conn.server.as_str(), conn.server.as_str());
        let mut channels: Vec<Channel> = Vec::new();
        channels.push(root);
        let itf = Interface {
            channels,
            conn,
            active_channel: 0,
            shutdown_flag: false,
            refresh_buffers_flag: false,
            pending: Vec::new(),
        };
        proof {
            assert(itf@.pending =~= Seq::<LogEntryModel>::empty());
        }
        itf
    }

    /// How many channels the session holds.
    pub fn channels_len(&self) -> (r: usize)
        ensures
            r == self@.channels.len(),
    {
        self.channels.len()
    }

    /// The position of the first channel named `chan`, if any.
    pub fn get_channel_pos(&self, chan: &str) -> (r: Option<usize>)
        ensures
            ({
                let k = find_id(self@.ids(), chan@);
                if k < self@.channels.len() {
                    r matches Some(p) && p == k
                } else {
                    r is None
                }
            }),
    {
        let ghost ids = self@.ids();
        let n = self.channels.len();
        let mut i: usize = 0;
        while i < n
            invariant
                0 <= i <= n,
                n == self@.channels.len(),
                ids == self@.ids(),
                find_id(ids, chan@) == find_id_from(ids, chan@, i as int),
            decreases n - i,
        {
            proof {
                assert(ids[i as int] == self@.channels[i as int].id);
            }
            if str_eq(self.channels[i].get_id(), chan) {
                assert(find_id_from(ids, chan@, i as int) == i);
                return Some(i);
            }
            assert(find_id_from(ids, chan@, i as int) == find_id_from(ids, chan@, i + 1));
            i = i + 1;
        }
        assert(find_id_from(ids, chan@, i as int) == ids.len());
        None
    }

    /// Whether the channel named `chan` exists and is the active one.
    pub fn is_active(&self, chan: &str) -> (r: bool)
        ensures
            ({
                let k = find_id(self@.ids(), chan@);
                r == (k < self@.channels.len() && k == self@.active)
            }),
    {
        if let Some(pos) = self.get_channel_pos(chan) {
            pos == self.get_active_channel_pos()
        } else {
            false
        }
    }

    /// The id of the channel at `pos`, if any.
    pub fn get_channel(&self, pos: usize) -> (r: Option<String>)
        ensures
            pos < self@.channels.len() ==> (r matches Some(s) && s@ == self@.channels[pos as int].id),
            pos >= self@.channels.len() ==> r is None,
    {
        if pos < self.channels.len() {
            Some(String::from_str(self.channels[pos].get_id()))
        } else {
            None
        }
    }

    /// The id of the active channel.
    pub fn get_active_channel(&self) -> (r: String)
        requires
            self@.wf(),
        ensures
            r@ == self@.channels[self@.active].id,
    {
        String::from_str(self.channels[self.active_channel].get_id())
    }

    /// Appends a channel to the session.
    pub fn push_channel(&mut self, chan: Channel)
        requires
            old(self)@.wf(),
            chan@.wf(),
        ensures
            final(self)@.channels == old(self)@.channels.push(chan@),
            final(self)@.active == old(self)@.active,
            final(self)@.same_identity(old(self)@),
            final(self)@.wf(),
    {
        self.channels.push(chan);
        proof {
            assert(self@.channels =~= old(self)@.channels.push(chan@));
        }
    }

    /// Removes the channel at `pos` and re-clamps the active index, per
    /// the removal policy.  The status channel at index 0 is permanent,
    /// and a position out of range names no channel: both are no-ops.
    pub fn remove_channel(&mut self, pos: usize)
        requires
            old(self)@.wf(),
        ensures
            final(self)@.same_identity(old(self)@),
            final(self)@.wf(),
            ({
                let o = old(self)@;
                let m = final(self)@;
                if 0 < pos < o.channels.len() {
                    &&& m.channels == o.channels.remove(pos as int)
                    &&& m.active == reclamped(o.active, pos as int, o.channels.len() - 1)
                } else {
                    &&& m.channels == o.channels
                    &&& m.active == o.active
                }
            }),
    {
        if pos == 0 || pos >= self.channels.len() {
            return ;
        }
        self.channels.remove(pos);
        let len = self.channels.len();
        if self.active_channel == pos || self.active_channel >= len {
            self.active_channel = len - 1;
        }
        proof {
            assert(self@.channels =~= old(self)@.channels.remove(pos as int));
        }
    }

    /// Writes one line into the channel at `pos`: it enters that
    /// channel's history and joins the queue of pending log appends.
    /// Returns whether a channel was written at all.
    pub fn write_to_chan(&mut self, pos: usize, s: &str) -> (r: bool)
        requires
            old(self)@.wf(),
        ensures
            final(self)@.wf(),
            r == (pos < old(self)@.channels.len()),
            ({
                let o = old(self)@;
                let m = final(self)@;
                if pos < o.channels.len() {
                    o.wrote_line(m, pos as int, s@)
                } else {
                    &&& m.channels == o.channels
                    &&& m.pending == o.pending
                }
            }),
            final(self)@.active == old(self)@.active,
            final(self)@.username == old(self)@.username,
            final(self)@.server == old(self)@.server,
            final(self)@.shutdown == old(self)@.shutdown,
            final(self)@.refresh == old(self)@.refresh,
    {
        if pos >= self.channels.len() {
            proof {
                assert(self@.channels =~= old(self)@.channels);
            }
            return false;
        }
        let mut chan = self.channels.remove(pos);
        proof {
            assert(old(self)@.channels[pos as int] == old(self).channels@[pos as int]@);
            assert(chan@.wf());
        }
        let entry = LogEntry {
            channel: String::from_str(chan.get_id()),
            line: String::from_str(s),
        };
        chan.write(s);
        self.channels.insert(pos, chan);
        self.pending.push(entry);
        proof {
            let o = old(self)@;
            let m = self@;
            assert forall|j: int| 0 <= j < o.channels.len() && j != pos implies m.channels[j]
                == o.channels[j] by {
                assert(m.channels[j] == self.channels@[j]@);
            }
            assert(m.pending =~= o.pending.push(
                LogEntryModel { channel: o.channels[pos as int].id, line: s@ },
            ));
        }
        true
    }

    /// The position of the active channel.
    pub fn get_active_channel_pos(&self) -> (r: usize)
        ensures
            r == self@.active,
    {
        self.active_channel
    }

    /// Makes the channel at `n` the active one.
    pub fn store_active_channel(&mut self, n: usize)
        requires
            n < old(self)@.channels.len(),
        ensures
            final(self)@.active == n,
            final(self)@.channels == old(self)@.channels,
            final(self)@.same_identity(old(self)@),
    {
        self.active_channel = n;
    }

    /// Raises the shutdown flag; it never falls again, and every loop
    /// exits on its next look.
    pub fn set_shutdown_flag(&mut self)
        ensures
            final(self)@.shutdown == true,
            final(self)@.channels == old(self)@.channels,
            final(self)@.active == old(self)@.active,
            final(self)@.username == old(self)@.username,
            final(self)@.server == old(self)@.server,
            final(self)@.refresh == old(self)@.refresh,
            final(self)@.pending == old(self)@.pending,
    {
        self.shutdown_flag = true;
    }

    /// Whether the session is shutting down.
    pub fn should_shutdown(&self) -> (r: bool)
        ensures
            r == self@.shutdown,
    {
        self.shutdown_flag
    }

    /// Marks the buffer-list display stale.
    pub fn set_refresh_buffers_flag(&mut self)
        ensures
            final(self)@.refresh == true,
            final(self)@.channels == old(self)@.channels,
            final(self)@.active == old(self)@.active,
            final(self)@.username == old(self)@.username,
            final(self)@.server == old(self)@.server,
            final(self)@.shutdown == old(self)@.shutdown,
            final(self)@.pending == old(self)@.pending,
    {
        self.refresh_buffers_flag = true;
    }

    /// Clears the refresh-needed flag once the display is redrawn.
    pub fn unset_refresh_buffers_flag(&mut self)
        ensures
            final(self)@.refresh == false,
            final(self)@.channels == old(self)@.channels,
            final(self)@.active == old(self)@.active,
            final(self)@.username == old(self)@.username,
            final(self)@.server == old(self)@.server,
            final(self)@.shutdown == old(self)@.shutdown,
            final(self)@.pending == old(self)@.pending,
    {
        self.refresh_buffers_flag = false;
    }

    /// Whether the buffer-list display is stale.
    pub fn should_refresh_buffers(&self) -> (r: bool)
        ensures
            r == self@.refresh,
    {
        self.refresh_buffers_flag
    }

    /// Reads and clears the refresh-needed flag in one step: the first
    /// call after a structural change answers `true`, and a second call
    /// with no change between answers `false`.
    pub fn take_refresh_needed(&mut self) -> (r: bool)
        ensures
            r == old(self)@.refresh,
            final(self)@.refresh == false,
            final(self)@.channels == old(self)@.channels,
            final(self)@.active == old(self)@.active,
            final(self)@.username == old(self)@.username,
            final(self)@.server == old(self)@.server,
            final(self)@.shutdown == old(self)@.shutdown,
            final(self)@.pending == old(self)@.pending,
    {
        let r = self.refresh_buffers_flag;
        self.refresh_buffers_flag = false;
        r
    }

    /// The username this session connected as.
    pub fn get_username(&self) -> (r: String)
        ensures
            r@ == self@.username,
    {
        self.conn.username.clone()
    }

    /// The server this session is connected to.
    pub fn get_server(&self) -> (r: String)
        ensures
            r@ == self@.server,
    {
        self.conn.server.clone()
    }

    /// A snapshot of the history of the channel at `pos`, oldest first;
    /// empty when `pos` names no channel.
    pub fn channel_buffer(&self, pos: usize) -> (r: Vec<String>)
        ensures
            pos < self@.channels.len() ==> r.deep_view() == self@.channels[pos as int].buffer,
            pos >= self@.channels.len() ==> r.deep_view() == Seq::<Seq<char>>::empty(),
    {
        let mut out: Vec<String> = Vec::new();
        if pos >= self.channels.len() {
            proof {
                assert(out.deep_view() =~= Seq::<Seq<char>>::empty());
            }
            return out;
        }
        let buf = self.channels[pos].get_buffer();
        let n = buf.len();
        let mut i: usize = 0;
        while i < n
            invariant
                0 <= i <= n,
                pos < self.channels@.len(),
                n == self@.channels[pos as int].buffer.len(),
                buf@.map_values(|s: String| s@) == self@.channels[pos as int].buffer,
                out.deep_view() == self@.channels[pos as int].buffer.subrange(0, i as int),
            decreases n - i,
        {
            let ghost prev = out@;
            let ghost prevdeep = out.deep_view();
            out.push(buf[i].clone());
            proof {
                assert(prevdeep.len() == prev.len());
                assert(prevdeep.len() == i as int);
                assert(buf@.map_values(|s: String| s@)[i as int] == buf@[i as int]@);
                assert forall|j: int| 0 <= j < out@.len() implies #[trigger] out.deep_view()[j]
                    == self@.channels[pos as int].buffer.subrange(0, i + 1)[j] by {
                    assert(out.deep_view()[j] == out@[j]@);
                    if j < i {
                        assert(prevdeep[j] == prev[j]@);
                        assert(prevdeep[j] == self@.channels[pos as int].buffer.subrange(
                            0,
                            i as int,
                        )[j]);
                    }
                }
                assert(out.deep_view().len() == out@.len());
                assert(out.deep_view() =~= self@.channels[pos as int].buffer.subrange(
                    0,
                    i + 1,
                ));
            }
            i = i + 1;
        }
        proof {
            assert(self@.channels[pos as int].buffer.subrange(0, n as int)
                =~= self@.channels[pos as int].buffer);
        }
        out
    }

    /// Hands over every pending log append, in order, and clears the
    /// queue.
    pub fn take_pending(&mut self) -> (r: Vec<LogEntry>)
        ensures
            r.deep_view() == old(self)@.pending,
            final(self)@.pending == Seq::<LogEntryModel>::empty(),
            final(self)@.channels == old(self)@.channels,
            final(self)@.active == old(self)@.active,
            final(self)@.username == old(self)@.username,
            final(self)@.server == old(self)@.server,
            final(self)@.shutdown == old(self)@.shutdown,
            final(self)@.refresh == old(self)@.refresh,
    {
        let mut out: Vec<LogEntry> = Vec::new();
        core::mem::swap(&mut self.pending, &mut out);
        proof {
            assert(self@.pending =~= Seq::<LogEntryModel>::empty());
        }
        out
    }
}

} // verus!
