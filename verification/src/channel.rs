//! One conversation target: a unique identity, an append-only log, and a
//! bounded in-memory window onto the log's tail.
//!
//! The log file itself lives outside this library; the `log` field is the
//! ghost record of every line this session knows to be in it, and the
//! invariant ties the in-memory window to that record.

use std::collections::VecDeque;
use vstd::prelude::*;

verus! {

/// Capacity of a channel's in-memory history: once it is full, the
/// oldest line is evicted for each new one.
pub const MAX_HIST: usize = 1000;

/// The mathematical shape of a channel: its identity, every log line
/// the session knows of (oldest first), and the in-memory window.
#[verifier::ext_equal]
pub ghost struct ChannelModel {
    pub id: Seq<char>,
    pub server: Seq<char>,
    pub log: Seq<Seq<char>>,
    pub buffer: Seq<Seq<char>>,
}

impl ChannelModel {
    /// The window is exactly the log's tail: the most recent lines,
    /// oldest first, and at most `MAX_HIST` of them.
    pub open spec fn wf(self) -> bool {
        &&& self.buffer.len() == if self.log.len() <= MAX_HIST {
            self.log.len()
        } else {
            MAX_HIST as nat
        }
        &&& self.buffer == self.log.skip(self.log.len() - self.buffer.len())
    }
}

/// One conversation target and its bounded history.
pub struct Channel {
    id: String,
    server: String,
    buffer: VecDeque<String>,
    log: Ghost<Seq<Seq<char>>>,
}

impl View for Channel {
    type V = ChannelModel;

    closed spec fn view(&self) -> ChannelModel {
        ChannelModel {
            id: self.id@,
            server: self.server@,
            log: self.log@,
            buffer: self.buffer@.map_values(|s: String| s@),
        }
    }
}

impl DeepView for Channel {
    type V = ChannelModel;

    open spec fn deep_view(&self) -> ChannelModel {
        self.view()
    }
}

impl Channel {
    /// A fresh channel with an empty history.
    pub fn new(id: &str, server: &str) -> (c: Channel)
        ensures
            c@ == (ChannelModel {
                id: id@,
                server: server@,
                log: Seq::empty(),
                buffer: Seq::empty(),
            }),
            c@.wf(),
    {
        let c = Channel {
            id: String::from_str(id),
            server: String::from_str(server),
            buffer: VecDeque::new(),
            log: Ghost(Seq::empty()),
        };
        proof {
            assert(c@.buffer =~= Seq::<Seq<char>>::empty());
            assert(c@.log.skip(0) =~= Seq::<Seq<char>>::empty());
        }
        c
    }

    /// A channel restored from the lines read back from its log file,
    /// oldest first.  When the read began mid-file, `drop_first`
    /// discards the possibly truncated first line.  Every line kept
    /// counts as known log content; only the most recent `MAX_HIST` of
    /// them stay in memory.
    pub fn with_history(id: &str, server: &str, lines: &Vec<String>, drop_first: bool) -> (c:
        Channel)
        ensures
            ({
                let known = if drop_first && lines@.len() > 0 {
                    lines.deep_view().skip(1)
                } else {
                    lines.deep_view()
                };
                &&& c@.id == id@
                &&& c@.server == server@
                &&& c@.log == known
                &&& c@.wf()
            }),
    {
        let n = lines.len();
        let first: usize = if drop_first && n > 0 {
            1
        } else {
            0
        };
        let start: usize = if n - first > MAX_HIST {
            n - MAX_HIST
        } else {
            first
        };
        let mut buffer: VecDeque<String> = VecDeque::new();
        let mut i: usize = start;
        while i < n
            invariant
                start <= i <= n,
                n == lines@.len(),
                buffer@.map_values(|s: String| s@) == lines.deep_view().subrange(
                    start as int,
                    i as int,
                ),
            decreases n - i,
        {
            let ghost prev = buffer@;
            buffer.push_back(lines[i].clone());
            proof {
                assert(lines.deep_view()[i as int] == lines@[i as int]@);
                assert forall|j: int| 0 <= j < prev.len() implies #[trigger] buffer@[j]@ == lines.deep_view().subrange(
                    start as int,
                    i as int,
                )[j] by {
                    assert(prev.map_values(|s: String| s@)[j] == prev[j]@);
                }
                assert(prev.map_values(|s: String| s@).len() == prev.len());
                assert(prev.len() == i - start);
                assert(buffer@.map_values(|s: String| s@) =~~= lines.deep_view().subrange(
                    start as int,
                    i + 1,
                ));
            }
            i = i + 1;
        }
        let c = Channel {
            id: String::from_str(id),
            server: String::from_str(server),
            buffer,
            log: Ghost(
                if drop_first && lines@.len() > 0 {
                    lines.deep_view().skip(1)
                } else {
                    lines.deep_view()
                },
            ),
        };
        proof {
            assert(c@.log.skip(c@.log.len() - c@.buffer.len()) =~= c@.buffer);
        }
        c
    }

    /// The channel's identity.
    pub fn get_id(&self) -> (r: &str)
        ensures
            r@ == self@.id,
    {
        self.id.as_str()
    }

    /// The in-memory history, oldest first.
    pub fn get_buffer(&self) -> (r: &VecDeque<String>)
        ensures
            r@.map_values(|s: String| s@) == self@.buffer,
    {
        &self.buffer
    }

    /// Appends one line: it joins the known log and enters the window,
    /// evicting the window's oldest line when it is full.
    pub fn write(&mut self, message: &str)
        requires
            old(self)@.wf(),
        ensures
            final(self)@.id == old(self)@.id,
            final(self)@.server == old(self)@.server,
            final(self)@.log == old(self)@.log.push(message@),
            final(self)@.wf(),
    {
        if self.buffer.len() >= MAX_HIST {
            self.buffer.pop_front();
        }
        self.buffer.push_back(String::from_str(message));
        proof {
            self.log@ = self.log@.push(message@);
        }
        proof {
            let m = self@;
            let o = old(self)@;
            assert(m.buffer =~= if o.buffer.len() >= MAX_HIST {
                o.buffer.skip(1).push(message@)
            } else {
                o.buffer.push(message@)
            });
            assert(m.log.skip(m.log.len() - m.buffer.len()) =~= m.buffer);
        }
    }
}

} // verus!
