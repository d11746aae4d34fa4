//! Text preparation for the renderer: greedy word wrap of a display
//! line to the terminal width.

use vstd::prelude::*;
use crate::text::{split_tokens, tokens};

verus! {

/// Greedy wrap of the words `ws` into lines of at most `max_len`
/// characters, counting the single spaces that join words on a line:
/// each word lands on the current line when it fits, and opens a new
/// line otherwise.  A word wider than `max_len` stands on a line of its
/// own.  `cur` is the line under construction.
pub open spec fn wrap_acc(ws: Seq<Seq<char>>, cur: Seq<char>, max_len: int) -> Seq<Seq<char>>
    decreases ws.len(),
{
    if ws.len() == 0 {
        if cur.len() == 0 {
            Seq::empty()
        } else {
            seq![cur]
        }
    } else {
        let w = ws[0];
        if cur.len() == 0 {
            wrap_acc(ws.skip(1), w, max_len)
        } else if cur.len() + 1 + w.len() <= max_len {
            wrap_acc(ws.skip(1), cur + " "@ + w, max_len)
        } else {
            seq![cur] + wrap_acc(ws.skip(1), w, max_len)
        }
    }
}

/// The lines that `split_line` produces: the words of `s`, wrapped
/// greedily to `max_len`.
pub open spec fn split_line_spec(s: Seq<char>, max_len: int) -> Seq<Seq<char>> {
    wrap_acc(tokens(s), Seq::empty(), max_len)
}

/// Wraps `s` to lines at most `max_len` characters wide, greedily, with
/// single spaces between the words of a line.  Runs of whitespace in
/// `s` collapse; a word wider than `max_len` stands on a line of its
/// own rather than being cut.
pub fn split_line(s: &str, max_len: usize) -> (r: Vec<String>)
    ensures
        r.deep_view() == split_line_spec(s@, max_len as int),
{
    let words = split_tokens(s);
    let ghost wsd = words.deep_view();
    let mut lines: Vec<String> = Vec::new();
    let mut line = String::new();
    let mut i: usize = 0;
    proof {
        assert(wsd.skip(0) =~= wsd);
        assert(lines.deep_view() + wrap_acc(wsd, Seq::empty(), max_len as int) =~= wrap_acc(
            wsd,
            Seq::empty(),
            max_len as int,
        ));
        assert(wsd.len() == words@.len());
    }
    while i < words.len()
        invariant
            0 <= i <= words.len(),
            wsd == words.deep_view(),
            wsd.len() == words@.len(),
            lines.deep_view() + wrap_acc(wsd.skip(i as int), line@, max_len as int)
                == split_line_spec(s@, max_len as int),
        decreases words.len() - i,
    {
        let ghost remaining = wsd.skip(i as int);
        let ghost kd = lines.deep_view();
        proof {
            assert(remaining.len() == wsd.len() - i);
            assert(remaining[0] == wsd[i as int]);
            assert(remaining.skip(1) =~= wsd.skip(i + 1));
            assert(wsd[i as int] == words@[i as int]@);
        }
        let w_len = words[i].as_str().unicode_len();
        let line_len = line.as_str().unicode_len();
        if line_len == 0 {
            line = words[i].clone();
        } else if w_len <= max_len && line_len < max_len - w_len {
            assert(line@.len() + 1 + wsd[i as int].len() <= max_len);
            let ghost prevline = line@;
            line.append(" ");
            line.append(words[i].as_str());
            proof {
                assert(line@ =~= prevline + " "@ + wsd[i as int]);
            }
        } else {
            assert(!(line@.len() + 1 + wsd[i as int].len() <= max_len));
            let ghost flushed = line@;
            lines.push(line);
            line = words[i].clone();
            proof {
                assert(lines.deep_view() =~= kd + seq![flushed]);
                assert((kd + seq![flushed]) + wrap_acc(wsd.skip(i + 1), line@, max_len as int)
                    =~= kd + (seq![flushed] + wrap_acc(
                    wsd.skip(i + 1),
                    line@,
                    max_len as int,
                )));
            }
        }
        i = i + 1;
    }
    proof {
        assert(wsd.skip(wsd.len() as int) =~= Seq::<Seq<char>>::empty());
    }
    if line.as_str().unicode_len() > 0 {
        let ghost flushed = line@;
        lines.push(line);
        proof {
            assert(lines.deep_view() =~= split_line_spec(s@, max_len as int));
        }
        lines
    } else {
        proof {
            assert(lines.deep_view() + Seq::<Seq<char>>::empty() =~= lines.deep_view());
        }
        lines
    }
}

} // verus!
