//! What a program prints, and the cycles that it asks to be tracked.
use vstd::prelude::*;

use crate::collections::{SpanMap, TextMap};

verus! {

/// The pieces of a text between its line ends. The last piece is the line that is not ended yet.
pub open spec fn pieces(text: Seq<char>) -> Seq<Seq<char>>
    decreases text.len(),
{
    if text.len() == 0 {
        seq![Seq::empty()]
    } else {
        let before = pieces(text.drop_last());
        if text.last() == '\n' {
            before.push(Seq::empty())
        } else {
            before.update(before.len() - 1, before.last().push(text.last()))
        }
    }
}

/// The contents of strings.
pub open spec fn contents(lines: Seq<String>) -> Seq<Seq<char>> {
    Seq::new(lines.len(), |i: int| lines[i]@)
}

/// There is always a last piece.
proof fn lemma_pieces(text: Seq<char>)
    ensures
        pieces(text).len() > 0,
    decreases text.len(),
{
    if text.len() > 0 {
        lemma_pieces(text.drop_last());
    }
}

/// Joining the pieces of a text with line ends.
pub open spec fn joined(pieces: Seq<Seq<char>>) -> Seq<char>
    decreases pieces.len(),
{
    if pieces.len() == 0 {
        Seq::empty()
    } else if pieces.len() == 1 {
        pieces[0]
    } else {
        joined(pieces.drop_last()).push('\n') + pieces.last()
    }
}

/// No character is lost or added when a text is cut into lines.
pub proof fn lines_make_up_the_text(text: Seq<char>)
    ensures
        joined(pieces(text)) == text,
    decreases text.len(),
{
    if text.len() > 0 {
        let before = text.drop_last();
        lines_make_up_the_text(before);
        lemma_pieces(before);
        let all = pieces(text);
        let head = pieces(before);
        if text.last() == '\n' {
            assert(all.drop_last() =~= head);
            assert(joined(all) =~= text);
        } else {
            assert(all.drop_last() =~= head.drop_last());
            assert(all.last() == head.last().push(text.last()));
            assert(joined(head) == before);
            assert(joined(all) =~= joined(head).push(text.last()));
            assert(text =~= before.push(text.last()));
        }
    }
}

/// What waits to be printed, and what is being tracked.
pub struct Console {
    /// The unfinished line of every file descriptor.
    io_buf: TextMap,
    /// The start and the depth of every tracked span.
    cycle_tracker: SpanMap,
}

impl Console {
    /// The unfinished line of a file descriptor.
    pub closed spec fn pending(&self, fd: u32) -> Seq<char> {
        if self.io_buf@.contains_key(fd) {
            self.io_buf@[fd]
        } else {
            Seq::empty()
        }
    }

    /// The tracked spans by name: when they started, and how many were tracked then.
    pub closed spec fn spans(&self) -> Map<Seq<char>, (u64, u32)> {
        self.cycle_tracker@
    }

    /// Create a console on which nothing was printed.
    pub fn new() -> (r: Self)
        ensures
            forall|fd: u32| #[trigger] r.pending(fd) == Seq::<char>::empty(),
            r.spans().is_empty(),
            r.spans().dom().finite(),
    {
        Console { io_buf: TextMap::new(), cycle_tracker: SpanMap::new() }
    }

    /// Print a text to a file descriptor. The lines that it ends are returned; the rest waits.
    pub fn io_buf_push(&mut self, fd: u32, s: &str) -> (r: Vec<String>)
        requires
            old(self).pending(fd).len() + s@.len() <= usize::MAX,
        ensures
            contents(r@) == pieces(old(self).pending(fd) + s@).drop_last(),
            final(self).pending(fd) == pieces(old(self).pending(fd) + s@).last(),
            forall|other: u32|
                other != fd ==> #[trigger] final(self).pending(other) == old(self).pending(other),
            final(self).spans() == old(self).spans(),
    {
        let mut text: String = match self.io_buf.remove(fd) {
            Some(line) => line,
            None => String::new(),
        };
        text.append(s);
        let whole: &str = text.as_str();
        let ghost all = whole@;
        assert(all =~= old(self).pending(fd) + s@);
        let n: usize = whole.unicode_len();
        let mut lines: Vec<String> = Vec::new();
        let mut start: usize = 0;
        let mut i: usize = 0;
        assert(contents(lines@) =~= Seq::empty());
        assert(all.subrange(0, 0) =~= Seq::empty());
        assert(pieces(all.take(0)) =~= contents(lines@).push(all.subrange(0, 0)));
        while i < n
            invariant
                n == all.len(),
                whole@ == all,
                start <= i <= n,
                pieces(all.take(i as int)) == contents(lines@).push(
                    all.subrange(start as int, i as int),
                ),
            decreases n - i,
        {
            let c: char = whole.get_char(i);
            let ghost before = pieces(all.take(i as int));
            assert(all.take(i + 1).drop_last() =~= all.take(i as int));
            if c == '\n' {
                let line: String = whole.substring_char(start, i).to_string();
                let ghost had = lines@;
                lines.push(line);
                start = i + 1;
                proof {
                    assert(contents(lines@) =~= contents(had).push(line@));
                    assert(all.subrange(i + 1, i + 1) =~= Seq::empty());
                    assert(pieces(all.take(i + 1)) =~= contents(lines@).push(
                        all.subrange(i + 1, i + 1),
                    ));
                }
            } else {
                proof {
                    assert(all.subrange(start as int, i + 1) =~= all.subrange(
                        start as int,
                        i as int,
                    ).push(c));
                    assert(pieces(all.take(i + 1)) =~= contents(lines@).push(
                        all.subrange(start as int, i + 1),
                    ));
                }
            }
            i = i + 1;
        }
        assert(all.take(n as int) =~= all);
        let rest: String = whole.substring_char(start, n).to_string();
        self.io_buf.insert(fd, rest);
        assert(contents(lines@) =~= pieces(all).drop_last());
        lines
    }

    /// Start to track a span. A span of that name that is already tracked starts anew.
    pub fn cycle_tracker_start(&mut self, name: &str, global_clk: u64)
        requires
            old(self).spans().dom().finite(),
            old(self).spans().dom().len() <= u32::MAX,
        ensures
            final(self).spans() == old(self).spans().insert(
                name@,
                (global_clk, old(self).spans().dom().len() as u32),
            ),
            forall|fd: u32| #[trigger] final(self).pending(fd) == old(self).pending(fd),
    {
        let depth: u32 = self.cycle_tracker.len() as u32;
        self.cycle_tracker.insert(name.to_string(), (global_clk, depth));
    }

    /// Stop to track a span and tell how many cycles passed since it started, if it is tracked.
    pub fn cycle_tracker_end(&mut self, name: &str, global_clk: u64) -> (r: Option<u64>)
        requires
            old(self).spans().contains_key(name@) ==> old(self).spans()[name@].0 <= global_clk,
        ensures
            r == (if old(self).spans().contains_key(name@) {
                Some((global_clk - old(self).spans()[name@].0) as u64)
            } else {
                None
            }),
            final(self).spans() == old(self).spans().remove(name@),
            forall|fd: u32| #[trigger] final(self).pending(fd) == old(self).pending(fd),
    {
        match self.cycle_tracker.remove(name) {
            Some((start, _depth)) => Some(global_clk - start),
            None => None,
        }
    }
}

} // verus!
