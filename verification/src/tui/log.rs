//! The newest log lines, kept while the views own the terminal.

use std::collections::VecDeque;

use vstd::prelude::*;

use crate::seqs::{group_seqs, take_next};
use crate::text::{chars, from_range};
use crate::time::Timestamp;

verus! {

broadcast use group_seqs;

#[derive(Debug, Clone, Copy, PartialEq, Eq, Structural)]
pub enum LogLevel {
    Error,
    Warn,
    Info,
    Debug,
    Trace,
}

#[derive(Debug)]
pub struct LogLine {
    pub at: Timestamp,
    pub level: LogLevel,
    pub target: String,
    pub message: String,
}

/// A log line as mathematics.
pub struct Logged {
    pub at: int,
    pub level: LogLevel,
    pub target: Seq<char>,
    pub message: Seq<char>,
}

impl View for LogLine {
    type V = Logged;

    open spec fn view(&self) -> Logged {
        Logged {
            at: self.at@,
            level: self.level,
            target: self.target@,
            message: self.message@,
        }
    }
}

impl Clone for LogLine {
    fn clone(&self) -> (result: LogLine)
        ensures
            result@ == self@,
    {
        LogLine {
            at: self.at,
            level: self.level,
            target: self.target.clone(),
            message: self.message.clone(),
        }
    }
}

pub open spec fn log_line_views(items: Seq<LogLine>) -> Seq<Logged> {
    items.map_values(|item: LogLine| item@)
}

/// The last `most` elements of a sequence.
pub open spec fn newest<A>(s: Seq<A>, most: int) -> Seq<A> {
    if s.len() <= most {
        s
    } else {
        s.skip(s.len() - most)
    }
}

/// The newest lines, at most as many as it was made for.
#[derive(Debug)]
pub struct LogBuffer {
    lines: VecDeque<LogLine>,
    capacity: usize,
}

impl View for LogBuffer {
    type V = Seq<Logged>;

    closed spec fn view(&self) -> Seq<Logged> {
        log_line_views(self.lines@)
    }
}

impl LogBuffer {
    #[verifier::type_invariant]
    spec fn wf(&self) -> bool {
        &&& self.capacity >= 1
        &&& self.lines@.len() <= self.capacity
    }

    /// How many lines it keeps.
    pub closed spec fn limit(&self) -> int {
        self.capacity as int
    }

    /// A buffer without lines; it keeps at least one.
    pub fn new(capacity: usize) -> (result: LogBuffer)
        ensures
            result@ == Seq::<Logged>::empty(),
            result.limit() == if capacity == 0 {
                1
            } else {
                capacity as int
            },
    {
        LogBuffer {
            lines: VecDeque::new(),
            capacity: if capacity == 0 {
                1
            } else {
                capacity
            },
        }
    }

    /// How many lines there are: never more than the limit.
    pub fn len(&self) -> (result: usize)
        ensures
            result == self@.len(),
            result <= self.limit(),
            1 <= self.limit(),
    {
        proof {
            use_type_invariant(self);
        }
        self.lines.len()
    }

    pub fn is_empty(&self) -> (result: bool)
        ensures
            result == (self@.len() == 0),
    {
        self.lines.len() == 0
    }

    /// Adds a line; the oldest leaves where there is no room.
    pub fn push(&mut self, line: LogLine)
        ensures
            final(self).limit() == old(self).limit(),
            final(self)@ == newest(old(self)@.push(line@), old(self).limit()),
    {
        proof {
            use_type_invariant(&*self);
        }
        let ghost before = self.lines@;
        let mut next = LogBuffer { lines: VecDeque::new(), capacity: self.capacity };
        core::mem::swap(self, &mut next);
        let capacity: usize = next.capacity;
        let mut lines = next.lines;
        if lines.len() == capacity {
            let _oldest = lines.pop_front();
        }
        lines.push_back(line);
        *self = LogBuffer { lines, capacity };
        proof {
            let whole = log_line_views(before).push(line@);
            if before.len() == capacity {
                assert(self@ =~= whole.skip(1));
            } else {
                assert(self@ =~= whole);
            }
        }
    }

    /// The lines, oldest first.
    pub fn snapshot(&self) -> (result: Vec<LogLine>)
        ensures
            log_line_views(result@) == self@,
    {
        let ghost all = self.lines@;
        let mut out: Vec<LogLine> = Vec::new();
        let mut i: usize = 0;
        while i < self.lines.len()
            invariant
                i <= all.len(),
                all == self.lines@,
                log_line_views(out@) == log_line_views(all.take(i as int)),
            decreases all.len() - i,
        {
            proof {
                take_next(all, i as int);
            }
            out.push(self.lines[i].clone());
            i = i + 1;
        }
        out
    }
}

/// However many lines there were, the newest are the ones that are kept: one
/// more line on what was kept of the earlier ones is what is kept of all.
pub proof fn the_newest_lines_are_kept(earlier: Seq<Logged>, line: Logged, limit: int)
    requires
        1 <= limit,
    ensures
        newest(newest(earlier, limit).push(line), limit) == newest(earlier.push(line), limit),
        newest(earlier.push(line), limit).len() <= limit,
        newest(earlier.push(line), limit).last() == line,
{
    assert(newest(newest(earlier, limit).push(line), limit) =~= newest(
        earlier.push(line),
        limit,
    ));
}

/// The last place at or before `at` where `::` stands.
pub open spec fn separator_before(text: Seq<char>, at: int) -> Option<int>
    decreases at + 1,
{
    if at < 0 {
        None
    } else if at + 1 < text.len() && text[at] == ':' && text[at + 1] == ':' {
        Some(at)
    } else {
        separator_before(text, at - 1)
    }
}

/// The last part of a path of modules.
pub open spec fn last_part(text: Seq<char>) -> Seq<char> {
    match separator_before(text, text.len() - 1) {
        Some(at) => text.skip(at + 2),
        None => text,
    }
}

/// The last part of a path of modules, which is how a log line names its
/// origin.
pub fn short_target(target: &str) -> (result: String)
    ensures
        result@ == last_part(target@),
{
    let all: Vec<char> = chars(target);
    let mut i: usize = all.len();
    while i > 0
        invariant
            i <= all@.len(),
            all@ == target@,
            separator_before(target@, target@.len() - 1) == separator_before(target@, i - 1),
        decreases i,
    {
        let at: usize = i - 1;
        if at + 1 < all.len() && all[at] == ':' && all[at + 1] == ':' {
            let result: String = from_range(&all, at + 2, all.len());
            assert(result@ =~= target@.skip(at + 2));
            return result;
        }
        i = i - 1;
    }
    let result: String = from_range(&all, 0, all.len());
    assert(result@ =~= target@);
    result
}

} // verus!
