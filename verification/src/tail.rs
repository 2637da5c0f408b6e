//! The last lines of a file that is there already when the program starts.

use crate::message::{LineView, LogLine};
use crate::path::FilePath;
use crate::text;
use vstd::prelude::*;

verus! {

/// How many lines of an existing file are shown.
pub const TAIL_LINES: usize = 10;

/// The last lines of `lines`, as many as are shown.
pub open spec fn last_lines(lines: Seq<Seq<char>>) -> Seq<Seq<char>> {
    if lines.len() <= TAIL_LINES {
        lines
    } else {
        lines.skip(lines.len() - TAIL_LINES)
    }
}

/// What a reader reports when it is asked for the next line.
#[derive(Debug)]
pub enum ReadEvent {
    /// A line, with its end as far as it has one.
    Line(String),
    /// There is nothing more to read for now.
    EndOfFile,
    /// Reading failed.
    Failed,
}

/// A ring buffer that keeps the last lines that it was given.
#[derive(Debug)]
pub struct TailRing {
    slots: Vec<String>,
    next: usize,
    filled: usize,
}

impl View for TailRing {
    type V = Seq<Seq<char>>;

    /// The lines that are kept, oldest first.
    closed spec fn view(&self) -> Seq<Seq<char>> {
        Seq::new(self.filled as nat, |i: int| self.slots@[self.slot(i)]@)
    }
}

impl TailRing {
    /// The slot that holds the oldest line.
    spec fn start(&self) -> int {
        if self.filled < TAIL_LINES {
            0
        } else {
            self.next as int
        }
    }

    /// The slot that holds the line with `i` older ones.
    spec fn slot(&self, i: int) -> int {
        (self.start() + i) % (TAIL_LINES as int)
    }

    /// The slots are all there, and until they are full they fill up from the first.
    pub closed spec fn wf(&self) -> bool {
        &&& self.slots@.len() == TAIL_LINES
        &&& self.next < TAIL_LINES
        &&& self.filled <= TAIL_LINES
        &&& self.filled < TAIL_LINES ==> self.next == self.filled
    }

    /// Makes a ring that keeps no line yet.
    pub fn new() -> (ring: TailRing)
        ensures
            ring.wf(),
            ring@ == Seq::<Seq<char>>::empty(),
    {
        let mut slots: Vec<String> = Vec::new();
        while slots.len() < TAIL_LINES
            invariant
                slots@.len() <= TAIL_LINES,
            decreases TAIL_LINES - slots@.len(),
        {
            slots.push(String::new());
        }
        let ring = TailRing { slots, next: 0, filled: 0 };
        assert(ring@ =~= Seq::<Seq<char>>::empty());
        ring
    }

    /// Takes a line in, without its end, and lets the oldest one go when the ring
    /// is full.
    pub fn push(&mut self, line: &str)
        requires
            old(self).wf(),
        ensures
            final(self).wf(),
            final(self)@ == after_line(old(self)@, line@),
    {
        let kept: String = text::trim_line_end(line);
        let ghost added = old(self)@.push(kept@);
        self.slots.set(self.next, kept);
        self.next = (self.next + 1) % TAIL_LINES;
        if self.filled < TAIL_LINES {
            self.filled += 1;
        }
        assert(self@ =~= last_lines(added));
    }

    /// The lines that are kept, oldest first.
    pub fn lines(&self) -> (lines: Vec<String>)
        requires
            self.wf(),
        ensures
            lines@.len() == self@.len(),
            forall|i: int| 0 <= i < lines@.len() ==> #[trigger] lines@[i]@ == self@[i],
    {
        let start: usize = if self.filled < TAIL_LINES {
            0
        } else {
            self.next
        };
        let mut lines: Vec<String> = Vec::new();
        let mut i: usize = 0;
        while i < self.filled
            invariant
                self.wf(),
                start == self.start(),
                i <= self.filled,
                lines@.len() == i,
                forall|j: int| 0 <= j < i ==> #[trigger] lines@[j]@ == self@[j],
            decreases self.filled - i,
        {
            let slot: usize = (start + i) % TAIL_LINES;
            lines.push(self.slots[slot].clone());
            i += 1;
        }
        lines
    }

    /// Takes in what the reader reports. Says whether to go on reading: yes after
    /// a line, no at the end of the file and after a failure, which leave the lines
    /// kept so far as they are.
    pub fn on_read(&mut self, event: &ReadEvent) -> (more: bool)
        requires
            old(self).wf(),
        ensures
            final(self).wf(),
            more == (event is Line),
            match event {
                ReadEvent::Line(line) => final(self)@ == after_line(old(self)@, line@),
                _ => final(self)@ == old(self)@,
            },
    {
        match event {
            ReadEvent::Line(line) => {
                self.push(line.as_str());
                true
            },
            ReadEvent::EndOfFile => false,
            ReadEvent::Failed => false,
        }
    }

    /// The lines that are kept as messages for the printer, oldest first.
    pub fn messages(&self, path: &FilePath, color_idx: usize) -> (messages: Vec<LogLine>)
        requires
            self.wf(),
        ensures
            messages@.len() == self@.len(),
            forall|i: int|
                0 <= i < messages@.len() ==> #[trigger] messages@[i]@ == (LineView {
                    path: path@,
                    name: path.file_name(),
                    line: self@[i],
                    color_idx,
                }),
            forall|i: int|
                0 <= i < messages@.len() ==> {
                    &&& (#[trigger] messages@[i]).path@ == path@
                    &&& messages@[i].path.file_name() == path.file_name()
                    &&& messages@[i].line@ == self@[i]
                    &&& messages@[i].color_idx == color_idx
                },
    {
        let lines: Vec<String> = self.lines();
        let mut messages: Vec<LogLine> = Vec::new();
        let mut i: usize = 0;
        while i < lines.len()
            invariant
                i <= lines@.len(),
                lines@.len() == self@.len(),
                forall|j: int| 0 <= j < lines@.len() ==> #[trigger] lines@[j]@ == self@[j],
                messages@.len() == i,
                forall|j: int|
                    0 <= j < i ==> #[trigger] messages@[j]@ == (LineView {
                        path: path@,
                        name: path.file_name(),
                        line: self@[j],
                        color_idx,
                    }),
                forall|j: int|
                    0 <= j < i ==> {
                        &&& (#[trigger] messages@[j]).path@ == path@
                        &&& messages@[j].path.file_name() == path.file_name()
                        &&& messages@[j].line@ == self@[j]
                        &&& messages@[j].color_idx == color_idx
                    },
            decreases lines@.len() - i,
        {
            messages.push(LogLine { path: path.clone(), line: lines[i].clone(), color_idx });
            i += 1;
        }
        messages
    }
}

/// The lines that are kept after one more is taken in.
pub open spec fn after_line(kept: Seq<Seq<char>>, line: Seq<char>) -> Seq<Seq<char>> {
    last_lines(kept.push(text::trimmed(line)))
}

/// The lines that are kept after `lines` are taken in one by one.
pub open spec fn after_lines(lines: Seq<Seq<char>>) -> Seq<Seq<char>>
    decreases lines.len(),
{
    if lines.len() == 0 {
        Seq::empty()
    } else {
        after_line(after_lines(lines.drop_last()), lines.last())
    }
}

/// After a file is read through, its last ten lines are kept, in order and without
/// their ends; all of them, if it has no more.
pub proof fn law_last_lines_are_kept(lines: Seq<Seq<char>>)
    ensures
        after_lines(lines) == last_lines(lines.map_values(|line: Seq<char>| text::trimmed(line))),
    decreases lines.len(),
{
    let all = lines.map_values(|line: Seq<char>| text::trimmed(line));
    if lines.len() == 0 {
        assert(after_lines(lines) =~= last_lines(all));
    } else {
        let before = lines.drop_last();
        law_last_lines_are_kept(before);
        let all_before = before.map_values(|line: Seq<char>| text::trimmed(line));
        assert(all =~= all_before.push(text::trimmed(lines.last())));
        assert(after_lines(lines) =~= last_lines(all));
    }
}

/// The lines that the reader gives before it first reports something else.
pub open spec fn lines_read(events: Seq<ReadEvent>) -> Seq<Seq<char>>
    decreases events.len(),
{
    if events.len() == 0 {
        Seq::empty()
    } else {
        match events[0] {
            ReadEvent::Line(line) => seq![line@] + lines_read(events.skip(1)),
            _ => Seq::empty(),
        }
    }
}

/// The lines that are kept when the reader is asked as long as it gives lines.
pub open spec fn kept_after(kept: Seq<Seq<char>>, events: Seq<ReadEvent>) -> Seq<Seq<char>>
    decreases events.len(),
{
    if events.len() == 0 {
        kept
    } else {
        match events[0] {
            ReadEvent::Line(line) => kept_after(after_line(kept, line@), events.skip(1)),
            _ => kept,
        }
    }
}

/// Reading on after some lines keeps what all the lines together would leave.
proof fn lemma_kept_after(lines: Seq<Seq<char>>, events: Seq<ReadEvent>)
    ensures
        kept_after(after_lines(lines), events) == after_lines(lines + lines_read(events)),
    decreases events.len(),
{
    if events.len() > 0 && events[0] is Line {
        let line = events[0]->Line_0@;
        let more = lines.push(line);
        assert(more.drop_last() =~= lines);
        lemma_kept_after(more, events.skip(1));
        assert(more + lines_read(events.skip(1)) =~= lines + lines_read(events));
    } else {
        assert(lines + lines_read(events) =~= lines);
    }
}

/// The first look at a file shows its last ten lines, up to where the file ends or
/// reading fails.
pub proof fn law_first_look_shows_last_lines(events: Seq<ReadEvent>)
    ensures
        kept_after(Seq::empty(), events) == last_lines(
            lines_read(events).map_values(|line: Seq<char>| text::trimmed(line)),
        ),
{
    let none = Seq::<Seq<char>>::empty();
    lemma_kept_after(none, events);
    assert(none + lines_read(events) =~= lines_read(events));
    law_last_lines_are_kept(lines_read(events));
}

/// Where to go on reading after the first look: at the position that was reached;
/// at the start, if it is unknown or the file could not be opened.
pub fn resume_position(reached: Option<u64>) -> (position: u64)
    ensures
        position == match reached {
            Some(reached) => reached,
            None => 0,
        },
{
    match reached {
        Some(reached) => reached,
        None => 0,
    }
}

/// A ring never keeps more than ten lines.
pub proof fn law_ring_is_small(ring: TailRing)
    requires
        ring.wf(),
    ensures
        ring@.len() <= TAIL_LINES,
{
}

/// A line that is kept ends in no line end, and nothing else is cut off it.
pub proof fn law_only_line_ends_are_cut(line: Seq<char>)
    ensures
        text::trimmed(line).is_prefix_of(line),
        text::trimmed(line).len() > 0 ==> !text::is_line_end(text::trimmed(line).last()),
        forall|i: int|
            text::trimmed(line).len() <= i < line.len() ==> text::is_line_end(#[trigger] line[i]),
    decreases line.len(),
{
    if line.len() > 0 && text::is_line_end(line.last()) {
        let shorter = line.drop_last();
        law_only_line_ends_are_cut(shorter);
        assert forall|i: int|
            text::trimmed(line).len() <= i < line.len() implies text::is_line_end(
            #[trigger] line[i],
        ) by {
            if i < shorter.len() {
                assert(shorter[i] == line[i]);
            }
        }
    }
}

/// Each line that is taken in is kept, whatever it holds, without the line ends at its
/// end. The lines before it move up by one place, and the oldest one goes if there
/// are ten.
pub proof fn law_each_line_is_taken_in(kept: Seq<Seq<char>>, line: Seq<char>)
    requires
        kept.len() <= 10,
    ensures
        ({
            let after = after_line(kept, line);
            let gone = after.len() - 1;
            &&& after.len() == vstd::math::min(kept.len() as int + 1, 10)
            &&& forall|i: int|
                0 <= i < after.len() - 1 ==> #[trigger] after[i] == kept[kept.len() - gone + i]
            &&& after.last().is_prefix_of(line)
            &&& after.last().len() > 0 ==> after.last().last() != '\n' && after.last().last()
                != '\r'
            &&& forall|i: int|
                after.last().len() <= i < line.len() ==> #[trigger] line[i] == '\n' || line[i]
                    == '\r'
        }),
{
    text::law_trimming_cuts_line_ends_only(line);
    assert(text::trimmed(line) =~= line.subrange(0, text::trimmed(line).len() as int));
}

/// Of lines taken in one by one the last ten are kept, or all of them if there are no
/// more, each in its place and whole but for the line ends at its end.
pub proof fn law_last_ten_lines_are_kept(lines: Seq<Seq<char>>)
    ensures
        ({
            let kept = after_lines(lines);
            let n = vstd::math::min(lines.len() as int, 10);
            &&& kept.len() == n
            &&& forall|i: int|
                #![trigger kept[i]]
                0 <= i < n ==> {
                    let line = lines[lines.len() - n + i];
                    &&& kept[i].is_prefix_of(line)
                    &&& kept[i].len() > 0 ==> kept[i].last() != '\n' && kept[i].last() != '\r'
                    &&& forall|j: int|
                        kept[i].len() <= j < line.len() ==> #[trigger] line[j] == '\n' || line[j]
                            == '\r'
                }
        }),
{
    let kept = after_lines(lines);
    let n = vstd::math::min(lines.len() as int, 10);
    law_last_lines_are_kept(lines);
    let all = lines.map_values(|line: Seq<char>| text::trimmed(line));
    assert forall|i: int| #![trigger kept[i]] 0 <= i < n implies {
        let line = lines[lines.len() - n + i];
        &&& kept[i].is_prefix_of(line)
        &&& kept[i].len() > 0 ==> kept[i].last() != '\n' && kept[i].last() != '\r'
        &&& forall|j: int|
            kept[i].len() <= j < line.len() ==> #[trigger] line[j] == '\n' || line[j] == '\r'
    } by {
        let line = lines[lines.len() - n + i];
        assert(all[lines.len() - n + i] == text::trimmed(line));
        assert(kept[i] == text::trimmed(line));
        text::law_trimming_cuts_line_ends_only(line);
        assert(text::trimmed(line) =~= line.subrange(0, text::trimmed(line).len() as int));
    }
}

/// The lines read are those that the reader gives up to where it first gives none,
/// each as it was given.
pub proof fn law_lines_are_read_up_to_the_first_stop(events: Seq<ReadEvent>)
    ensures
        lines_read(events).len() <= events.len(),
        forall|i: int|
            0 <= i < lines_read(events).len() ==> (#[trigger] events[i] matches ReadEvent::Line(
                line,
            ) && line@ == lines_read(events)[i]),
        lines_read(events).len() < events.len()
            ==> !(events[lines_read(events).len() as int] is Line),
    decreases events.len(),
{
    if events.len() > 0 && events[0] is Line {
        let rest = events.skip(1);
        law_lines_are_read_up_to_the_first_stop(rest);
        assert forall|i: int| 0 <= i < lines_read(events).len() implies (
        #[trigger] events[i] matches ReadEvent::Line(line) && line@ == lines_read(events)[i]) by {
            if i > 0 {
                assert(rest[i - 1] == events[i]);
                assert(lines_read(events)[i] == lines_read(rest)[i - 1]);
            }
        }
        if lines_read(events).len() < events.len() {
            let n = lines_read(rest).len() as int;
            assert(rest[n] == events[n + 1]);
        }
    }
}

/// The first look at a file keeps the last ten of the lines that the reader gives up
/// to where it first gives none, or all of them if there are no more, each in its
/// place and whole but for the line ends at its end.
pub proof fn law_first_look_keeps_whole_lines(events: Seq<ReadEvent>, count: nat)
    requires
        count <= events.len(),
        forall|i: int| 0 <= i < count ==> #[trigger] events[i] is Line,
        count < events.len() ==> !(events[count as int] is Line),
    ensures
        ({
            let kept = kept_after(Seq::empty(), events);
            let n = vstd::math::min(count as int, 10);
            &&& kept.len() == n
            &&& forall|i: int|
                #![trigger kept[i]]
                0 <= i < n ==> (events[count - n + i] matches ReadEvent::Line(line) && {
                    &&& kept[i].is_prefix_of(line@)
                    &&& kept[i].len() > 0 ==> kept[i].last() != '\n' && kept[i].last() != '\r'
                    &&& forall|j: int|
                        kept[i].len() <= j < line@.len() ==> #[trigger] line@[j] == '\n'
                            || line@[j] == '\r'
                })
        }),
{
    let lines = lines_read(events);
    law_lines_are_read_up_to_the_first_stop(events);
    assert(lines.len() == count) by {
        if lines.len() < count {
            assert(events[lines.len() as int] is Line);
        }
        if lines.len() > count {
            assert(events[count as int] is Line);
        }
    }
    law_first_look_shows_last_lines(events);
    law_last_lines_are_kept(lines);
    law_last_ten_lines_are_kept(lines);
    let kept = kept_after(Seq::empty(), events);
    let n = vstd::math::min(count as int, 10);
    assert(kept == after_lines(lines));
    assert forall|i: int| #![trigger kept[i]] 0 <= i < n implies (events[count - n
        + i] matches ReadEvent::Line(line) && {
        &&& kept[i].is_prefix_of(line@)
        &&& kept[i].len() > 0 ==> kept[i].last() != '\n' && kept[i].last() != '\r'
        &&& forall|j: int|
            kept[i].len() <= j < line@.len() ==> #[trigger] line@[j] == '\n' || line@[j] == '\r'
    }) by {
        assert(kept[i] == after_lines(lines)[i]);
        assert(events[count - n + i] is Line);
        let line = events[count - n + i]->Line_0@;
        assert(line == lines[lines.len() - n + i]);
        assert(kept[i].is_prefix_of(line));
    }
}

} // verus!
