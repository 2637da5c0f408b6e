//! Following a file as it grows: what to do next, one step at a time.
//!
//! A follower asks for an action. Whoever runs it performs the action and hands
//! the outcome back, and the follower asks for the next action.

use crate::message::{LineView, LogLine};
use crate::path::FilePath;
use crate::tail::ReadEvent;
use crate::text;
use vstd::prelude::*;

verus! {

/// How long to wait, in milliseconds, before looking for new lines again.
pub const POLL_MILLIS: u64 = 100;

/// What a follower wants done.
#[derive(Debug)]
pub enum FollowAction {
    /// Open the file.
    Open,
    /// Go to a position in the file.
    SeekTo(u64),
    /// Read the next line.
    Read,
    /// Wait a while, then look at the position in the file and at its length.
    Wait,
    /// Go back to the start of the file.
    Rewind,
    /// Send a line to the printer.
    Send(LogLine),
    /// Nothing more.
    Stop,
}

/// How an action came out.
#[derive(Debug)]
pub enum FollowReply {
    /// The file is open, or could not be opened.
    Opened(bool),
    /// The position is reached, or could not be.
    Sought(bool),
    /// What the reader reports.
    Read(ReadEvent),
    /// After a while: the position and the length, as far as they are known.
    Waited(Option<u64>, Option<u64>),
    /// The attempt to go back to the start is over.
    Rewound,
    /// The line is sent, or nobody takes lines any more.
    Sent(bool),
}

/// Which action a follower waits for.
#[derive(Clone, Copy, Debug, PartialEq, Eq, Structural)]
pub enum FollowState {
    Opening,
    Seeking,
    Reading,
    Waiting,
    Rewinding,
    Sending,
    Stopped,
}

/// An action, by what matters of it.
pub enum ActionView {
    Open,
    SeekTo(u64),
    Read,
    Wait,
    Rewind,
    Send(LineView),
    Stop,
}

impl View for FollowAction {
    type V = ActionView;

    open spec fn view(&self) -> ActionView {
        match *self {
            FollowAction::Open => ActionView::Open,
            FollowAction::SeekTo(position) => ActionView::SeekTo(position),
            FollowAction::Read => ActionView::Read,
            FollowAction::Wait => ActionView::Wait,
            FollowAction::Rewind => ActionView::Rewind,
            FollowAction::Send(line) => ActionView::Send(line@),
            FollowAction::Stop => ActionView::Stop,
        }
    }
}

/// The state in which the outcome of an action is waited for.
pub open spec fn waits_for(action: ActionView) -> FollowState {
    match action {
        ActionView::Open => FollowState::Opening,
        ActionView::SeekTo(_) => FollowState::Seeking,
        ActionView::Read => FollowState::Reading,
        ActionView::Wait => FollowState::Waiting,
        ActionView::Rewind => FollowState::Rewinding,
        ActionView::Send(_) => FollowState::Sending,
        ActionView::Stop => FollowState::Stopped,
    }
}

/// The file was cut short: the position lies beyond its end.
pub open spec fn truncated(position: Option<u64>, length: Option<u64>) -> bool {
    match (position, length) {
        (Some(position), Some(length)) => position > length,
        _ => false,
    }
}

/// A follower: the file, where to start in it, and the action that is pending.
pub struct FollowerView {
    /// The bytes of the file's path.
    pub path: Seq<u8>,
    /// The name of the file.
    pub name: Option<Seq<char>>,
    /// The color index of the file.
    pub color_idx: usize,
    /// Where to start.
    pub start_pos: u64,
    /// The action that is pending.
    pub state: FollowState,
}

impl FollowerView {
    /// The message for a line as it was read.
    pub open spec fn message(self, line: Seq<char>) -> LineView {
        LineView {
            path: self.path,
            name: self.name,
            line: text::trimmed(line),
            color_idx: self.color_idx,
        }
    }

    /// The action that follows when the pending one comes out as `reply`. A file
    /// that cannot be opened, positioned or read, and a printer that takes no more
    /// lines, end the follow; so does a reply to another action than the pending
    /// one.
    pub open spec fn next_action(self, reply: FollowReply) -> ActionView {
        match (self.state, reply) {
            (FollowState::Opening, FollowReply::Opened(true)) => if self.start_pos > 0 {
                ActionView::SeekTo(self.start_pos)
            } else {
                ActionView::Read
            },
            (FollowState::Seeking, FollowReply::Sought(true)) => ActionView::Read,
            (FollowState::Reading, FollowReply::Read(ReadEvent::Line(line))) => ActionView::Send(
                self.message(line@),
            ),
            (FollowState::Reading, FollowReply::Read(ReadEvent::EndOfFile)) => ActionView::Wait,
            (FollowState::Waiting, FollowReply::Waited(position, length)) => if truncated(
                position,
                length,
            ) {
                ActionView::Rewind
            } else {
                ActionView::Read
            },
            (FollowState::Rewinding, FollowReply::Rewound) => ActionView::Read,
            (FollowState::Sending, FollowReply::Sent(true)) => ActionView::Read,
            _ => ActionView::Stop,
        }
    }

    /// The follower after `reply`.
    pub open spec fn after(self, reply: FollowReply) -> FollowerView {
        FollowerView { state: waits_for(self.next_action(reply)), ..self }
    }
}

/// Follows one file.
#[derive(Debug)]
pub struct Follower {
    path: FilePath,
    color_idx: usize,
    start_pos: u64,
    state: FollowState,
}

impl View for Follower {
    type V = FollowerView;

    closed spec fn view(&self) -> FollowerView {
        FollowerView {
            path: self.path@,
            name: self.path.file_name(),
            color_idx: self.color_idx,
            start_pos: self.start_pos,
            state: self.state,
        }
    }
}

impl Follower {
    /// Starts to follow the file at `path` from `start_pos` on: from the beginning
    /// for a new file, from where its last lines ended for one that was there. The
    /// first action is to open the file.
    pub fn new(path: FilePath, start_pos: u64, color_idx: usize) -> (follower: Follower)
        ensures
            follower@ == (FollowerView {
                path: path@,
                name: path.file_name(),
                color_idx,
                start_pos,
                state: FollowState::Opening,
            }),
    {
        Follower { path, color_idx, start_pos, state: FollowState::Opening }
    }

    /// Takes the outcome of the pending action in and says what to do next.
    pub fn step(&mut self, reply: &FollowReply) -> (action: FollowAction)
        ensures
            action@ == old(self)@.next_action(*reply),
            final(self)@ == old(self)@.after(*reply),
    {
        match (self.state, reply) {
            (FollowState::Opening, FollowReply::Opened(true)) => {
                if self.start_pos > 0 {
                    self.state = FollowState::Seeking;
                    FollowAction::SeekTo(self.start_pos)
                } else {
                    self.state = FollowState::Reading;
                    FollowAction::Read
                }
            },
            (FollowState::Seeking, FollowReply::Sought(true)) => {
                self.state = FollowState::Reading;
                FollowAction::Read
            },
            (FollowState::Reading, FollowReply::Read(ReadEvent::Line(line))) => {
                self.state = FollowState::Sending;
                FollowAction::Send(
                    LogLine {
                        path: self.path.clone(),
                        line: text::trim_line_end(line.as_str()),
                        color_idx: self.color_idx,
                    },
                )
            },
            (FollowState::Reading, FollowReply::Read(ReadEvent::EndOfFile)) => {
                self.state = FollowState::Waiting;
                FollowAction::Wait
            },
            (FollowState::Waiting, FollowReply::Waited(Some(position), Some(length))) => {
                if *position > *length {
                    self.state = FollowState::Rewinding;
                    FollowAction::Rewind
                } else {
                    self.state = FollowState::Reading;
                    FollowAction::Read
                }
            },
            (FollowState::Waiting, FollowReply::Waited(_, _)) => {
                self.state = FollowState::Reading;
                FollowAction::Read
            },
            (FollowState::Rewinding, FollowReply::Rewound) => {
                self.state = FollowState::Reading;
                FollowAction::Read
            },
            (FollowState::Sending, FollowReply::Sent(true)) => {
                self.state = FollowState::Reading;
                FollowAction::Read
            },
            _ => {
                self.state = FollowState::Stopped;
                FollowAction::Stop
            },
        }
    }
}

/// The lines that a follower sends while `replies` come in.
pub open spec fn sent(follower: FollowerView, replies: Seq<FollowReply>) -> Seq<LineView>
    decreases replies.len(),
{
    if replies.len() == 0 {
        Seq::empty()
    } else {
        let rest = sent(follower.after(replies[0]), replies.skip(1));
        match follower.next_action(replies[0]) {
            ActionView::Send(line) => seq![line] + rest,
            _ => rest,
        }
    }
}

/// The lines that the reader gives a follower, when it asks for one, while
/// `replies` come in.
pub open spec fn received(follower: FollowerView, replies: Seq<FollowReply>) -> Seq<Seq<char>>
    decreases replies.len(),
{
    if replies.len() == 0 {
        Seq::empty()
    } else {
        let rest = received(follower.after(replies[0]), replies.skip(1));
        match (follower.state, replies[0]) {
            (FollowState::Reading, FollowReply::Read(ReadEvent::Line(line))) => seq![line@] + rest,
            _ => rest,
        }
    }
}

/// Every line that is read is sent, once, in order, without its end and under the
/// name and color of its file; and nothing else is sent.
pub proof fn law_every_line_is_sent(follower: FollowerView, replies: Seq<FollowReply>)
    ensures
        sent(follower, replies) == received(follower, replies).map_values(
            |line: Seq<char>| follower.message(line),
        ),
    decreases replies.len(),
{
    let message = |line: Seq<char>| follower.message(line);
    if replies.len() > 0 {
        let next = follower.after(replies[0]);
        law_every_line_is_sent(next, replies.skip(1));
        let rest = received(next, replies.skip(1));
        assert(rest.map_values(|line: Seq<char>| next.message(line)) =~= rest.map_values(message));
        match (follower.state, replies[0]) {
            (FollowState::Reading, FollowReply::Read(ReadEvent::Line(line))) => {
                assert((seq![line@] + rest).map_values(message) =~= seq![message(line@)]
                    + rest.map_values(message));
            },
            _ => {},
        }
    }
    assert(sent(follower, replies) =~= received(follower, replies).map_values(message));
}

/// A follower that has stopped stays so.
pub proof fn law_stopped_stays_stopped(follower: FollowerView, reply: FollowReply)
    requires
        follower.state == FollowState::Stopped,
    ensures
        follower.next_action(reply) == ActionView::Stop,
        follower.after(reply) == follower,
{
}

/// `reply` is the outcome of the action that is waited for in `state`.
pub open spec fn fits(state: FollowState, reply: FollowReply) -> bool {
    match reply {
        FollowReply::Opened(_) => state == FollowState::Opening,
        FollowReply::Sought(_) => state == FollowState::Seeking,
        FollowReply::Read(_) => state == FollowState::Reading,
        FollowReply::Waited(_, _) => state == FollowState::Waiting,
        FollowReply::Rewound => state == FollowState::Rewinding,
        FollowReply::Sent(_) => state == FollowState::Sending,
    }
}

/// `reply` tells of a failure.
pub open spec fn is_failure(reply: FollowReply) -> bool {
    match reply {
        FollowReply::Opened(ok) => !ok,
        FollowReply::Sought(ok) => !ok,
        FollowReply::Read(event) => event is Failed,
        FollowReply::Waited(_, _) => false,
        FollowReply::Rewound => false,
        FollowReply::Sent(ok) => !ok,
    }
}

/// As long as replies fit, a follow ends with the first failure and not before.
pub proof fn law_only_failures_end_a_follow(follower: FollowerView, reply: FollowReply)
    requires
        fits(follower.state, reply),
    ensures
        follower.next_action(reply) == ActionView::Stop <==> is_failure(reply),
{
}

/// A file that was cut short is read again from its start; one that was not is
/// read on from where it stood.
pub proof fn law_truncated_file_is_read_again(
    follower: FollowerView,
    position: Option<u64>,
    length: Option<u64>,
)
    requires
        follower.state == FollowState::Waiting,
    ensures
        truncated(position, length) ==> {
            let reply = FollowReply::Waited(position, length);
            &&& follower.next_action(reply) == ActionView::Rewind
            &&& follower.after(reply).next_action(FollowReply::Rewound) == ActionView::Read
        },
        !truncated(position, length) ==> follower.next_action(
            FollowReply::Waited(position, length),
        ) == ActionView::Read,
{
}

/// A new file is followed from its beginning, without a seek; any other from the
/// position that was given.
pub proof fn law_follow_starts_where_told(follower: FollowerView)
    requires
        follower.state == FollowState::Opening,
    ensures
        follower.start_pos == 0 ==> follower.next_action(FollowReply::Opened(true))
            == ActionView::Read,
        follower.start_pos > 0 ==> {
            &&& follower.next_action(FollowReply::Opened(true)) == ActionView::SeekTo(
                follower.start_pos,
            )
            &&& follower.after(FollowReply::Opened(true)).next_action(FollowReply::Sought(true))
                == ActionView::Read
        },
{
}

/// A line that is read is sent whole but for the line ends at its end, under the path,
/// the name and the color that the follower was made with.
pub proof fn law_line_is_sent_whole(follower: FollowerView, line: String, action: FollowAction)
    requires
        follower.state == FollowState::Reading,
        action@ == follower.next_action(FollowReply::Read(ReadEvent::Line(line))),
    ensures
        action matches FollowAction::Send(message) && {
            &&& message.path@ == follower.path
            &&& message.path.file_name() == follower.name
            &&& message.color_idx == follower.color_idx
            &&& message.line@.is_prefix_of(line@)
            &&& message.line@.len() > 0 ==> message.line@.last() != '\n' && message.line@.last()
                != '\r'
            &&& forall|i: int|
                message.line@.len() <= i < line@.len() ==> #[trigger] line@[i] == '\n' || line@[i]
                    == '\r'
        },
        follower.after(FollowReply::Read(ReadEvent::Line(line))).state == FollowState::Sending,
{
    text::law_trimming_cuts_line_ends_only(line@);
    assert(text::trimmed(line@) =~= line@.subrange(0, text::trimmed(line@).len() as int));
}

/// After a line is taken by the printer the next one is read.
pub proof fn law_next_line_is_read_after_a_line(follower: FollowerView, action: FollowAction)
    requires
        follower.state == FollowState::Sending,
        action@ == follower.next_action(FollowReply::Sent(true)),
    ensures
        action is Read,
        follower.after(FollowReply::Sent(true)).state == FollowState::Reading,
{
}

/// At the end of the file the follower waits, and then reads on; but if the position
/// lies beyond the length of the file it goes back to the start first.
pub proof fn law_end_of_file_is_waited_at(
    follower: FollowerView,
    position: Option<u64>,
    length: Option<u64>,
    at_end: FollowAction,
    waited: FollowAction,
    rewound: FollowAction,
)
    requires
        follower.state == FollowState::Reading,
        at_end@ == follower.next_action(FollowReply::Read(ReadEvent::EndOfFile)),
        waited@ == follower.after(FollowReply::Read(ReadEvent::EndOfFile)).next_action(
            FollowReply::Waited(position, length),
        ),
        rewound@ == follower.after(FollowReply::Read(ReadEvent::EndOfFile)).after(
            FollowReply::Waited(position, length),
        ).next_action(FollowReply::Rewound),
    ensures
        at_end is Wait,
        position is Some && length is Some && position->0 > length->0 ==> {
            &&& waited is Rewind
            &&& rewound is Read
            &&& follower.after(FollowReply::Read(ReadEvent::EndOfFile)).after(
                FollowReply::Waited(position, length),
            ).after(FollowReply::Rewound).state == FollowState::Reading
        },
        position is None || length is None || position->0 <= length->0 ==> {
            &&& waited is Read
            &&& follower.after(FollowReply::Read(ReadEvent::EndOfFile)).after(
                FollowReply::Waited(position, length),
            ).state == FollowState::Reading
        },
{
}

/// A file that is open is read from the position that the follower was made with.
pub proof fn law_open_file_is_read_from_the_start_position(
    follower: FollowerView,
    opened: FollowAction,
    sought: FollowAction,
)
    requires
        follower.state == FollowState::Opening,
        opened@ == follower.next_action(FollowReply::Opened(true)),
        sought@ == follower.after(FollowReply::Opened(true)).next_action(
            FollowReply::Sought(true),
        ),
    ensures
        follower.start_pos == 0 ==> opened is Read && follower.after(
            FollowReply::Opened(true),
        ).state == FollowState::Reading,
        follower.start_pos > 0 ==> {
            &&& opened matches FollowAction::SeekTo(position) && position == follower.start_pos
            &&& sought is Read
            &&& follower.after(FollowReply::Opened(true)).after(FollowReply::Sought(true)).state
                == FollowState::Reading
        },
{
}

/// A failure ends the follow, and nothing is done from then on.
pub proof fn law_failure_ends_the_follow(
    follower: FollowerView,
    reply: FollowReply,
    later: FollowReply,
    action: FollowAction,
    later_action: FollowAction,
)
    requires
        reply == FollowReply::Opened(false) || reply == FollowReply::Sought(false) || reply
            == FollowReply::Read(ReadEvent::Failed) || reply == FollowReply::Sent(false),
        action@ == follower.next_action(reply),
        later_action@ == follower.after(reply).next_action(later),
    ensures
        action is Stop,
        later_action is Stop,
        follower.after(reply).state == FollowState::Stopped,
        follower.after(reply).after(later).state == FollowState::Stopped,
{
}

/// The outcome of an action that was not asked for ends the follow.
pub proof fn law_reply_to_another_action_ends_the_follow(
    follower: FollowerView,
    reply: FollowReply,
    action: FollowAction,
)
    requires
        reply is Opened ==> follower.state != FollowState::Opening,
        reply is Sought ==> follower.state != FollowState::Seeking,
        reply is Read ==> follower.state != FollowState::Reading,
        reply is Waited ==> follower.state != FollowState::Waiting,
        reply is Rewound ==> follower.state != FollowState::Rewinding,
        reply is Sent ==> follower.state != FollowState::Sending,
        action@ == follower.next_action(reply),
    ensures
        action is Stop,
        follower.after(reply).state == FollowState::Stopped,
{
}

/// Whatever happens, a follower keeps its file, its color and its start position.
pub proof fn law_follower_keeps_its_file(follower: FollowerView, reply: FollowReply)
    ensures
        follower.after(reply).path == follower.path,
        follower.after(reply).name == follower.name,
        follower.after(reply).color_idx == follower.color_idx,
        follower.after(reply).start_pos == follower.start_pos,
{
}

/// As many lines are sent as are read, in the same order, each whole but for the line
/// ends at its end and under the name and color of its file.
pub proof fn law_lines_are_sent_in_order(follower: FollowerView, replies: Seq<FollowReply>)
    ensures
        sent(follower, replies).len() == received(follower, replies).len(),
        forall|i: int|
            #![trigger sent(follower, replies)[i]]
            0 <= i < sent(follower, replies).len() ==> {
                let line = received(follower, replies)[i];
                let message = sent(follower, replies)[i];
                &&& message.path == follower.path
                &&& message.name == follower.name
                &&& message.color_idx == follower.color_idx
                &&& message.line.is_prefix_of(line)
                &&& message.line.len() > 0 ==> message.line.last() != '\n' && message.line.last()
                    != '\r'
                &&& forall|j: int|
                    message.line.len() <= j < line.len() ==> #[trigger] line[j] == '\n' || line[j]
                        == '\r'
            },
{
    law_every_line_is_sent(follower, replies);
    let lines = received(follower, replies);
    let messages = sent(follower, replies);
    assert forall|i: int| #![trigger messages[i]] 0 <= i < messages.len() implies {
        let line = lines[i];
        let message = messages[i];
        &&& message.path == follower.path
        &&& message.name == follower.name
        &&& message.color_idx == follower.color_idx
        &&& message.line.is_prefix_of(line)
        &&& message.line.len() > 0 ==> message.line.last() != '\n' && message.line.last() != '\r'
        &&& forall|j: int|
            message.line.len() <= j < line.len() ==> #[trigger] line[j] == '\n' || line[j] == '\r'
    } by {
        let line = lines[i];
        assert(messages[i] == follower.message(line));
        text::law_trimming_cuts_line_ends_only(line);
        assert(text::trimmed(line) =~= line.subrange(0, text::trimmed(line).len() as int));
    }
}

/// A reading follower that is given lines, each of which the printer takes, sends as
/// many as it is given and goes on reading.
pub proof fn law_no_line_is_lost(follower: FollowerView, replies: Seq<FollowReply>, n: nat)
    requires
        follower.state == FollowState::Reading,
        replies.len() == 2 * n,
        forall|k: int|
            0 <= k < 2 * n && k % 2 == 0 ==> #[trigger] replies[k] is Read
                && replies[k]->Read_0 is Line,
        forall|k: int|
            0 <= k < 2 * n && k % 2 == 1 ==> #[trigger] replies[k] == FollowReply::Sent(true),
    ensures
        sent(follower, replies).len() == n,
        received(follower, replies).len() == n,
        forall|i: int|
            0 <= i < n ==> #[trigger] received(follower, replies)[i]
                == replies[2 * i]->Read_0->Line_0@,
    decreases n,
{
    if n > 0 {
        let rest = replies.skip(1);
        let others = rest.skip(1);
        assert(rest[0] == replies[1]);
        let next = follower.after(replies[0]).after(rest[0]);
        assert forall|k: int| 0 <= k < others.len() implies #[trigger] others[k] == replies[k
            + 2] by {}
        law_no_line_is_lost(next, others, (n - 1) as nat);
        let later = received(next, others);
        assert(received(follower.after(replies[0]), rest) == later);
        assert(sent(follower.after(replies[0]), rest) == sent(next, others));
        assert forall|i: int| 0 <= i < n implies #[trigger] received(follower, replies)[i]
            == replies[2 * i]->Read_0->Line_0@ by {
            if i > 0 {
                assert(received(follower, replies)[i] == later[i - 1]);
                assert(others[2 * (i - 1)] == replies[2 * i]);
            }
        }
    }
}

/// New lines are looked for every tenth of a second.
pub proof fn law_files_are_looked_at_ten_times_a_second()
    ensures
        POLL_MILLIS * 10 == 1000,
{
}

} // verus!
