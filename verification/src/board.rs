//! What is known of the sessions during one connection, and how events change it.

use crate::events::{op_views, Change, FrameKind, Op, OpView};
use crate::keyed::{PairSet, TextMap};
use crate::state::{
    aggregate, aggregated, assigned, disagrees, law_one_report, lookup, reconcile, reconciled,
    reports, PetState, SessionInfo, SessionReport, SessionState,
};
use vstd::prelude::*;

verus! {

/// A session that answers is held to be answering for this long after the last text, in
/// milliseconds.
pub const ANSWER_TAIL: u64 = 2_000;

/// What is known of the sessions during one connection.
pub struct Board {
    sessions: TextMap<SessionState>,
    subscribed: TextMap<()>,
    frames: PairSet,
    text_at: TextMap<u64>,
}

#[verifier::ext_equal]
pub ghost struct BoardView {
    /// The sessions with an activity, each with it.
    pub sessions: Map<Seq<char>, SessionState>,
    /// The sessions that have been subscribed to.
    pub subscribed: Set<Seq<char>>,
    /// The frames that hold the text of answers, each with its session.
    pub frames: Set<(Seq<char>, Seq<char>)>,
    /// When text last came in an answer of a session, in milliseconds.
    pub text_at: Map<Seq<char>, u64>,
}

impl View for Board {
    type V = BoardView;

    closed spec fn view(&self) -> BoardView {
        BoardView {
            sessions: self.sessions@,
            subscribed: self.subscribed@.dom(),
            frames: self.frames@,
            text_at: self.text_at@,
        }
    }
}

impl BoardView {
    pub open spec fn fresh() -> BoardView {
        BoardView {
            sessions: Map::empty(),
            subscribed: Set::empty(),
            frames: Set::empty(),
            text_at: Map::empty(),
        }
    }

    pub open spec fn activity(self, id: Seq<char>) -> Option<SessionState> {
        lookup(self.sessions, id)
    }

    pub open spec fn with_activity(self, id: Seq<char>, next: Option<SessionState>) -> BoardView {
        BoardView { sessions: assigned(self.sessions, id, next), ..self }
    }

    pub open spec fn with_subscription(self, id: Seq<char>) -> BoardView {
        BoardView { subscribed: self.subscribed.insert(id), ..self }
    }

    /// The board after reports of the service, in order.
    pub open spec fn settled_by(self, list: Seq<SessionReport>) -> BoardView {
        BoardView { sessions: reconciled(self.sessions, list), ..self }
    }

    /// Text came in an answer of the session not longer ago than it is held against a
    /// fall back to thinking.
    pub open spec fn text_is_recent(self, id: Seq<char>, now: u64) -> bool {
        match lookup(self.text_at, id) {
            Some(at) => now - at <= ANSWER_TAIL,
            None => false,
        }
    }

    /// A session stays as it is although `next` was reported: it waits for its user, and
    /// nothing but a question is heard; or it answers, and a thought does not interrupt
    /// text that came just now.
    pub open spec fn stays(self, id: Seq<char>, next: Option<SessionState>, now: u64) -> bool {
        match self.activity(id) {
            Some(SessionState::Approval) => next != Some(SessionState::Approval),
            Some(SessionState::Answering) => next == Some(SessionState::Thinking)
                && self.text_is_recent(id, now),
            _ => false,
        }
    }

    /// The board after an activity was reported of a session.
    pub open spec fn reported(self, id: Seq<char>, next: Option<SessionState>, now: u64) -> BoardView {
        if self.stays(id, next, now) {
            self
        } else {
            self.with_activity(id, next)
        }
    }

    /// The board after a session event.
    pub open spec fn changed(self, id: Seq<char>, change: Change, now: u64) -> BoardView {
        match change {
            Change::Phase(next) => self.reported(id, next, now),
            Change::Ask => self.with_activity(id, Some(SessionState::Approval)),
            Change::Answered => self.with_activity(id, Some(SessionState::Thinking)),
            Change::Ended => self.with_activity(id, None),
            Change::Text => self.with_text(id, now).reported(
                id,
                Some(SessionState::Answering),
                now,
            ),
            Change::Rest => if self.activity(id) == Some(SessionState::Approval) {
                self
            } else {
                self.with_activity(id, None)
            },
        }
    }

    pub open spec fn with_frame(self, id: Seq<char>, frame: Option<Seq<char>>, body: bool) -> BoardView {
        match frame {
            Some(frame) => BoardView {
                frames: if body {
                    self.frames.insert((id, frame))
                } else {
                    self.frames.remove((id, frame))
                },
                ..self
            },
            None => self,
        }
    }

    pub open spec fn with_text(self, id: Seq<char>, now: u64) -> BoardView {
        BoardView { text_at: self.text_at.insert(id, now), ..self }
    }

    /// The board after one operation on a transcript. A session without activity gains
    /// none from a step, from text added to a frame or from a question: after a new
    /// connection these may be repeated.
    pub open spec fn operated(self, id: Seq<char>, op: OpView, now: u64) -> BoardView {
        match op {
            OpView::Frame { id: frame, kind: FrameKind::Body } => self.with_frame(
                id,
                frame,
                true,
            ).with_text(id, now).reported(id, Some(SessionState::Answering), now),
            OpView::Frame { id: frame, kind: FrameKind::Working } => self.with_frame(
                id,
                frame,
                false,
            ).reported(id, Some(SessionState::Thinking), now),
            OpView::Frame { id: frame, kind: FrameKind::Quiet } => self.with_frame(
                id,
                frame,
                false,
            ),
            OpView::Append { frame } => if self.frames.contains((id, frame)) && self.activity(
                id,
            ) is Some {
                self.with_text(id, now).reported(id, Some(SessionState::Answering), now)
            } else {
                self
            },
            OpView::Step => if self.activity(id) is Some {
                self.reported(id, Some(SessionState::Thinking), now)
            } else {
                self
            },
            OpView::Ask => if self.activity(id) is Some {
                self.with_activity(id, Some(SessionState::Approval))
            } else {
                self
            },
            OpView::TurnOver => self.reported(id, None, now),
            OpView::Other => self,
        }
    }

    /// The board after operations on a transcript, in order.
    pub open spec fn operated_all(self, id: Seq<char>, ops: Seq<OpView>, now: u64) -> BoardView
        decreases ops.len(),
    {
        if ops.len() == 0 {
            self
        } else {
            self.operated_all(id, ops.drop_last(), now).operated(id, ops.last(), now)
        }
    }
}

impl Board {
    pub fn new() -> (r: Board)
        ensures
            r@ == BoardView::fresh(),
    {
        let r = Board {
            sessions: TextMap::new(),
            subscribed: TextMap::new(),
            frames: PairSet::new(),
            text_at: TextMap::new(),
        };
        proof {
            assert(r@ =~= BoardView::fresh());
        }
        r
    }

    /// The sessions' activities in one state.
    pub fn overall(&self) -> (r: PetState)
        ensures
            r == aggregated(self@.sessions),
    {
        aggregate(&self.sessions)
    }

    pub fn is_subscribed(&self, id: &str) -> (r: bool)
        ensures
            r == self@.subscribed.contains(id@),
    {
        self.subscribed.get(id).is_some()
    }

    pub fn subscribe(&mut self, id: &str)
        ensures
            final(self)@ == old(self)@.with_subscription(id@),
    {
        self.subscribed.insert(id, ());
        proof {
            assert(self@.subscribed =~= old(self)@.subscribed.insert(id@));
        }
    }

    /// Brings the activities in line with the service's own reports.
    pub fn reconcile(&mut self, infos: &Vec<SessionInfo>) -> (changed: bool)
        ensures
            final(self)@ == old(self)@.settled_by(reports(infos@)),
            changed == disagrees(old(self)@.sessions, reports(infos@)),
    {
        reconcile(&mut self.sessions, infos)
    }

    fn set_activity(&mut self, id: &str, next: Option<SessionState>)
        ensures
            final(self)@ == old(self)@.with_activity(id@, next),
    {
        match next {
            Some(state) => {
                self.sessions.insert(id, state);
            },
            None => {
                self.sessions.remove(id);
            },
        }
    }

    fn stays(&self, id: &str, next: Option<SessionState>, now: u64) -> (r: bool)
        ensures
            r == self@.stays(id@, next, now),
    {
        match self.sessions.get(id) {
            Some(SessionState::Approval) => match next {
                Some(SessionState::Approval) => false,
                _ => true,
            },
            Some(SessionState::Answering) => match next {
                Some(SessionState::Thinking) => match self.text_at.get(id) {
                    Some(at) => now <= at || now - at <= ANSWER_TAIL,
                    None => false,
                },
                _ => false,
            },
            _ => false,
        }
    }

    fn report(&mut self, id: &str, next: Option<SessionState>, now: u64)
        ensures
            final(self)@ == old(self)@.reported(id@, next, now),
    {
        if !self.stays(id, next, now) {
            self.set_activity(id, next);
        }
    }

    /// Takes a session event.
    pub fn change(&mut self, id: &str, change: Change, now: u64)
        ensures
            final(self)@ == old(self)@.changed(id@, change, now),
    {
        match change {
            Change::Phase(next) => {
                self.report(id, next, now);
            },
            Change::Ask => {
                self.set_activity(id, Some(SessionState::Approval));
            },
            Change::Answered => {
                self.set_activity(id, Some(SessionState::Thinking));
            },
            Change::Ended => {
                self.set_activity(id, None);
            },
            Change::Text => {
                self.note_text(id, now);
                self.report(id, Some(SessionState::Answering), now);
            },
            Change::Rest => {
                match self.sessions.get(id) {
                    Some(SessionState::Approval) => {},
                    _ => {
                        self.set_activity(id, None);
                    },
                }
            },
        }
    }

    fn set_frame(&mut self, id: &str, frame: &Option<String>, body: bool)
        ensures
            final(self)@ == old(self)@.with_frame(
                id@,
                match frame {
                    Some(frame) => Some(frame@),
                    None => None,
                },
                body,
            ),
    {
        match frame {
            Some(frame) => {
                if body {
                    self.frames.insert(id, frame.as_str());
                } else {
                    self.frames.remove(id, frame.as_str());
                }
            },
            None => {},
        }
    }

    fn note_text(&mut self, id: &str, now: u64)
        ensures
            final(self)@ == old(self)@.with_text(id@, now),
    {
        self.text_at.insert(id, now);
    }

    fn operate(&mut self, id: &str, op: &Op, now: u64)
        ensures
            final(self)@ == old(self)@.operated(id@, op@, now),
    {
        match op {
            Op::Frame { id: frame, kind } => {
                match *kind {
                    FrameKind::Body => {
                        self.set_frame(id, frame, true);
                        self.note_text(id, now);
                        self.report(id, Some(SessionState::Answering), now);
                    },
                    FrameKind::Working => {
                        self.set_frame(id, frame, false);
                        self.report(id, Some(SessionState::Thinking), now);
                    },
                    FrameKind::Quiet => {
                        self.set_frame(id, frame, false);
                    },
                }
            },
            Op::Append { frame } => {
                if self.frames.contains(id, frame.as_str()) && self.sessions.get(id).is_some() {
                    self.note_text(id, now);
                    self.report(id, Some(SessionState::Answering), now);
                }
            },
            Op::Step => {
                if self.sessions.get(id).is_some() {
                    self.report(id, Some(SessionState::Thinking), now);
                }
            },
            Op::Ask => {
                if self.sessions.get(id).is_some() {
                    self.set_activity(id, Some(SessionState::Approval));
                }
            },
            Op::TurnOver => {
                self.report(id, None, now);
            },
            Op::Other => {},
        }
    }

    /// Takes a transcript event.
    pub fn transcribe(&mut self, id: &str, ops: &Vec<Op>, now: u64)
        ensures
            final(self)@ == old(self)@.operated_all(id@, op_views(ops@), now),
    {
        let ghost start = self@;
        let ghost views = op_views(ops@);
        proof {
            assert(views.take(0) =~= Seq::<OpView>::empty());
        }
        let mut i: usize = 0;
        while i < ops.len()
            invariant
                i <= ops.len(),
                start == old(self)@,
                views == op_views(ops@),
                self@ == start.operated_all(id@, views.take(i as int), now),
            decreases ops.len() - i,
        {
            proof {
                assert(views.take(i + 1).drop_last() =~= views.take(i as int));
            }
            self.operate(id, &ops[i], now);
            i = i + 1;
        }
        proof {
            assert(views.take(ops.len() as int) =~= views);
        }
    }
}

/// A reported phase is taken at its word, unless its session waits for its user or text
/// came in its answer just now. So it always is where no text of answers is streamed and
/// nobody is asked.
pub proof fn law_phases_count(
    board: BoardView,
    id: Seq<char>,
    next: Option<SessionState>,
    now: u64,
)
    requires
        board.activity(id) != Some(SessionState::Approval),
        !board.text_is_recent(id, now),
    ensures
        board.changed(id, Change::Phase(next), now) == board.with_activity(id, next),
        board.changed(id, Change::Phase(next), now).activity(id) == next,
{
}

/// A session that waits for its user goes on waiting, whatever its transcript, its phases
/// or the text of its answers say meanwhile; a report that it is not busy does not end the
/// waiting either.
pub proof fn law_waiting_is_kept(
    board: BoardView,
    id: Seq<char>,
    ops: Seq<OpView>,
    next: Option<SessionState>,
    now: u64,
)
    requires
        board.activity(id) == Some(SessionState::Approval),
    ensures
        board.operated_all(id, ops, now).activity(id) == Some(SessionState::Approval),
        board.changed(id, Change::Phase(next), now).activity(id) == Some(SessionState::Approval),
        board.changed(id, Change::Text, now).activity(id) == Some(SessionState::Approval),
        board.changed(id, Change::Rest, now).activity(id) == Some(SessionState::Approval),
    decreases ops.len(),
{
    assert(board.with_text(id, now).activity(id) == board.activity(id));
    if ops.len() > 0 {
        law_waiting_is_kept(board, id, ops.drop_last(), next, now);
    }
}

/// The user's answer and the end of the turn do end the waiting.
pub proof fn law_waiting_ends(board: BoardView, id: Seq<char>, now: u64)
    ensures
        board.changed(id, Change::Ask, now).activity(id) == Some(SessionState::Approval),
        board.changed(id, Change::Answered, now).activity(id) == Some(SessionState::Thinking),
        board.changed(id, Change::Ended, now).activity(id) is None,
{
}

/// Thoughts, tool calls and steps interrupt an answer exactly if no text has come for
/// longer than the tail of an answer.
pub proof fn law_answer_tail(
    board: BoardView,
    id: Seq<char>,
    frame: Option<Seq<char>>,
    at: u64,
    now: u64,
)
    requires
        board.activity(id) == Some(SessionState::Answering),
        lookup(board.text_at, id) == Some(at),
    ensures
        ({
            let after = if now - at <= ANSWER_TAIL {
                Some(SessionState::Answering)
            } else {
                Some(SessionState::Thinking)
            };
            &&& board.operated(id, OpView::Step, now).activity(id) == after
            &&& board.operated(
                id,
                OpView::Frame { id: frame, kind: FrameKind::Working },
                now,
            ).activity(id) == after
            &&& board.changed(id, Change::Phase(Some(SessionState::Thinking)), now).activity(id)
                == after
        }),
{
    assert(board.with_frame(id, frame, false).sessions == board.sessions);
}

/// Text of an answer makes its session answer, unless the session waits for its user: a
/// frame of such text does, so does text added to such a frame while the session has some
/// activity, and so does an event that brings text.
pub proof fn law_text_means_answering(
    board: BoardView,
    id: Seq<char>,
    frame: Seq<char>,
    now: u64,
)
    requires
        board.activity(id) != Some(SessionState::Approval),
    ensures
        board.operated(
            id,
            OpView::Frame { id: Some(frame), kind: FrameKind::Body },
            now,
        ).activity(id) == Some(SessionState::Answering),
        board.operated(
            id,
            OpView::Frame { id: Some(frame), kind: FrameKind::Body },
            now,
        ).frames.contains((id, frame)),
        board.frames.contains((id, frame)) && board.activity(id) is Some ==> board.operated(
            id,
            OpView::Append { frame },
            now,
        ).activity(id) == Some(SessionState::Answering),
        board.changed(id, Change::Text, now).activity(id) == Some(SessionState::Answering),
        lookup(board.changed(id, Change::Text, now).text_at, id) == Some(now),
{
    let ready = board.with_frame(id, Some(frame), true).with_text(id, now);
    assert(ready.activity(id) == board.activity(id));
    assert(ready.reported(id, Some(SessionState::Answering), now).frames == ready.frames);
    let again = board.with_text(id, now);
    assert(again.activity(id) == board.activity(id));
}

/// A session without activity gains none from steps, added text or questions that its
/// transcript repeats.
pub proof fn law_repetition_wakes_nobody(
    board: BoardView,
    id: Seq<char>,
    op: OpView,
    now: u64,
)
    requires
        board.activity(id) is None,
        op is Append || op is Step || op is Ask || op is TurnOver || op is Other,
    ensures
        board.operated(id, op, now).activity(id) is None,
{
}

/// An event bears on its own session only.
pub proof fn law_other_sessions_untouched(
    board: BoardView,
    id: Seq<char>,
    other: Seq<char>,
    change: Change,
    ops: Seq<OpView>,
    now: u64,
)
    requires
        other != id,
    ensures
        board.changed(id, change, now).activity(other) == board.activity(other),
        board.operated_all(id, ops, now).activity(other) == board.activity(other),
{
    lemma_others_through_ops(board, id, other, ops, now);
}

proof fn lemma_others_through_ops(
    board: BoardView,
    id: Seq<char>,
    other: Seq<char>,
    ops: Seq<OpView>,
    now: u64,
)
    requires
        other != id,
    ensures
        board.operated_all(id, ops, now).activity(other) == board.activity(other),
    decreases ops.len(),
{
    if ops.len() > 0 {
        lemma_others_through_ops(board, id, other, ops.drop_last(), now);
    }
}

/// Events do not change which sessions are subscribed to.
pub proof fn law_subscriptions_untouched(
    board: BoardView,
    id: Seq<char>,
    change: Change,
    ops: Seq<OpView>,
    now: u64,
)
    ensures
        board.changed(id, change, now).subscribed == board.subscribed,
        board.operated_all(id, ops, now).subscribed == board.subscribed,
    decreases ops.len(),
{
    if ops.len() > 0 {
        law_subscriptions_untouched(board, id, change, ops.drop_last(), now);
    }
}

/// The activity of a session is what the table holds for it.
pub proof fn law_activity(board: BoardView, id: Seq<char>, state: SessionState)
    ensures
        board.activity(id) == Some(state) <==> board.sessions.dom().contains(id)
            && board.sessions[id] == state,
        board.activity(id) is None <==> !board.sessions.dom().contains(id),
{
}

/// Text is recent for two seconds after it came, and was never recent where none came.
pub proof fn law_recent_text(board: BoardView, id: Seq<char>, now: u64)
    ensures
        board.text_at.dom().contains(id) ==> (board.text_is_recent(id, now) <==> now
            - board.text_at[id] <= 2_000),
        !board.text_at.dom().contains(id) ==> !board.text_is_recent(id, now),
{
}

/// A connection begins with no session active, none subscribed to, and no text known.
pub proof fn law_fresh_board(id: Seq<char>, frame: Seq<char>)
    ensures
        BoardView::fresh().activity(id) is None,
        !BoardView::fresh().subscribed.contains(id),
        !BoardView::fresh().frames.contains((id, frame)),
        !BoardView::fresh().text_at.dom().contains(id),
{
}

/// A phase of rest ends the activity of any session that does not wait for its user,
/// however recent its text. A phase with an activity becomes the session's activity,
/// unless the session waits, or answers with recent text while the phase is a thought. In
/// these cases the session stays as it was. Nothing else changes by a phase.
pub proof fn law_phases(board: BoardView, id: Seq<char>, next: Option<SessionState>, now: u64)
    ensures
        ({
            let after = board.changed(id, Change::Phase(next), now);
            let waits = board.activity(id) == Some(SessionState::Approval);
            let answers = board.activity(id) == Some(SessionState::Answering);
            let recent = board.text_at.dom().contains(id) && now - board.text_at[id] <= 2_000;
            &&& next is None && !waits ==> after.activity(id) is None
            &&& next == Some(SessionState::Approval) ==> after.activity(id) == Some(
                SessionState::Approval,
            )
            &&& next == Some(SessionState::Answering) && !waits ==> after.activity(id) == Some(
                SessionState::Answering,
            )
            &&& next == Some(SessionState::Thinking) && !waits && !(answers && recent)
                ==> after.activity(id) == Some(SessionState::Thinking)
            &&& next == Some(SessionState::Thinking) && answers && recent ==> after.activity(id)
                == Some(SessionState::Answering)
            &&& waits ==> after.activity(id) == Some(SessionState::Approval)
            &&& after.text_at == board.text_at
            &&& after.frames == board.frames
            &&& after.subscribed == board.subscribed
        }),
{
}

/// A question makes its session wait, an answer makes it think, the end of a turn ends its
/// activity, and a report that it is not busy does so unless it waits: whatever the session
/// did before. Text makes it answer unless it waits, and is noted with its time. None of
/// these changes what is known of frames, and only text changes when text came.
pub proof fn law_changes(board: BoardView, id: Seq<char>, other: Seq<char>, now: u64)
    ensures
        ({
            let asked = board.changed(id, Change::Ask, now);
            let answered = board.changed(id, Change::Answered, now);
            let ended = board.changed(id, Change::Ended, now);
            let rested = board.changed(id, Change::Rest, now);
            let told = board.changed(id, Change::Text, now);
            let waits = board.activity(id) == Some(SessionState::Approval);
            &&& asked.activity(id) == Some(SessionState::Approval)
            &&& answered.activity(id) == Some(SessionState::Thinking)
            &&& ended.activity(id) is None
            &&& waits ==> rested.activity(id) == Some(SessionState::Approval)
            &&& !waits ==> rested.activity(id) is None
            &&& waits ==> told.activity(id) == Some(SessionState::Approval)
            &&& !waits ==> told.activity(id) == Some(SessionState::Answering)
            &&& told.text_at.dom().contains(id) && told.text_at[id] == now
            &&& other != id ==> lookup(told.text_at, other) == lookup(board.text_at, other)
            &&& asked.text_at == board.text_at && answered.text_at == board.text_at
            &&& ended.text_at == board.text_at && rested.text_at == board.text_at
            &&& asked.frames == board.frames && answered.frames == board.frames
            &&& ended.frames == board.frames && rested.frames == board.frames
            &&& told.frames == board.frames
        }),
{
    let noted = board.with_text(id, now);
    assert(noted.activity(id) == board.activity(id));
}

/// A pending interaction makes every active session wait, whatever it did, and wakes none
/// that is not active. Nothing else changes by it.
pub proof fn law_pending_interaction(board: BoardView, id: Seq<char>, now: u64)
    ensures
        ({
            let after = board.operated(id, OpView::Ask, now);
            &&& board.activity(id) is Some ==> after.activity(id) == Some(SessionState::Approval)
            &&& board.activity(id) is None ==> after.activity(id) is None
            &&& after.text_at == board.text_at
            &&& after.frames == board.frames
            &&& after.subscribed == board.subscribed
        }),
{
}

/// The end of a turn in the transcript ends the activity of any session that does not
/// wait, and operations without a bearing change nothing at all.
pub proof fn law_turn_over(board: BoardView, id: Seq<char>, now: u64)
    ensures
        ({
            let after = board.operated(id, OpView::TurnOver, now);
            let waits = board.activity(id) == Some(SessionState::Approval);
            &&& !waits ==> after.activity(id) is None
            &&& waits ==> after.activity(id) == Some(SessionState::Approval)
            &&& after.text_at == board.text_at
            &&& after.frames == board.frames
            &&& board.operated(id, OpView::Other, now) == board
        }),
{
}

/// A step makes an active session think, unless it waits or answers with recent text, and
/// wakes none that is not active. A thought or a tool call does the same and wakes its
/// session too. Neither is text of an answer.
pub proof fn law_work(
    board: BoardView,
    id: Seq<char>,
    frame: Option<Seq<char>>,
    now: u64,
)
    ensures
        ({
            let stepped = board.operated(id, OpView::Step, now);
            let worked = board.operated(
                id,
                OpView::Frame { id: frame, kind: FrameKind::Working },
                now,
            );
            let waits = board.activity(id) == Some(SessionState::Approval);
            let recent = board.text_at.dom().contains(id) && now - board.text_at[id] <= 2_000;
            let holds_on = board.activity(id) == Some(SessionState::Answering) && recent;
            &&& board.activity(id) is None ==> stepped.activity(id) is None
            &&& board.activity(id) is Some && !waits && !holds_on ==> stepped.activity(id) == Some(
                SessionState::Thinking,
            )
            &&& waits || holds_on ==> stepped.activity(id) == board.activity(id)
            &&& !waits && !holds_on ==> worked.activity(id) == Some(SessionState::Thinking)
            &&& waits || holds_on ==> worked.activity(id) == board.activity(id)
            &&& stepped.text_at == board.text_at && worked.text_at == board.text_at
            &&& stepped.frames == board.frames
            &&& stepped.subscribed == board.subscribed && worked.subscribed == board.subscribed
        }),
{
    assert(board.with_frame(id, frame, false).activity(id) == board.activity(id));
}

/// Text of an answer makes its session answer unless it waits, and is noted with its time:
/// in a new frame always, and added to a frame exactly if that frame holds text of an
/// answer of an active session. Text added to any other frame changes nothing, and so does
/// a frame of another kind for the session's activity.
pub proof fn law_answer_text(
    board: BoardView,
    id: Seq<char>,
    named: Option<Seq<char>>,
    frame: Seq<char>,
    now: u64,
)
    ensures
        ({
            let begun = board.operated(
                id,
                OpView::Frame { id: named, kind: FrameKind::Body },
                now,
            );
            let added = board.operated(id, OpView::Append { frame }, now);
            let other = board.operated(
                id,
                OpView::Frame { id: named, kind: FrameKind::Quiet },
                now,
            );
            let waits = board.activity(id) == Some(SessionState::Approval);
            let known = board.frames.contains((id, frame)) && board.activity(id) is Some;
            &&& !waits ==> begun.activity(id) == Some(SessionState::Answering)
            &&& waits ==> begun.activity(id) == Some(SessionState::Approval)
            &&& begun.text_at.dom().contains(id) && begun.text_at[id] == now
            &&& known && !waits ==> added.activity(id) == Some(SessionState::Answering)
            &&& known && waits ==> added.activity(id) == Some(SessionState::Approval)
            &&& known ==> added.text_at.dom().contains(id) && added.text_at[id] == now
            &&& known ==> added.frames == board.frames
            &&& !known ==> added == board
            &&& other.sessions == board.sessions && other.text_at == board.text_at
            &&& begun.subscribed == board.subscribed && added.subscribed == board.subscribed
            &&& other.subscribed == board.subscribed
        }),
{
    let ready = board.with_frame(id, named, true).with_text(id, now);
    assert(ready.activity(id) == board.activity(id));
    let again = board.with_text(id, now);
    assert(again.activity(id) == board.activity(id));
}

/// A frame counts as text of an answer from when it was last made or replaced as such, for
/// its own session, and other frames are not affected. A frame without a name counts for
/// nothing later.
pub proof fn law_frames(
    board: BoardView,
    id: Seq<char>,
    named: Option<Seq<char>>,
    kind: FrameKind,
    owner: Seq<char>,
    frame: Seq<char>,
    now: u64,
)
    ensures
        ({
            let after = board.operated(id, OpView::Frame { id: named, kind }, now);
            &&& named == Some(frame) && owner == id ==> (after.frames.contains((owner, frame)) <==> kind
                == FrameKind::Body)
            &&& named != Some(frame) || owner != id ==> (after.frames.contains((owner, frame))
                <==> board.frames.contains((owner, frame)))
        }),
{
    match kind {
        FrameKind::Body => {
            let ready = board.with_frame(id, named, true).with_text(id, now);
            assert(ready.reported(id, Some(SessionState::Answering), now).frames == ready.frames);
        },
        FrameKind::Working => {
            let ready = board.with_frame(id, named, false);
            assert(ready.reported(id, Some(SessionState::Thinking), now).frames == ready.frames);
        },
        FrameKind::Quiet => {},
    }
}

/// Operations are taken one after the other: a transcript in two parts comes to the same
/// as in one, a single operation is just that operation, and none changes nothing.
pub proof fn law_operations_in_parts(
    board: BoardView,
    id: Seq<char>,
    first: Seq<OpView>,
    second: Seq<OpView>,
    op: OpView,
    now: u64,
)
    ensures
        board.operated_all(id, first + second, now) == board.operated_all(
            id,
            first,
            now,
        ).operated_all(id, second, now),
        board.operated_all(id, seq![op], now) == board.operated(id, op, now),
        board.operated_all(id, Seq::empty(), now) == board,
    decreases second.len(),
{
    assert(seq![op].drop_last() =~= Seq::<OpView>::empty());
    assert(board.operated_all(id, seq![op].drop_last(), now) == board);
    if second.len() == 0 {
        assert(first + second =~= first);
    } else {
        law_operations_in_parts(board, id, first, second.drop_last(), op, now);
        assert((first + second).drop_last() =~= first + second.drop_last());
        assert((first + second).last() == second.last());
    }
}

/// What is known of the text of other sessions is not touched by an operation.
pub proof fn law_other_texts_untouched(
    board: BoardView,
    id: Seq<char>,
    other: Seq<char>,
    op: OpView,
    now: u64,
)
    requires
        other != id,
    ensures
        lookup(board.operated(id, op, now).text_at, other) == lookup(board.text_at, other),
        board.operated(id, op, now).activity(other) == board.activity(other),
{
}

/// A subscription makes its own session known and no other, and reports settle the
/// activities; neither touches anything else, and reports are authoritative: neither
/// waiting nor recent text holds against them.
pub proof fn law_subscriptions_and_reports(
    board: BoardView,
    id: Seq<char>,
    other: Seq<char>,
    report: SessionReport,
)
    ensures
        ({
            let known = board.with_subscription(id);
            let settled = board.settled_by(seq![report]);
            let waits = report.pending.len() > 0 && report.pending != "none"@;
            &&& known.subscribed.contains(other) <==> board.subscribed.contains(other) || other == id
            &&& known.sessions == board.sessions && known.frames == board.frames && known.text_at
                == board.text_at
            &&& !waits && !report.busy ==> settled.activity(report.id) is None
            &&& waits ==> settled.activity(report.id) == Some(SessionState::Approval)
            &&& settled.subscribed == board.subscribed && settled.frames == board.frames
                && settled.text_at == board.text_at
        }),
{
    law_one_report(board.sessions, report, id);
}

} // verus!
