//! What the companion shows, and the activity of the sessions that it is drawn from.

use crate::keyed::{holds, TextMap};
use crate::text::same_text;
use vstd::prelude::*;

verus! {

/// The state that the companion shows.
#[derive(Clone, Copy, PartialEq, Eq, Debug, Structural)]
pub enum PetState {
    Thinking,
    Answering,
    Approval,
    Idle,
    Offline,
}

/// The activity of one session. A session without activity is in no table.
#[derive(Clone, Copy, PartialEq, Eq, Debug, Structural)]
pub enum SessionState {
    Thinking,
    Answering,
    Approval,
}

impl PetState {
    /// The name under which a state is announced.
    pub open spec fn name(self) -> Seq<char> {
        match self {
            PetState::Thinking => "thinking"@,
            PetState::Answering => "answering"@,
            PetState::Approval => "approval"@,
            PetState::Idle => "idle"@,
            PetState::Offline => "offline"@,
        }
    }

    pub fn as_str(self) -> (r: &'static str)
        ensures
            r@ == self.name(),
    {
        match self {
            PetState::Thinking => "thinking",
            PetState::Answering => "answering",
            PetState::Approval => "approval",
            PetState::Idle => "idle",
            PetState::Offline => "offline",
        }
    }
}

/// Different states have different names.
pub proof fn law_names_tell_states_apart(a: PetState, b: PetState)
    ensures
        a.name() == b.name() <==> a == b,
{
    reveal_strlit("thinking");
    reveal_strlit("answering");
    reveal_strlit("approval");
    reveal_strlit("idle");
    reveal_strlit("offline");
    assert("thinking"@.len() == 8 && "answering"@.len() == 9 && "approval"@.len() == 8);
    assert("idle"@.len() == 4 && "offline"@.len() == 7);
    assert("thinking"@[0] == 't' && "approval"@[0] == 'a');
}

/// The activities of all sessions in one state: one session that waits for the user
/// outweighs all others, then one that answers, then one that thinks.
pub open spec fn aggregated(sessions: Map<Seq<char>, SessionState>) -> PetState {
    if holds(sessions, SessionState::Approval) {
        PetState::Approval
    } else if holds(sessions, SessionState::Answering) {
        PetState::Answering
    } else if holds(sessions, SessionState::Thinking) {
        PetState::Thinking
    } else {
        PetState::Idle
    }
}

pub fn aggregate(sessions: &TextMap<SessionState>) -> (r: PetState)
    ensures
        r == aggregated(sessions@),
{
    let values = sessions.values();
    let mut result: PetState = PetState::Idle;
    let mut i: usize = 0;
    while i < values.len()
        invariant
            i <= values.len(),
            forall|j: int| 0 <= j < i ==> values[j] != SessionState::Approval,
            forall|j: int| 0 <= j < values.len() ==> holds(sessions@, #[trigger] values[j]),
            result != PetState::Approval && result != PetState::Offline,
            result == PetState::Answering <==> exists|j: int|
                0 <= j < i && values[j] == SessionState::Answering,
            result == PetState::Idle <==> i == 0,
        decreases values.len() - i,
    {
        match values[i] {
            SessionState::Approval => {
                return PetState::Approval;
            },
            SessionState::Answering => {
                result = PetState::Answering;
            },
            SessionState::Thinking => {
                if result == PetState::Idle {
                    result = PetState::Thinking;
                }
            },
        }
        i = i + 1;
    }
    proof {
        if holds(sessions@, SessionState::Approval) {
            assert(values@.contains(SessionState::Approval));
        }
        if holds(sessions@, SessionState::Answering) {
            assert(values@.contains(SessionState::Answering));
        }
        if holds(sessions@, SessionState::Thinking) {
            assert(values@.contains(SessionState::Thinking));
        }
        if values.len() > 0 {
            assert(holds(sessions@, values[0]));
        }
    }
    result
}

/// What the service reports of a session.
pub struct SessionInfo {
    pub id: String,
    pub busy: bool,
    pub pending: String,
}

pub ghost struct SessionReport {
    pub id: Seq<char>,
    pub busy: bool,
    pub pending: Seq<char>,
}

impl View for SessionInfo {
    type V = SessionReport;

    open spec fn view(&self) -> SessionReport {
        SessionReport { id: self.id@, busy: self.busy, pending: self.pending@ }
    }
}

/// A list of session reports by their content.
pub open spec fn reports(infos: Seq<SessionInfo>) -> Seq<SessionReport> {
    Seq::new(infos.len(), |i: int| infos[i]@)
}

pub open spec fn lookup<V>(map: Map<Seq<char>, V>, key: Seq<char>) -> Option<V> {
    if map.dom().contains(key) {
        Some(map[key])
    } else {
        None
    }
}

/// `map` with `key` at `value`, or without `key`.
pub open spec fn assigned<V>(map: Map<Seq<char>, V>, key: Seq<char>, value: Option<V>) -> Map<
    Seq<char>,
    V,
> {
    match value {
        Some(v) => map.insert(key, v),
        None => map.remove(key),
    }
}

/// A report says that the session waits for its user.
pub open spec fn awaits_user(report: SessionReport) -> bool {
    report.pending.len() > 0 && report.pending != "none"@
}

/// The activity of a session after a report, given the one before: waiting for the user
/// comes first; a busy session keeps the finer state that it is known to be in; any
/// other session has no activity.
pub open spec fn settled(prev: Option<SessionState>, report: SessionReport) -> Option<
    SessionState,
> {
    if awaits_user(report) {
        Some(SessionState::Approval)
    } else if report.busy {
        match prev {
            Some(SessionState::Answering) => Some(SessionState::Answering),
            _ => Some(SessionState::Thinking),
        }
    } else {
        None
    }
}

/// The table after a list of reports, taken in order.
pub open spec fn reconciled(
    sessions: Map<Seq<char>, SessionState>,
    list: Seq<SessionReport>,
) -> Map<Seq<char>, SessionState>
    decreases list.len(),
{
    if list.len() == 0 {
        sessions
    } else {
        let before = reconciled(sessions, list.drop_last());
        let id = list.last().id;
        assigned(before, id, settled(lookup(before, id), list.last()))
    }
}

/// Some report of the list changes the activity that its session has at that point.
pub open spec fn disagrees(
    sessions: Map<Seq<char>, SessionState>,
    list: Seq<SessionReport>,
) -> bool
    decreases list.len(),
{
    if list.len() == 0 {
        false
    } else {
        let before = reconciled(sessions, list.drop_last());
        let prev = lookup(before, list.last().id);
        disagrees(sessions, list.drop_last()) || prev != settled(prev, list.last())
    }
}

/// Brings the table in line with the reports, which are authoritative. Tells whether
/// anything changed.
pub fn reconcile(sessions: &mut TextMap<SessionState>, infos: &Vec<SessionInfo>) -> (changed: bool)
    ensures
        final(sessions)@ == reconciled(old(sessions)@, reports(infos@)),
        changed == disagrees(old(sessions)@, reports(infos@)),
{
    let ghost list = reports(infos@);
    let mut changed: bool = false;
    let mut i: usize = 0;
    proof {
        assert(list.take(0) =~= Seq::<SessionReport>::empty());
    }
    while i < infos.len()
        invariant
            i <= infos.len(),
            list == reports(infos@),
            sessions@ == reconciled(old(sessions)@, list.take(i as int)),
            changed == disagrees(old(sessions)@, list.take(i as int)),
        decreases infos.len() - i,
    {
        let info = &infos[i];
        proof {
            assert(list.take(i + 1).drop_last() =~= list.take(i as int));
            assert(list.take(i + 1).last() == info@);
        }
        let prev = sessions.get(info.id.as_str());
        let next: Option<SessionState> = if !info.pending.as_str().is_empty() && !same_text(
            info.pending.as_str(),
            "none",
        ) {
            Some(SessionState::Approval)
        } else if info.busy {
            match prev {
                Some(SessionState::Answering) => Some(SessionState::Answering),
                _ => Some(SessionState::Thinking),
            }
        } else {
            None
        };
        match next {
            Some(state) => {
                if prev != next {
                    changed = true;
                    sessions.insert(info.id.as_str(), state);
                }
            },
            None => {
                if prev.is_some() {
                    changed = true;
                    sessions.remove(info.id.as_str());
                }
            },
        }
        proof {
            assert(sessions@ =~= reconciled(old(sessions)@, list.take(i + 1)));
        }
        i = i + 1;
    }
    proof {
        assert(list.take(infos.len() as int) =~= list);
    }
    changed
}

/// The companion is idle exactly if no session has any activity, and it never takes the
/// offline state from its sessions.
pub proof fn law_idle_without_activity(sessions: Map<Seq<char>, SessionState>)
    ensures
        aggregated(sessions) == PetState::Idle <==> (forall|key: Seq<char>|
            !sessions.dom().contains(key)),
        aggregated(sessions) != PetState::Offline,
{
    if exists|key: Seq<char>| sessions.dom().contains(key) {
        let key = choose|key: Seq<char>| sessions.dom().contains(key);
        assert(holds(sessions, sessions[key]));
    }
}

/// One session that waits for the user shows, whatever the others do; one that answers
/// shows unless some session waits; one that thinks never hides either.
pub proof fn law_priority(sessions: Map<Seq<char>, SessionState>, key: Seq<char>)
    requires
        sessions.dom().contains(key),
    ensures
        sessions[key] == SessionState::Approval ==> aggregated(sessions) == PetState::Approval,
        sessions[key] == SessionState::Answering ==> aggregated(sessions) == PetState::Approval
            || aggregated(sessions) == PetState::Answering,
        sessions[key] == SessionState::Thinking ==> aggregated(sessions) != PetState::Idle,
{
    assert(holds(sessions, sessions[key]));
}

/// How much a state weighs among those that sessions give.
pub open spec fn weight(state: PetState) -> int {
    match state {
        PetState::Approval => 3,
        PetState::Answering => 2,
        PetState::Thinking => 1,
        _ => 0,
    }
}

/// Two tables without a session in common, taken together, show what the weightier of
/// them shows.
pub proof fn law_tables_together(
    a: Map<Seq<char>, SessionState>,
    b: Map<Seq<char>, SessionState>,
)
    requires
        a.dom().disjoint(b.dom()),
    ensures
        aggregated(a.union_prefer_right(b)) == (if weight(aggregated(a)) < weight(aggregated(b)) {
            aggregated(b)
        } else {
            aggregated(a)
        }),
{
    let both = a.union_prefer_right(b);
    assert forall|value: SessionState| #[trigger] holds(both, value) <==> holds(a, value) || holds(
        b,
        value,
    ) by {
        if holds(both, value) {
            let key = choose|key: Seq<char>| #[trigger]
                both.dom().contains(key) && both[key] == value;
            if b.dom().contains(key) {
                assert(b[key] == value);
            } else {
                assert(a.dom().contains(key) && a[key] == value);
            }
        }
        if holds(a, value) {
            let key = choose|key: Seq<char>| #[trigger] a.dom().contains(key) && a[key] == value;
            assert(!b.dom().contains(key));
            assert(both.dom().contains(key));
        }
        if holds(b, value) {
            let key = choose|key: Seq<char>| #[trigger] b.dom().contains(key) && b[key] == value;
            assert(both.dom().contains(key));
        }
    }
    assert(holds(both, SessionState::Approval) <==> holds(a, SessionState::Approval) || holds(
        b,
        SessionState::Approval,
    ));
    assert(holds(both, SessionState::Answering) <==> holds(a, SessionState::Answering) || holds(
        b,
        SessionState::Answering,
    ));
    assert(holds(both, SessionState::Thinking) <==> holds(a, SessionState::Thinking) || holds(
        b,
        SessionState::Thinking,
    ));
}

/// Reports may come in parts: one list after another is the same as both in one.
pub proof fn law_reports_in_parts(
    sessions: Map<Seq<char>, SessionState>,
    first: Seq<SessionReport>,
    second: Seq<SessionReport>,
)
    ensures
        reconciled(sessions, first + second) == reconciled(reconciled(sessions, first), second),
        disagrees(sessions, first + second) <==> disagrees(sessions, first) || disagrees(
            reconciled(sessions, first),
            second,
        ),
    decreases second.len(),
{
    if second.len() == 0 {
        assert(first + second =~= first);
    } else {
        law_reports_in_parts(sessions, first, second.drop_last());
        assert((first + second).drop_last() =~= first + second.drop_last());
        assert((first + second).last() == second.last());
    }
}

/// No session is reported twice.
pub open spec fn distinct_ids(list: Seq<SessionReport>) -> bool {
    forall|i: int, j: int| 0 <= i < j < list.len() ==> list[i].id != list[j].id
}

pub open spec fn is_listed(list: Seq<SessionReport>, id: Seq<char>) -> bool {
    exists|i: int| 0 <= i < list.len() && #[trigger] list[i].id == id
}

/// A list without disagreement changes nothing.
pub proof fn law_agreement_changes_nothing(
    sessions: Map<Seq<char>, SessionState>,
    list: Seq<SessionReport>,
)
    requires
        !disagrees(sessions, list),
    ensures
        reconciled(sessions, list) == sessions,
    decreases list.len(),
{
    if list.len() > 0 {
        law_agreement_changes_nothing(sessions, list.drop_last());
        assert(reconciled(sessions, list) =~= sessions);
    }
}

/// Sessions that are not reported keep their activity.
pub proof fn law_unlisted_untouched(
    sessions: Map<Seq<char>, SessionState>,
    list: Seq<SessionReport>,
    id: Seq<char>,
)
    requires
        !is_listed(list, id),
    ensures
        lookup(reconciled(sessions, list), id) == lookup(sessions, id),
    decreases list.len(),
{
    if list.len() > 0 {
        let front = list.drop_last();
        assert(list[list.len() - 1].id != id);
        assert forall|i: int| 0 <= i < front.len() implies #[trigger] front[i].id != id by {
            assert(list[i].id != id);
        }
        law_unlisted_untouched(sessions, front, id);
    }
}

/// Where each session is reported once, every reported session ends up as its report
/// says, and something changed exactly if one of them differed.
pub proof fn law_reports_prevail(
    sessions: Map<Seq<char>, SessionState>,
    list: Seq<SessionReport>,
)
    requires
        distinct_ids(list),
    ensures
        forall|i: int|
            0 <= i < list.len() ==> lookup(reconciled(sessions, list), #[trigger] list[i].id)
                == settled(lookup(sessions, list[i].id), list[i]),
        disagrees(sessions, list) <==> reconciled(sessions, list) != sessions,
    decreases list.len(),
{
    if list.len() > 0 {
        let front = list.drop_last();
        let last = list.last();
        assert forall|i: int, j: int| 0 <= i < j < front.len() implies front[i].id
            != front[j].id by {
            assert(list[i].id != list[j].id);
        }
        law_reports_prevail(sessions, front);
        assert(!is_listed(front, last.id)) by {
            assert forall|i: int| 0 <= i < front.len() implies #[trigger] front[i].id
                != last.id by {
                assert(list[i].id != list[list.len() - 1].id);
            }
        }
        law_unlisted_untouched(sessions, front, last.id);
        let after = reconciled(sessions, list);
        assert forall|i: int| 0 <= i < list.len() implies lookup(after, #[trigger] list[i].id)
            == settled(lookup(sessions, list[i].id), list[i]) by {
            if i < front.len() {
                assert(front[i] == list[i]);
                assert(list[i].id != list[list.len() - 1].id);
            }
        }
        if disagrees(sessions, list) {
            if disagrees(sessions, front) {
                lemma_first_difference(sessions, front);
                let i = choose|i: int|
                    0 <= i < front.len() && lookup(sessions, #[trigger] front[i].id) != settled(
                        lookup(sessions, front[i].id),
                        front[i],
                    );
                assert(front[i] == list[i]);
                assert(lookup(after, list[i].id) != lookup(sessions, list[i].id));
            } else {
                law_agreement_changes_nothing(sessions, front);
                assert(lookup(after, last.id) != lookup(sessions, last.id));
            }
        } else {
            law_agreement_changes_nothing(sessions, list);
        }
    }
}

/// Where each session is reported once, a list that disagrees disagrees with the table
/// as it was before the list.
proof fn lemma_first_difference(
    sessions: Map<Seq<char>, SessionState>,
    list: Seq<SessionReport>,
)
    requires
        distinct_ids(list),
        disagrees(sessions, list),
    ensures
        exists|i: int|
            0 <= i < list.len() && lookup(sessions, #[trigger] list[i].id) != settled(
                lookup(sessions, list[i].id),
                list[i],
            ),
    decreases list.len(),
{
    let front = list.drop_last();
    let last = list.last();
    assert forall|i: int, j: int| 0 <= i < j < front.len() implies front[i].id != front[j].id by {
        assert(list[i].id != list[j].id);
    }
    if disagrees(sessions, front) {
        lemma_first_difference(sessions, front);
        let i = choose|i: int|
            0 <= i < front.len() && lookup(sessions, #[trigger] front[i].id) != settled(
                lookup(sessions, front[i].id),
                front[i],
            );
        assert(front[i] == list[i]);
    } else {
        law_agreement_changes_nothing(sessions, front);
        assert(list[list.len() - 1] == last);
    }
}

/// Where each session is reported once, taking the same reports a second time changes
/// nothing.
pub proof fn law_reconcile_twice(
    sessions: Map<Seq<char>, SessionState>,
    list: Seq<SessionReport>,
)
    requires
        distinct_ids(list),
    ensures
        !disagrees(reconciled(sessions, list), list),
        reconciled(reconciled(sessions, list), list) == reconciled(sessions, list),
{
    let once = reconciled(sessions, list);
    law_reports_prevail(sessions, list);
    if disagrees(once, list) {
        lemma_first_difference(once, list);
        let i = choose|i: int|
            0 <= i < list.len() && lookup(once, #[trigger] list[i].id) != settled(
                lookup(once, list[i].id),
                list[i],
            );
        assert(lookup(once, list[i].id) == settled(lookup(sessions, list[i].id), list[i]));
    }
    law_agreement_changes_nothing(once, list);
}

/// The shown state is that of some session, and no session's state outweighs it: waiting
/// shows exactly if some session waits, answering exactly if some session answers and none
/// waits, thinking exactly if some session thinks and none does either.
pub proof fn law_shown_state_is_some_sessions(sessions: Map<Seq<char>, SessionState>)
    ensures
        ({
            let waits = exists|key: Seq<char>| #[trigger]
                sessions.dom().contains(key) && sessions[key] == SessionState::Approval;
            let answers = exists|key: Seq<char>| #[trigger]
                sessions.dom().contains(key) && sessions[key] == SessionState::Answering;
            let thinks = exists|key: Seq<char>| #[trigger]
                sessions.dom().contains(key) && sessions[key] == SessionState::Thinking;
            &&& aggregated(sessions) == PetState::Approval <==> waits
            &&& aggregated(sessions) == PetState::Answering <==> answers && !waits
            &&& aggregated(sessions) == PetState::Thinking <==> thinks && !answers && !waits
            &&& aggregated(sessions) == PetState::Idle <==> !thinks && !answers && !waits
        }),
{
    assert(holds(sessions, SessionState::Approval) <==> exists|key: Seq<char>| #[trigger]
        sessions.dom().contains(key) && sessions[key] == SessionState::Approval);
    assert(holds(sessions, SessionState::Answering) <==> exists|key: Seq<char>| #[trigger]
        sessions.dom().contains(key) && sessions[key] == SessionState::Answering);
    assert(holds(sessions, SessionState::Thinking) <==> exists|key: Seq<char>| #[trigger]
        sessions.dom().contains(key) && sessions[key] == SessionState::Thinking);
}

/// A report with a pending interaction makes its session wait, busy or not; a report of
/// neither ends whatever the session did; and a busy session without one goes on
/// answering if it answered, and thinks otherwise.
pub proof fn law_what_a_report_means(prev: Option<SessionState>, report: SessionReport)
    ensures
        report.pending.len() > 0 && report.pending != "none"@ ==> settled(prev, report) == Some(
            SessionState::Approval,
        ),
        (report.pending.len() == 0 || report.pending == "none"@) && !report.busy ==> settled(
            prev,
            report,
        ) is None,
        (report.pending.len() == 0 || report.pending == "none"@) && report.busy && prev == Some(
            SessionState::Answering,
        ) ==> settled(prev, report) == Some(SessionState::Answering),
        (report.pending.len() == 0 || report.pending == "none"@) && report.busy && prev != Some(
            SessionState::Answering,
        ) ==> settled(prev, report) == Some(SessionState::Thinking),
{
}

/// One report decides about its own session only: the session is in the table afterwards
/// exactly if it waits or is busy, it is then as the report says, and every other session
/// is as before. It counts as a change exactly if the session is not as before.
pub proof fn law_one_report(
    sessions: Map<Seq<char>, SessionState>,
    report: SessionReport,
    other: Seq<char>,
)
    ensures
        ({
            let after = reconciled(sessions, seq![report]);
            let id = report.id;
            let waits = report.pending.len() > 0 && report.pending != "none"@;
            let answered = sessions.dom().contains(id) && sessions[id] == SessionState::Answering;
            &&& after.dom().contains(id) <==> waits || report.busy
            &&& waits ==> after[id] == SessionState::Approval
            &&& !waits && report.busy && answered ==> after[id] == SessionState::Answering
            &&& !waits && report.busy && !answered ==> after[id] == SessionState::Thinking
            &&& other != id ==> after.dom().contains(other) == sessions.dom().contains(other)
            &&& other != id && sessions.dom().contains(other) ==> after[other] == sessions[other]
            &&& disagrees(sessions, seq![report]) <==> after != sessions
        }),
{
    let list = seq![report];
    assert(list.drop_last() =~= Seq::empty());
    assert(reconciled(sessions, list.drop_last()) == sessions);
    assert(list.last() == report);
    let after = reconciled(sessions, list);
    let prev = lookup(sessions, report.id);
    law_what_a_report_means(prev, report);
    assert(after == assigned(sessions, report.id, settled(prev, report)));
    assert(!disagrees(sessions, list.drop_last()));
    if prev == settled(prev, report) {
        assert(after =~= sessions);
    } else {
        assert(lookup(after, report.id) != lookup(sessions, report.id));
    }
}

/// A list without reports changes nothing.
pub proof fn law_no_report(sessions: Map<Seq<char>, SessionState>)
    ensures
        reconciled(sessions, Seq::empty()) == sessions,
        !disagrees(sessions, Seq::empty()),
{
}

/// A key that is looked up gives what the table holds for it; a key that is assigned holds
/// the value, or nothing, and the other keys hold what they held.
pub proof fn law_assignment<V>(
    map: Map<Seq<char>, V>,
    key: Seq<char>,
    value: Option<V>,
    other: Seq<char>,
)
    ensures
        lookup(map, key) is Some <==> map.dom().contains(key),
        map.dom().contains(key) ==> lookup(map, key) == Some(map[key]),
        lookup(assigned(map, key, value), key) == value,
        other != key ==> lookup(assigned(map, key, value), other) == lookup(map, other),
{
}

} // verus!
