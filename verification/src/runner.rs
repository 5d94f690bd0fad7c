//! The main loop, one step at a time: from what happened to what is to be done next.

use crate::board::{Board, BoardView};
use crate::events::{
    decode, decoded, phase_change, reported_phase, Change, Event, EventView, OpView,
};
use crate::frames::{
    pong, pong_frame, subscribe_frame, subscription, sv2_frame, transcript_subscription,
};
use crate::json::{json_parsed, json_text, parse, Json, JsonTree};
use crate::pet::{
    announcement, auto_quit_armed, mark_disconnected, quits_on_close, set_state, Pet, OFFLINE_GRACE,
    SHUTDOWN_REASON,
};
use crate::service::{
    address, events_url, list_session_ids, report_ids, sessions_url, texts_of,
};
use crate::state::{
    aggregated, disagrees, law_agreement_changes_nothing, law_idle_without_activity, reconciled,
    reports, PetState, SessionInfo, SessionReport,
};
use crate::text::{join2, same_text};
use vstd::prelude::*;

verus! {

/// How long the companion waits before it looks for a service again, in milliseconds.
pub const RETRY_DELAY: u64 = 5_000;

/// How often the service is asked for its sessions, in milliseconds.
pub const POLL_INTERVAL: u64 = 3_000;

/// Where the companion stands with the service.
pub enum Stage {
    /// It has no service.
    Seeking,
    /// It opens the event stream of a service.
    Dialing { token: String, port: u16 },
    /// The stream is open, and it asks for the sessions.
    Listing { token: String, port: u16 },
    /// It follows the stream.
    Online { token: String, port: u16, board: Board },
}

pub ghost enum StageView {
    Seeking,
    Dialing { token: Seq<char>, port: u16 },
    Listing { token: Seq<char>, port: u16 },
    Online { token: Seq<char>, port: u16, board: BoardView },
}

impl View for Stage {
    type V = StageView;

    open spec fn view(&self) -> StageView {
        match self {
            Stage::Seeking => StageView::Seeking,
            Stage::Dialing { token, port } => StageView::Dialing { token: token@, port: *port },
            Stage::Listing { token, port } => StageView::Listing { token: token@, port: *port },
            Stage::Online { token, port, board } => StageView::Online {
                token: token@,
                port: *port,
                board: board@,
            },
        }
    }
}

/// What happened.
pub enum Signal {
    /// The token was read and a service was looked for.
    Located { token: Option<String>, port: Option<u16> },
    /// No request could be made of the stream's address.
    RequestFailed,
    /// The stream could not be opened.
    DialFailed,
    /// The stream is open.
    Dialed,
    /// The service listed its sessions.
    Listed { infos: Vec<SessionInfo> },
    /// The stream brought a text.
    Text { text: String },
    /// The stream brought a closing frame, perhaps with a reason.
    Closed { reason: Option<String> },
    /// The stream ended or failed.
    Lost,
    /// The stream brought something else.
    Noise,
    /// The service listed its sessions again.
    Polled { infos: Vec<SessionInfo> },
    /// A frame that subscribes to these sessions was sent.
    Subscribed { ids: Vec<String> },
}

pub ghost enum SignalView {
    Located { token: Option<Seq<char>>, port: Option<u16> },
    RequestFailed,
    DialFailed,
    Dialed,
    Listed { list: Seq<SessionReport> },
    Text { text: Seq<char> },
    Closed { reason: Option<Seq<char>> },
    Lost,
    Noise,
    Polled { list: Seq<SessionReport> },
    Subscribed { ids: Seq<Seq<char>> },
}

pub open spec fn text_of(text: Option<String>) -> Option<Seq<char>> {
    match text {
        Some(t) => Some(t@),
        None => None,
    }
}

impl View for Signal {
    type V = SignalView;

    open spec fn view(&self) -> SignalView {
        match self {
            Signal::Located { token, port } => SignalView::Located {
                token: text_of(*token),
                port: *port,
            },
            Signal::RequestFailed => SignalView::RequestFailed,
            Signal::DialFailed => SignalView::DialFailed,
            Signal::Dialed => SignalView::Dialed,
            Signal::Listed { infos } => SignalView::Listed { list: reports(infos@) },
            Signal::Text { text } => SignalView::Text { text: text@ },
            Signal::Closed { reason } => SignalView::Closed { reason: text_of(*reason) },
            Signal::Lost => SignalView::Lost,
            Signal::Noise => SignalView::Noise,
            Signal::Polled { infos } => SignalView::Polled { list: reports(infos@) },
            Signal::Subscribed { ids } => SignalView::Subscribed { ids: texts_of(ids@) },
        }
    }
}

/// A frame to send, and the sessions that are subscribed to once it is sent.
pub struct Outgoing {
    pub text: String,
    pub marks: Vec<String>,
}

pub ghost struct OutgoingView {
    pub text: Seq<char>,
    pub marks: Seq<Seq<char>>,
}

impl View for Outgoing {
    type V = OutgoingView;

    open spec fn view(&self) -> OutgoingView {
        OutgoingView { text: self.text@, marks: texts_of(self.marks@) }
    }
}

pub open spec fn outgoing_views(frames: Seq<Outgoing>) -> Seq<OutgoingView> {
    Seq::new(frames.len(), |i: int| frames[i]@)
}

/// What to wait for next.
pub enum Next {
    /// Read the token and look for a service, perhaps after a pause.
    Locate { pause: bool },
    /// Open the stream at this address, offering this protocol.
    Dial { url: String, protocol: String },
    /// Ask for the sessions at this address.
    List { url: String },
    /// Follow the stream, and ask for the sessions from time to time.
    Listen,
}

pub ghost enum NextView {
    Locate { pause: bool },
    Dial { url: Seq<char>, protocol: Seq<char> },
    List { url: Seq<char> },
    Listen,
}

impl View for Next {
    type V = NextView;

    open spec fn view(&self) -> NextView {
        match self {
            Next::Locate { pause } => NextView::Locate { pause: *pause },
            Next::Dial { url, protocol } => NextView::Dial { url: url@, protocol: protocol@ },
            Next::List { url } => NextView::List { url: url@ },
            Next::Listen => NextView::Listen,
        }
    }
}

/// What is to be done.
pub struct Reaction {
    /// The name of a newly shown state, to be announced.
    pub announce: Option<&'static str>,
    /// The companion is to quit.
    pub exit: bool,
    /// Frames to send, in order.
    pub frames: Vec<Outgoing>,
    /// The kind of a phase that is not known, for the log.
    pub unknown_phase: Option<String>,
    pub next: Next,
}

#[verifier::ext_equal]
pub ghost struct ReactionView {
    pub announce: Option<Seq<char>>,
    pub exit: bool,
    pub frames: Seq<OutgoingView>,
    pub unknown_phase: Option<Seq<char>>,
    pub next: NextView,
}

impl View for Reaction {
    type V = ReactionView;

    open spec fn view(&self) -> ReactionView {
        ReactionView {
            announce: announcement(self.announce),
            exit: self.exit,
            frames: outgoing_views(self.frames@),
            unknown_phase: text_of(self.unknown_phase),
            next: self.next@,
        }
    }
}

/// What a step comes to.
#[verifier::ext_equal]
pub ghost struct Outcome {
    pub pet: Pet,
    pub stage: StageView,
    pub reaction: ReactionView,
}

/// The text can stand in a header: it holds no control characters but the tabulator.
pub open spec fn fits_header(text: Seq<char>) -> bool {
    forall|i: int|
        0 <= i < text.len() ==> {
            let c = #[trigger] text[i] as u32;
            (c >= 32 && c != 127) || c == 9
        }
}

/// `HeaderValue::from_str` of the `http` crate, as `tokio_tungstenite` hands it on: it
/// takes a text exactly if all its bytes are tabulators or no control characters. Every
/// byte of a character outside ASCII is taken.
#[verifier::external_body]
fn is_header_value(text: &str) -> (r: bool)
    ensures
        r == fits_header(text@),
{
    tokio_tungstenite::tungstenite::http::HeaderValue::from_str(text).is_ok()
}

/// The protocol by which the companion shows its token to the service.
pub open spec fn bearer_protocol(token: Seq<char>) -> Seq<char> {
    "kimi-code.bearer."@ + token
}

/// A reaction that does nothing but go on.
pub open spec fn quiet(next: NextView) -> ReactionView {
    ReactionView { announce: None, exit: false, frames: Seq::empty(), unknown_phase: None, next }
}

/// What a stage waits for.
pub open spec fn awaited(stage: StageView) -> NextView {
    match stage {
        StageView::Seeking => NextView::Locate { pause: false },
        StageView::Dialing { token, port } => NextView::Dial {
            url: address("ws"@, port, "/api/v1/ws"@),
            protocol: bearer_protocol(token),
        },
        StageView::Listing { token, port } => NextView::List {
            url: address("http"@, port, "/api/v1/sessions?page_size=100"@),
        },
        StageView::Online { .. } => NextView::Listen,
    }
}

/// The step that finds no connection at `now`.
pub open spec fn found_lost(pet: Pet, now: u64) -> Outcome {
    Outcome {
        pet: pet.marked(now),
        stage: StageView::Seeking,
        reaction: ReactionView {
            announce: pet.news(pet.marked(now).shown),
            exit: pet.gives_up(now),
            frames: Seq::empty(),
            unknown_phase: None,
            next: NextView::Locate { pause: true },
        },
    }
}

/// The frames that subscribe to sessions, if there are any: one for their events, then
/// one for the transcript of each.
pub open spec fn subscribing(ids: Seq<Seq<char>>, first: bool) -> Seq<OutgoingView> {
    if ids.len() == 0 {
        Seq::empty()
    } else {
        seq![
            OutgoingView {
                text: json_text(subscription(ids, first)),
                marks: if first {
                    Seq::empty()
                } else {
                    ids
                },
            },
        ] + Seq::new(
            ids.len(),
            |i: int|
                OutgoingView {
                    text: json_text(transcript_subscription(ids[i])),
                    marks: Seq::empty(),
                },
        )
    }
}

/// The sessions in a list that are not in a set.
pub open spec fn newcomers(ids: Seq<Seq<char>>, known: Set<Seq<char>>) -> Seq<Seq<char>>
    decreases ids.len(),
{
    if ids.len() == 0 {
        Seq::empty()
    } else {
        let front = newcomers(ids.drop_last(), known);
        if known.contains(ids.last()) {
            front
        } else {
            front.push(ids.last())
        }
    }
}

/// The companion and the board at the end of a step that shows what the sessions do.
pub open spec fn shown(pet: Pet, board: BoardView) -> (Pet, Option<Seq<char>>) {
    let state = aggregated(board.sessions);
    (pet.with_shown(state), pet.news(state))
}

/// The step that takes an event from the stream.
pub open spec fn heard(
    pet: Pet,
    token: Seq<char>,
    port: u16,
    board: BoardView,
    event: EventView,
    now: u64,
) -> Outcome {
    let stay = StageView::Online { token, port, board };
    match event {
        EventView::Ignored => Outcome { pet, stage: stay, reaction: quiet(NextView::Listen) },
        EventView::Ping(payload) => Outcome {
            pet,
            stage: stay,
            reaction: ReactionView {
                frames: seq![
                    OutgoingView { text: json_text(pong(payload)), marks: Seq::empty() },
                ],
                ..quiet(NextView::Listen)
            },
        },
        EventView::Created(id) => Outcome {
            pet,
            stage: stay,
            reaction: ReactionView {
                frames: match id {
                    Some(id) => subscribing(seq![id], false),
                    None => Seq::empty(),
                },
                ..quiet(NextView::Listen)
            },
        },
        EventView::UnknownPhase(kind) => Outcome {
            pet,
            stage: stay,
            reaction: ReactionView { unknown_phase: Some(kind), ..quiet(NextView::Listen) },
        },
        EventView::Session { id, change } => {
            let after = board.changed(id, change, now);
            Outcome {
                pet: shown(pet, after).0,
                stage: StageView::Online { token, port, board: after },
                reaction: ReactionView {
                    announce: shown(pet, after).1,
                    ..quiet(NextView::Listen)
                },
            }
        },
        EventView::Transcript { id, ops } => {
            let after = board.operated_all(id, ops, now);
            Outcome {
                pet: shown(pet, after).0,
                stage: StageView::Online { token, port, board: after },
                reaction: ReactionView {
                    announce: shown(pet, after).1,
                    ..quiet(NextView::Listen)
                },
            }
        },
    }
}

/// The step that takes a text from the stream, given what the text holds as JSON.
pub open spec fn read(
    pet: Pet,
    token: Seq<char>,
    port: u16,
    board: BoardView,
    parsed: Option<JsonTree>,
    now: u64,
) -> Outcome {
    match parsed {
        Some(event) => heard(pet, token, port, board, decoded(event), now),
        None => Outcome {
            pet,
            stage: StageView::Online { token, port, board },
            reaction: quiet(NextView::Listen),
        },
    }
}

/// The step that takes the service's list of sessions.
pub open spec fn polled(
    pet: Pet,
    token: Seq<char>,
    port: u16,
    board: BoardView,
    list: Seq<SessionReport>,
) -> Outcome {
    let after = BoardView { sessions: reconciled(board.sessions, list), ..board };
    let differs = disagrees(board.sessions, list);
    Outcome {
        pet: if differs {
            shown(pet, after).0
        } else {
            pet
        },
        stage: StageView::Online { token, port, board: after },
        reaction: ReactionView {
            announce: if differs {
                shown(pet, after).1
            } else {
                None
            },
            frames: subscribing(newcomers(report_ids(list), board.subscribed), false),
            ..quiet(NextView::Listen)
        },
    }
}

/// The companion once a stream is open.
pub open spec fn connected(pet: Pet) -> Pet {
    Pet { connected_once: true, disconnected_since: None, ..pet }
}

/// A step of the main loop. A signal that does not fit the stage changes nothing.
pub open spec fn stepped(pet: Pet, stage: StageView, signal: SignalView, now: u64) -> Outcome {
    match (stage, signal) {
        (StageView::Seeking, SignalView::Located { token, port }) => match (token, port) {
            (Some(token), Some(port)) => {
                let dialing = StageView::Dialing { token, port };
                if fits_header(bearer_protocol(token)) {
                    Outcome { pet, stage: dialing, reaction: quiet(awaited(dialing)) }
                } else {
                    Outcome { pet, stage, reaction: quiet(NextView::Locate { pause: true }) }
                }
            },
            _ => found_lost(pet, now),
        },
        (StageView::Dialing { .. }, SignalView::RequestFailed) => Outcome {
            pet,
            stage: StageView::Seeking,
            reaction: quiet(NextView::Locate { pause: true }),
        },
        (StageView::Dialing { .. }, SignalView::DialFailed) => found_lost(pet, now),
        (StageView::Dialing { token, port }, SignalView::Dialed) => {
            let listing = StageView::Listing { token, port };
            Outcome { pet: connected(pet), stage: listing, reaction: quiet(awaited(listing)) }
        },
        (StageView::Listing { token, port }, SignalView::Listed { list }) => {
            let ids = report_ids(list);
            let board = BoardView { subscribed: ids.to_set(), ..BoardView::fresh() };
            Outcome {
                pet: pet.with_shown(PetState::Idle),
                stage: StageView::Online { token, port, board },
                reaction: ReactionView {
                    announce: pet.news(PetState::Idle),
                    frames: subscribing(ids, true),
                    ..quiet(NextView::Listen)
                },
            }
        },
        (StageView::Online { token, port, board }, SignalView::Text { text }) => read(
            pet,
            token,
            port,
            board,
            json_parsed(text),
            now,
        ),
        (StageView::Online { .. }, SignalView::Closed { reason }) => {
            let lost = found_lost(pet, now);
            Outcome {
                reaction: ReactionView {
                    exit: quits_on_close(pet, reason) || pet.gives_up(now),
                    ..lost.reaction
                },
                ..lost
            }
        },
        (StageView::Online { .. }, SignalView::Lost) => found_lost(pet, now),
        (StageView::Online { token, port, board }, SignalView::Polled { list }) => polled(
            pet,
            token,
            port,
            board,
            list,
        ),
        (StageView::Online { token, port, board }, SignalView::Subscribed { ids }) => Outcome {
            pet,
            stage: StageView::Online {
                token,
                port,
                board: BoardView { subscribed: board.subscribed.union(ids.to_set()), ..board },
            },
            reaction: quiet(NextView::Listen),
        },
        _ => Outcome { pet, stage, reaction: quiet(awaited(stage)) },
    }
}

fn quietly(next: Next) -> (r: Reaction)
    ensures
        r@ == quiet(next@),
{
    let r = Reaction {
        announce: None,
        exit: false,
        frames: Vec::new(),
        unknown_phase: None,
        next,
    };
    proof {
        assert(r@ =~= quiet(next@));
    }
    r
}

fn lose(pet: &mut Pet, now: u64) -> (r: Reaction)
    ensures
        *final(pet) == found_lost(*old(pet), now).pet,
        r@ == found_lost(*old(pet), now).reaction,
{
    let parting = mark_disconnected(pet, now);
    let r = Reaction {
        announce: parting.announce,
        exit: parting.exit,
        frames: Vec::new(),
        unknown_phase: None,
        next: Next::Locate { pause: true },
    };
    proof {
        assert(r@ =~= found_lost(*old(pet), now).reaction);
    }
    r
}

fn subscribe_all(ids: Vec<String>, first: bool) -> (r: Vec<Outgoing>)
    ensures
        outgoing_views(r@) == subscribing(texts_of(ids@), first),
{
    let ghost texts = texts_of(ids@);
    let mut frames: Vec<Outgoing> = Vec::new();
    if ids.len() == 0 {
        proof {
            assert(outgoing_views(frames@) =~= subscribing(texts, first));
        }
        return frames;
    }
    let none: Vec<String> = Vec::new();
    proof {
        assert(texts_of(none@) =~= Seq::<Seq<char>>::empty());
    }
    let mut transcripts: Vec<Outgoing> = Vec::new();
    let mut i: usize = 0;
    while i < ids.len()
        invariant
            i == transcripts.len(),
            i <= ids.len(),
            texts == texts_of(ids@),
            forall|k: int|
                0 <= k < i ==> #[trigger] transcripts[k]@ == (OutgoingView {
                    text: json_text(transcript_subscription(texts[k])),
                    marks: Seq::empty(),
                }),
        decreases ids.len() - i,
    {
        let unmarked: Vec<String> = Vec::new();
        proof {
            assert(texts_of(unmarked@) =~= Seq::<Seq<char>>::empty());
            assert(texts[i as int] == ids[i as int]@);
        }
        transcripts.push(Outgoing { text: sv2_frame(ids[i].as_str()), marks: unmarked });
        i = i + 1;
    }
    let text = subscribe_frame(&ids, first);
    let marks: Vec<String> = if first {
        none
    } else {
        ids
    };
    frames.push(Outgoing { text, marks });
    frames.append(&mut transcripts);
    proof {
        let wanted = subscribing(texts, first);
        assert(outgoing_views(frames@) =~= wanted);
    }
    frames
}

fn new_ids(infos: &Vec<SessionInfo>, board: &Board) -> (r: Vec<String>)
    ensures
        texts_of(r@) == newcomers(report_ids(reports(infos@)), board@.subscribed),
{
    let ghost ids = report_ids(reports(infos@));
    let mut out: Vec<String> = Vec::new();
    let mut i: usize = 0;
    proof {
        assert(ids.take(0) =~= Seq::<Seq<char>>::empty());
        assert(texts_of(out@) =~= Seq::<Seq<char>>::empty());
    }
    while i < infos.len()
        invariant
            i <= infos.len(),
            ids == report_ids(reports(infos@)),
            texts_of(out@) == newcomers(ids.take(i as int), board@.subscribed),
        decreases infos.len() - i,
    {
        proof {
            assert(ids.take(i + 1).drop_last() =~= ids.take(i as int));
            assert(ids.take(i + 1).last() == infos[i as int].id@);
        }
        if !board.is_subscribed(infos[i].id.as_str()) {
            let ghost before = out@;
            let id = infos[i].id.clone();
            out.push(id);
            proof {
                assert(texts_of(out@) =~= texts_of(before).push(id@));
            }
        }
        i = i + 1;
    }
    proof {
        assert(ids.take(infos.len() as int) =~= ids);
    }
    out
}

fn mark_all(board: &mut Board, ids: &Vec<String>)
    ensures
        final(board)@ == (BoardView {
            subscribed: old(board)@.subscribed.union(texts_of(ids@).to_set()),
            ..old(board)@
        }),
{
    let ghost texts = texts_of(ids@);
    let mut i: usize = 0;
    proof {
        assert(old(board)@.subscribed.union(texts.take(0).to_set()) =~= old(board)@.subscribed);
    }
    while i < ids.len()
        invariant
            i <= ids.len(),
            texts == texts_of(ids@),
            board@ == (BoardView {
                subscribed: old(board)@.subscribed.union(texts.take(i as int).to_set()),
                ..old(board)@
            }),
        decreases ids.len() - i,
    {
        board.subscribe(ids[i].as_str());
        proof {
            lemma_taken_set(texts, i as int);
            assert(board@.subscribed =~= old(board)@.subscribed.union(
                texts.take(i + 1).to_set(),
            ));
        }
        i = i + 1;
    }
    proof {
        assert(texts.take(ids.len() as int) =~= texts);
    }
}

proof fn lemma_taken_set(texts: Seq<Seq<char>>, i: int)
    requires
        0 <= i < texts.len(),
    ensures
        texts.take(i + 1).to_set() == texts.take(i).to_set().insert(texts[i]),
{
    let more = texts.take(i + 1);
    let fewer = texts.take(i);
    assert(more =~= fewer.push(texts[i]));
    assert forall|t: Seq<char>| more.contains(t) <==> fewer.contains(t) || t == texts[i] by {
        if fewer.contains(t) {
            let k = choose|k: int| 0 <= k < fewer.len() && fewer[k] == t;
            assert(more[k] == t);
        }
        if more.contains(t) && t != texts[i] {
            let k = choose|k: int| 0 <= k < more.len() && more[k] == t;
            assert(fewer[k] == t);
        }
        assert(more[i] == texts[i]);
    }
    assert(more.to_set() =~= fewer.to_set().insert(texts[i]));
}

/// Takes an event from the stream while online.
pub fn on_event(
    pet: &mut Pet,
    token: String,
    port: u16,
    board: Board,
    event: Json,
    now: u64,
) -> (r: (Stage, Reaction))
    ensures
        ({
            let outcome = heard(*old(pet), token@, port, board@, decoded(event@), now);
            &&& *final(pet) == outcome.pet
            &&& r.0@ == outcome.stage
            &&& r.1@ == outcome.reaction
        }),
{
    let mut board = board;
    let mut reaction = quietly(Next::Listen);
    match decode(event) {
        Event::Ignored => {},
        Event::Ping(payload) => {
            let marks: Vec<String> = Vec::new();
            proof {
                assert(texts_of(marks@) =~= Seq::<Seq<char>>::empty());
            }
            reaction.frames.push(Outgoing { text: pong_frame(payload), marks });
            proof {
                assert(reaction@.frames =~= seq![
                    OutgoingView { text: json_text(pong(payload@)), marks: Seq::empty() },
                ]);
            }
        },
        Event::Created(id) => {
            match id {
                Some(id) => {
                    let ids: Vec<String> = vec![id];
                    proof {
                        assert(texts_of(ids@) =~= seq![id@]);
                    }
                    reaction.frames = subscribe_all(ids, false);
                },
                None => {},
            }
        },
        Event::UnknownPhase(kind) => {
            reaction.unknown_phase = Some(kind);
        },
        Event::Session { id, change } => {
            board.change(id.as_str(), change, now);
            reaction.announce = set_state(pet, board.overall());
        },
        Event::Transcript { id, ops } => {
            board.transcribe(id.as_str(), &ops, now);
            reaction.announce = set_state(pet, board.overall());
        },
    }
    (Stage::Online { token, port, board }, reaction)
}

fn await_stage(stage: &Stage) -> (r: Next)
    ensures
        r@ == awaited(stage@),
{
    match stage {
        Stage::Seeking => Next::Locate { pause: false },
        Stage::Dialing { token, port } => {
            let protocol = join2("kimi-code.bearer.", token.as_str());
            Next::Dial { url: events_url(*port), protocol }
        },
        Stage::Listing { port, .. } => Next::List { url: sessions_url(*port) },
        Stage::Online { .. } => Next::Listen,
    }
}

/// Takes a service that was looked for, while there is none.
fn on_located(pet: &mut Pet, token: Option<String>, port: Option<u16>, now: u64) -> (r: (
    Stage,
    Reaction,
))
    ensures
        ({
            let signal = SignalView::Located { token: text_of(token), port };
            let outcome = stepped(*old(pet), StageView::Seeking, signal, now);
            &&& *final(pet) == outcome.pet
            &&& r.0@ == outcome.stage
            &&& r.1@ == outcome.reaction
        }),
{
    match (token, port) {
        (Some(token), Some(port)) => {
            let protocol = join2("kimi-code.bearer.", token.as_str());
            if is_header_value(protocol.as_str()) {
                let stage = Stage::Dialing { token, port };
                let next = await_stage(&stage);
                (stage, quietly(next))
            } else {
                (Stage::Seeking, quietly(Next::Locate { pause: true }))
            }
        },
        _ => (Stage::Seeking, lose(pet, now)),
    }
}

/// Takes a closing frame while online.
fn on_closed(pet: &mut Pet, reason: Option<String>, now: u64) -> (r: (Stage, Reaction))
    ensures
        *final(pet) == found_lost(*old(pet), now).pet,
        r.0@ == StageView::Seeking,
        r.1@ == (ReactionView {
            exit: quits_on_close(*old(pet), text_of(reason)) || old(pet).gives_up(now),
            ..found_lost(*old(pet), now).reaction
        }),
{
    let shut_down: bool = match reason {
        Some(reason) => same_text(reason.as_str(), SHUTDOWN_REASON) && auto_quit_armed(pet),
        None => false,
    };
    let mut reaction = lose(pet, now);
    reaction.exit = shut_down || reaction.exit;
    (Stage::Seeking, reaction)
}

/// Takes the service's list of sessions while online.
fn on_polled(
    pet: &mut Pet,
    token: String,
    port: u16,
    board: Board,
    infos: Vec<SessionInfo>,
) -> (r: (Stage, Reaction))
    ensures
        ({
            let outcome = polled(*old(pet), token@, port, board@, reports(infos@));
            &&& *final(pet) == outcome.pet
            &&& r.0@ == outcome.stage
            &&& r.1@ == outcome.reaction
        }),
{
    let mut board = board;
    let mut reaction = quietly(Next::Listen);
    if board.reconcile(&infos) {
        reaction.announce = set_state(pet, board.overall());
    }
    reaction.frames = subscribe_all(new_ids(&infos, &board), false);
    (Stage::Online { token, port, board }, reaction)
}

/// Takes the first list of sessions of a connection.
fn on_listed(pet: &mut Pet, token: String, port: u16, infos: Vec<SessionInfo>) -> (r: (
    Stage,
    Reaction,
))
    ensures
        ({
            let stage = StageView::Listing { token: token@, port };
            let signal = SignalView::Listed { list: reports(infos@) };
            let outcome = stepped(*old(pet), stage, signal, 0);
            &&& *final(pet) == outcome.pet
            &&& r.0@ == outcome.stage
            &&& r.1@ == outcome.reaction
        }),
{
    let ids = list_session_ids(&infos);
    let mut board = Board::new();
    mark_all(&mut board, &ids);
    proof {
        let set = texts_of(ids@).to_set();
        assert(Set::<Seq<char>>::empty().union(set) =~= set);
    }
    let mut reaction = quietly(Next::Listen);
    reaction.frames = subscribe_all(ids, true);
    reaction.announce = set_state(pet, PetState::Idle);
    (Stage::Online { token, port, board }, reaction)
}

/// One step of the main loop: discover the service, open its stream, follow the events,
/// and start over when the stream is lost. Takes what happened at time `now`, in
/// milliseconds of a clock that does not run backwards, and gives what is to be done.
pub fn run(pet: &mut Pet, stage: Stage, signal: Signal, now: u64) -> (r: (Stage, Reaction))
    ensures
        ({
            let outcome = stepped(*old(pet), stage@, signal@, now);
            &&& *final(pet) == outcome.pet
            &&& r.0@ == outcome.stage
            &&& r.1@ == outcome.reaction
        }),
{
    match (stage, signal) {
        (Stage::Seeking, Signal::Located { token, port }) => on_located(pet, token, port, now),
        (Stage::Dialing { .. }, Signal::RequestFailed) => {
            (Stage::Seeking, quietly(Next::Locate { pause: true }))
        },
        (Stage::Dialing { .. }, Signal::DialFailed) => (Stage::Seeking, lose(pet, now)),
        (Stage::Dialing { token, port }, Signal::Dialed) => {
            pet.connected_once = true;
            pet.disconnected_since = None;
            let stage = Stage::Listing { token, port };
            let next = await_stage(&stage);
            (stage, quietly(next))
        },
        (Stage::Listing { token, port }, Signal::Listed { infos }) => on_listed(
            pet,
            token,
            port,
            infos,
        ),
        (Stage::Online { token, port, board }, Signal::Text { text }) => {
            match parse(text.as_str()) {
                Some(event) => on_event(pet, token, port, board, event, now),
                None => (Stage::Online { token, port, board }, quietly(Next::Listen)),
            }
        },
        (Stage::Online { .. }, Signal::Closed { reason }) => on_closed(pet, reason, now),
        (Stage::Online { .. }, Signal::Lost) => (Stage::Seeking, lose(pet, now)),
        (Stage::Online { token, port, board }, Signal::Polled { infos }) => on_polled(
            pet,
            token,
            port,
            board,
            infos,
        ),
        (Stage::Online { token, port, board }, Signal::Subscribed { ids }) => {
            let mut board = board;
            mark_all(&mut board, &ids);
            (Stage::Online { token, port, board }, quietly(Next::Listen))
        },
        (stage, _) => {
            let next = await_stage(&stage);
            (stage, quietly(next))
        },
    }
}

/// While the companion follows a service, it shows what the sessions do.
pub open spec fn faithful(pet: Pet, stage: StageView) -> bool {
    stage matches StageView::Online { board, .. } ==> pet.shown == aggregated(board.sessions)
}

/// Every step keeps it so, and it holds at the start of a run.
pub proof fn law_shows_what_sessions_do(pet: Pet, stage: StageView, signal: SignalView, now: u64)
    requires
        faithful(pet, stage),
    ensures
        faithful(stepped(pet, stage, signal, now).pet, stepped(pet, stage, signal, now).stage),
        faithful(pet, StageView::Seeking),
{
    law_idle_without_activity(BoardView::fresh().sessions);
    match (stage, signal) {
        (StageView::Online { board, .. }, SignalView::Polled { list }) => {
            if !disagrees(board.sessions, list) {
                law_agreement_changes_nothing(board.sessions, list);
            }
        },
        _ => {},
    }
}

/// A state is announced exactly when it is newly shown.
pub proof fn law_announces_what_is_new(pet: Pet, stage: StageView, signal: SignalView, now: u64)
    ensures
        stepped(pet, stage, signal, now).reaction.announce == pet.news(
            stepped(pet, stage, signal, now).pet.shown,
        ),
{
}

/// The companion quits only if its user asked for it and this run has been connected, and
/// no step takes back that it has been.
pub proof fn law_quits_only_when_armed(pet: Pet, stage: StageView, signal: SignalView, now: u64)
    ensures
        stepped(pet, stage, signal, now).reaction.exit ==> pet.armed(),
        pet.connected_once ==> stepped(pet, stage, signal, now).pet.connected_once,
        stepped(pet, stage, signal, now).pet.auto_quit == pet.auto_quit,
{
}

/// A service that says that it shuts down takes an armed companion with it at once; any
/// other end of the stream starts the grace period.
pub proof fn law_end_of_stream(
    pet: Pet,
    token: Seq<char>,
    port: u16,
    board: BoardView,
    reason: Option<Seq<char>>,
    now: u64,
)
    requires
        pet.disconnected_since is None,
    ensures
        ({
            let online = StageView::Online { token, port, board };
            let closed = stepped(pet, online, SignalView::Closed { reason }, now);
            let lost = stepped(pet, online, SignalView::Lost, now);
            &&& closed.reaction.exit <==> pet.armed() && reason == Some(SHUTDOWN_REASON@)
            &&& !lost.reaction.exit
            &&& closed.pet == lost.pet && lost.pet.shown == pet.shown
            &&& lost.pet.disconnected_since == Some(now)
            &&& closed.stage == StageView::Seeking && lost.stage == StageView::Seeking
        }),
{
}

/// A new connection starts from nothing but the subscriptions that it makes: idle, and
/// with no session active. It ends what an earlier loss began.
pub proof fn law_connection_starts_afresh(
    pet: Pet,
    token: Seq<char>,
    port: u16,
    list: Seq<SessionReport>,
    now: u64,
)
    ensures
        ({
            let listing = StageView::Listing { token, port };
            let outcome = stepped(pet, listing, SignalView::Listed { list }, now);
            let dialing = StageView::Dialing { token, port };
            let dialed = stepped(pet, dialing, SignalView::Dialed, now);
            &&& dialed.stage == listing && dialed.pet.shown == pet.shown
            &&& dialed.pet.connected_once && dialed.pet.disconnected_since is None
            &&& outcome.pet.shown == PetState::Idle
            &&& outcome.stage matches StageView::Online { board, .. } && board == (BoardView {
                subscribed: report_ids(list).to_set(),
                ..BoardView::fresh()
            })
        }),
{
}

/// Every ping is answered, with its own payload or with none if it has none, and changes
/// nothing else.
pub proof fn law_ping_is_answered(
    pet: Pet,
    token: Seq<char>,
    port: u16,
    board: BoardView,
    event: JsonTree,
    now: u64,
)
    requires
        event.text_field("type"@) == Some("ping"@),
    ensures
        ({
            let outcome = read(pet, token, port, board, Some(event), now);
            let payload = match event.field("payload"@) {
                Some(payload) => payload,
                None => JsonTree::Null,
            };
            &&& outcome.pet == pet
            &&& outcome.stage == StageView::Online { token, port, board }
            &&& outcome.reaction.announce is None && !outcome.reaction.exit
            &&& outcome.reaction.frames.len() == 1
            &&& outcome.reaction.frames[0].text == json_text(pong(payload))
        }),
{
}

/// A phase that means neither an activity nor rest changes nothing, and its kind is noted.
pub proof fn law_unknown_phase_changes_nothing(
    pet: Pet,
    token: Seq<char>,
    port: u16,
    board: BoardView,
    event: JsonTree,
    now: u64,
)
    requires
        event.text_field("type"@) == Some("agent.status.updated"@),
        event.text_field("session_id"@) is Some,
        reported_phase(event) is Some,
        phase_change(reported_phase(event)->0) is None,
    ensures
        ({
            let outcome = read(pet, token, port, board, Some(event), now);
            &&& outcome.pet == pet
            &&& outcome.stage == StageView::Online { token, port, board }
            &&& outcome.reaction == (ReactionView {
                unknown_phase: reported_phase(event)->0.text_field("kind"@),
                ..quiet(NextView::Listen)
            })
        }),
{
    reveal_strlit("agent.status.updated");
    reveal_strlit("ping");
    reveal_strlit("event.session.created");
    reveal_strlit("transcript.ops");
    assert("agent.status.updated"@.len() == 20 && "ping"@.len() == 4);
    assert("event.session.created"@.len() == 21 && "transcript.ops"@.len() == 14);
}

/// Once all sessions of a list are subscribed to, the list brings no further
/// subscription; and sending what a list asks for brings that about.
pub proof fn law_no_second_subscription(
    pet: Pet,
    token: Seq<char>,
    port: u16,
    board: BoardView,
    list: Seq<SessionReport>,
    now: u64,
)
    ensures
        ({
            let ids = newcomers(report_ids(list), board.subscribed);
            let sent = stepped(
                pet,
                StageView::Online { token, port, board },
                SignalView::Subscribed { ids },
                now,
            );
            stepped(sent.pet, sent.stage, SignalView::Polled { list }, now).reaction.frames
                == Seq::<OutgoingView>::empty()
        }),
        (forall|i: int|
            0 <= i < list.len() ==> board.subscribed.contains(#[trigger] list[i].id)) ==> polled(
            pet,
            token,
            port,
            board,
            list,
        ).reaction.frames == Seq::<OutgoingView>::empty(),
{
    let ids = report_ids(list);
    let fresh = newcomers(ids, board.subscribed);
    let known = board.subscribed.union(fresh.to_set());
    lemma_newcomers_cover(ids, board.subscribed);
    assert forall|i: int| 0 <= i < ids.len() implies known.contains(#[trigger] ids[i]) by {
        assert(board.subscribed.contains(ids[i]) || fresh.contains(ids[i]));
    }
    lemma_no_newcomers(ids, known);
    if forall|i: int| 0 <= i < list.len() ==> board.subscribed.contains(#[trigger] list[i].id) {
        assert forall|i: int| 0 <= i < ids.len() implies board.subscribed.contains(
            #[trigger] ids[i],
        ) by {
            assert(ids[i] == list[i].id);
        }
        lemma_no_newcomers(ids, board.subscribed);
    }
}

proof fn lemma_newcomers_cover(ids: Seq<Seq<char>>, known: Set<Seq<char>>)
    ensures
        forall|i: int|
            0 <= i < ids.len() ==> known.contains(#[trigger] ids[i]) || newcomers(
                ids,
                known,
            ).contains(ids[i]),
    decreases ids.len(),
{
    if ids.len() > 0 {
        let front = ids.drop_last();
        lemma_newcomers_cover(front, known);
        let all = newcomers(ids, known);
        let some = newcomers(front, known);
        assert forall|i: int| 0 <= i < ids.len() implies known.contains(#[trigger] ids[i])
            || all.contains(ids[i]) by {
            if !known.contains(ids[i]) {
                if i < front.len() {
                    assert(front[i] == ids[i]);
                    let k = choose|k: int| 0 <= k < some.len() && some[k] == ids[i];
                    assert(all[k] == ids[i]);
                } else {
                    assert(all.last() == ids[i]);
                }
            }
        }
    }
}

proof fn lemma_no_newcomers(ids: Seq<Seq<char>>, known: Set<Seq<char>>)
    requires
        forall|i: int| 0 <= i < ids.len() ==> known.contains(#[trigger] ids[i]),
    ensures
        newcomers(ids, known).len() == 0,
    decreases ids.len(),
{
    if ids.len() > 0 {
        let front = ids.drop_last();
        assert forall|i: int| 0 <= i < front.len() implies known.contains(#[trigger] front[i]) by {
            assert(front[i] == ids[i]);
        }
        assert(ids.last() == ids[ids.len() - 1]);
        lemma_no_newcomers(front, known);
    }
}

/// A reaction that asks for nothing but what is next.
pub open spec fn only_asks(reaction: ReactionView, next: NextView) -> bool {
    reaction.announce is None && !reaction.exit && reaction.frames.len() == 0
        && reaction.unknown_phase is None && reaction.next == next
}

/// The protocol shows the token behind a fixed name, and can stand in a header exactly if
/// the token holds no control characters but tabulators.
pub proof fn law_bearer_protocol(token: Seq<char>)
    ensures
        bearer_protocol(token) == "kimi-code.bearer."@ + token,
        fits_header(bearer_protocol(token)) <==> (forall|i: int|
            0 <= i < token.len() ==> (#[trigger] token[i] as u32 >= 32 && token[i] as u32 != 127)
                || token[i] as u32 == 9),
{
    reveal_strlit("kimi-code.bearer.");
    let name = "kimi-code.bearer."@;
    let whole = bearer_protocol(token);
    if fits_header(whole) {
        assert forall|i: int| 0 <= i < token.len() implies (#[trigger] token[i] as u32 >= 32
            && token[i] as u32 != 127) || token[i] as u32 == 9 by {
            assert(whole[name.len() + i] == token[i]);
        }
    }
    if forall|i: int|
        0 <= i < token.len() ==> (#[trigger] token[i] as u32 >= 32 && token[i] as u32 != 127)
            || token[i] as u32 == 9 {
        assert forall|i: int| 0 <= i < whole.len() implies ({
            let c = #[trigger] whole[i] as u32;
            (c >= 32 && c != 127) || c == 9
        }) by {
            if i >= name.len() {
                assert(whole[i] == token[i - name.len()]);
            } else {
                lemma_protocol_name(i);
                assert(whole[i] == name[i]);
            }
        }
    }
}

proof fn lemma_protocol_name(i: int)
    requires
        0 <= i < "kimi-code.bearer."@.len(),
    ensures
        32 <= "kimi-code.bearer."@[i] as u32 <= 126,
{
    reveal_strlit("kimi-code.bearer.");
    let name = "kimi-code.bearer."@;
    assert(name.len() == 17);
    assert(name[0] == 'k' && name[1] == 'i' && name[2] == 'm' && name[3] == 'i');
    assert(name[4] == '-' && name[5] == 'c' && name[6] == 'o' && name[7] == 'd');
    assert(name[8] == 'e' && name[9] == '.' && name[10] == 'b' && name[11] == 'e');
    assert(name[12] == 'a' && name[13] == 'r' && name[14] == 'e' && name[15] == 'r');
    assert(name[16] == '.');
}

/// What the search for a service leads to: with a token and a port, the stream at that port
/// is opened with that token; with a token that fits no header, and without one or the
/// other, the search begins anew after a pause. Only where something is missing does the
/// connection count as lost.
pub proof fn law_after_the_search(
    pet: Pet,
    token: Option<Seq<char>>,
    port: Option<u16>,
    now: u64,
)
    ensures
        ({
            let signal = SignalView::Located { token, port };
            let outcome = stepped(pet, StageView::Seeking, signal, now);
            let found = token is Some && port is Some;
            let fits = fits_header(bearer_protocol(token->0));
            &&& found && fits ==> outcome.pet == pet && outcome.stage == (StageView::Dialing {
                token: token->0,
                port: port->0,
            }) && only_asks(
                outcome.reaction,
                NextView::Dial {
                    url: address("ws"@, port->0, "/api/v1/ws"@),
                    protocol: bearer_protocol(token->0),
                },
            )
            &&& found && !fits ==> outcome.pet == pet && outcome.stage == StageView::Seeking
                && only_asks(outcome.reaction, NextView::Locate { pause: true })
            &&& !found ==> outcome.pet == pet.marked(now) && outcome.stage == StageView::Seeking
                && outcome.reaction.exit == pet.gives_up(now) && outcome.reaction.frames.len() == 0
                && outcome.reaction.next == (NextView::Locate { pause: true })
        }),
{
}

/// What opening the stream leads to: once it is open, the sessions are asked for, and the
/// companion has been connected and is so; if it does not open, the connection counts as
/// lost; if no request could be made, nothing counts. After either failure the search
/// begins anew after a pause.
pub proof fn law_after_dialing(pet: Pet, token: Seq<char>, port: u16, now: u64)
    ensures
        ({
            let dialing = StageView::Dialing { token, port };
            let opened = stepped(pet, dialing, SignalView::Dialed, now);
            let failed = stepped(pet, dialing, SignalView::DialFailed, now);
            let refused = stepped(pet, dialing, SignalView::RequestFailed, now);
            &&& opened.stage == (StageView::Listing { token, port })
            &&& opened.pet == (Pet { connected_once: true, disconnected_since: None, ..pet })
            &&& only_asks(
                opened.reaction,
                NextView::List { url: address("http"@, port, "/api/v1/sessions?page_size=100"@) },
            )
            &&& failed.stage == StageView::Seeking && failed.pet == pet.marked(now)
            &&& failed.reaction.exit == pet.gives_up(now)
            &&& failed.reaction.next == (NextView::Locate { pause: true })
            &&& refused.stage == StageView::Seeking && refused.pet == pet
            &&& only_asks(refused.reaction, NextView::Locate { pause: true })
        }),
{
}

/// A subscription to some sessions is one frame for all of them and then one for the
/// transcript of each, in their order; no session, no frame. Only the first frame marks
/// sessions as subscribed to, and not at the start of a connection, where they are marked
/// already.
pub proof fn law_subscribing(ids: Seq<Seq<char>>, first: bool, i: int)
    ensures
        ({
            let frames = subscribing(ids, first);
            &&& ids.len() == 0 ==> frames.len() == 0
            &&& ids.len() > 0 ==> frames.len() == ids.len() + 1 && frames[0].text == json_text(
                subscription(ids, first),
            ) && (first ==> frames[0].marks.len() == 0) && (!first ==> frames[0].marks == ids)
            &&& 0 <= i < ids.len() ==> frames[i + 1].text == json_text(
                transcript_subscription(ids[i]),
            ) && frames[i + 1].marks.len() == 0
        }),
{
}

/// The first list of a connection is subscribed to whole, and exactly its sessions count as
/// subscribed to.
pub proof fn law_first_list(
    pet: Pet,
    token: Seq<char>,
    port: u16,
    list: Seq<SessionReport>,
    id: Seq<char>,
    now: u64,
)
    ensures
        ({
            let listing = StageView::Listing { token, port };
            let outcome = stepped(pet, listing, SignalView::Listed { list }, now);
            &&& outcome.reaction.frames == subscribing(report_ids(list), true)
            &&& outcome.reaction.next == NextView::Listen && !outcome.reaction.exit
            &&& outcome.pet == (Pet { shown: PetState::Idle, ..pet })
            &&& outcome.stage matches StageView::Online { token: t, port: p, board } && t == token
                && p == port && (board.subscribed.contains(id) <==> exists|i: int|
                0 <= i < list.len() && #[trigger] list[i].id == id)
        }),
{
    let ids = report_ids(list);
    if exists|i: int| 0 <= i < list.len() && #[trigger] list[i].id == id {
        let i = choose|i: int| 0 <= i < list.len() && #[trigger] list[i].id == id;
        assert(ids[i] == id);
    }
    if ids.to_set().contains(id) {
        let i = choose|i: int| 0 <= i < ids.len() && ids[i] == id;
        assert(list[i].id == id);
    }
}

/// What events do while the companion follows the stream: an event of a session, or of its
/// transcript, changes the board by just that, and the companion then shows what its
/// sessions do; a new session is subscribed to if it has a name; and whatever else comes
/// leaves the companion and the board as they are.
pub proof fn law_heard(
    pet: Pet,
    token: Seq<char>,
    port: u16,
    board: BoardView,
    id: Seq<char>,
    change: Change,
    ops: Seq<OpView>,
    now: u64,
)
    ensures
        ({
            let changed = heard(pet, token, port, board, EventView::Session { id, change }, now);
            let told = heard(pet, token, port, board, EventView::Transcript { id, ops }, now);
            let named = heard(pet, token, port, board, EventView::Created(Some(id)), now);
            let nameless = heard(pet, token, port, board, EventView::Created(None), now);
            let ignored = heard(pet, token, port, board, EventView::Ignored, now);
            let unread = read(pet, token, port, board, None, now);
            let online = StageView::Online { token, port, board };
            &&& changed.stage == (StageView::Online {
                token,
                port,
                board: board.changed(id, change, now),
            })
            &&& changed.pet == (Pet {
                shown: aggregated(board.changed(id, change, now).sessions),
                ..pet
            })
            &&& changed.reaction.frames.len() == 0 && changed.reaction.next == NextView::Listen
            &&& told.stage == (StageView::Online {
                token,
                port,
                board: board.operated_all(id, ops, now),
            })
            &&& told.pet == (Pet {
                shown: aggregated(board.operated_all(id, ops, now).sessions),
                ..pet
            })
            &&& told.reaction.frames.len() == 0 && told.reaction.next == NextView::Listen
            &&& named.pet == pet && named.stage == online
            &&& named.reaction.frames == subscribing(seq![id], false)
            &&& named.reaction.announce is None && !named.reaction.exit
            &&& nameless.pet == pet && nameless.stage == online
            &&& only_asks(nameless.reaction, NextView::Listen)
            &&& ignored.pet == pet && ignored.stage == online
            &&& only_asks(ignored.reaction, NextView::Listen)
            &&& unread.pet == pet && unread.stage == online
            &&& only_asks(unread.reaction, NextView::Listen)
        }),
{
}

/// A text is taken for what it holds as JSON.
pub proof fn law_texts_are_read(
    pet: Pet,
    token: Seq<char>,
    port: u16,
    board: BoardView,
    text: Seq<char>,
    event: JsonTree,
    now: u64,
)
    ensures
        ({
            let online = StageView::Online { token, port, board };
            let outcome = stepped(pet, online, SignalView::Text { text }, now);
            &&& json_parsed(text) == Some(event) ==> outcome == heard(
                pet,
                token,
                port,
                board,
                decoded(event),
                now,
            )
            &&& json_parsed(text) is None ==> outcome.pet == pet && outcome.stage == online
                && only_asks(outcome.reaction, NextView::Listen)
        }),
{
}

/// A list of sessions that comes while online settles the activities by its reports and
/// changes nothing else of the board; the companion shows them if anything changed; and
/// the sessions that are new are subscribed to.
pub proof fn law_later_lists(
    pet: Pet,
    token: Seq<char>,
    port: u16,
    board: BoardView,
    list: Seq<SessionReport>,
    now: u64,
)
    ensures
        ({
            let online = StageView::Online { token, port, board };
            let outcome = stepped(pet, online, SignalView::Polled { list }, now);
            let sessions = reconciled(board.sessions, list);
            &&& outcome.stage == (StageView::Online {
                token,
                port,
                board: BoardView { sessions, ..board },
            })
            &&& disagrees(board.sessions, list) ==> outcome.pet == (Pet {
                shown: aggregated(sessions),
                ..pet
            })
            &&& !disagrees(board.sessions, list) ==> outcome.pet == pet
            &&& outcome.reaction.frames == subscribing(
                newcomers(report_ids(list), board.subscribed),
                false,
            )
            &&& outcome.reaction.next == NextView::Listen && !outcome.reaction.exit
        }),
{
}

/// The newcomers of a list are its sessions that are not known, in their order: found in
/// two parts of the list, they are those of the first and then those of the second; and a
/// single session is one exactly if it is not known.
pub proof fn law_newcomers(
    first: Seq<Seq<char>>,
    second: Seq<Seq<char>>,
    id: Seq<char>,
    known: Set<Seq<char>>,
)
    ensures
        newcomers(first + second, known) == newcomers(first, known) + newcomers(second, known),
        known.contains(id) ==> newcomers(seq![id], known).len() == 0,
        !known.contains(id) ==> newcomers(seq![id], known) == seq![id],
    decreases second.len(),
{
    let one = seq![id];
    assert(one.drop_last() =~= Seq::empty());
    assert(newcomers(one.drop_last(), known) =~= Seq::empty());
    assert(one.last() == id);
    if !known.contains(id) {
        assert(newcomers(one, known) =~= seq![id]);
    }
    if second.len() == 0 {
        assert(first + second =~= first);
        assert(newcomers(second, known) =~= Seq::empty());
        assert(newcomers(first, known) + newcomers(second, known) =~= newcomers(first, known));
    } else {
        law_newcomers(first, second.drop_last(), id, known);
        assert((first + second).drop_last() =~= first + second.drop_last());
        assert((first + second).last() == second.last());
        assert(newcomers(first + second, known) =~= newcomers(first, known) + newcomers(
            second,
            known,
        ));
    }
}

/// Sessions that were subscribed to are known from then on, in addition to those that were
/// before, and nothing else changes.
pub proof fn law_subscribed(
    pet: Pet,
    token: Seq<char>,
    port: u16,
    board: BoardView,
    ids: Seq<Seq<char>>,
    id: Seq<char>,
    now: u64,
)
    ensures
        ({
            let online = StageView::Online { token, port, board };
            let outcome = stepped(pet, online, SignalView::Subscribed { ids }, now);
            &&& outcome.pet == pet
            &&& only_asks(outcome.reaction, NextView::Listen)
            &&& outcome.stage matches StageView::Online { token: t, port: p, board: after } && t
                == token && p == port && after == (BoardView {
                subscribed: after.subscribed,
                ..board
            }) && (after.subscribed.contains(id) <==> board.subscribed.contains(id)
                || ids.contains(id))
        }),
{
}

/// However the stream ends, the connection counts as lost from then on and the search
/// begins anew after a pause; a closing frame may make the companion quit besides.
pub proof fn law_stream_ends(
    pet: Pet,
    token: Seq<char>,
    port: u16,
    board: BoardView,
    reason: Option<Seq<char>>,
    now: u64,
)
    ensures
        ({
            let online = StageView::Online { token, port, board };
            let closed = stepped(pet, online, SignalView::Closed { reason }, now);
            let lost = stepped(pet, online, SignalView::Lost, now);
            &&& closed.pet == pet.marked(now) && lost.pet == pet.marked(now)
            &&& closed.stage == StageView::Seeking && lost.stage == StageView::Seeking
            &&& closed.reaction.next == (NextView::Locate { pause: true })
            &&& lost.reaction.next == (NextView::Locate { pause: true })
            &&& closed.reaction.frames.len() == 0 && lost.reaction.frames.len() == 0
            &&& lost.reaction.exit == pet.gives_up(now)
            &&& closed.reaction.exit <==> pet.gives_up(now) || (pet.auto_quit && pet.connected_once
                && reason == Some("server shutting down"@))
        }),
{
}

/// A signal that does not fit the stage leaves the companion and the stage as they are, and
/// the same is awaited as before.
pub proof fn law_signals_out_of_place(pet: Pet, stage: StageView, signal: SignalView, now: u64)
    requires
        stage is Seeking ==> !(signal is Located),
        stage is Dialing ==> !(signal is RequestFailed) && !(signal is DialFailed) && !(
        signal is Dialed),
        stage is Listing ==> !(signal is Listed),
        stage is Online ==> !(signal is Text) && !(signal is Closed) && !(signal is Lost) && !(
        signal is Polled) && !(signal is Subscribed),
    ensures
        ({
            let outcome = stepped(pet, stage, signal, now);
            &&& outcome.pet == pet && outcome.stage == stage
            &&& stage is Seeking ==> only_asks(outcome.reaction, NextView::Locate { pause: false })
            &&& stage matches StageView::Dialing { token, port } ==> only_asks(
                outcome.reaction,
                NextView::Dial {
                    url: address("ws"@, port, "/api/v1/ws"@),
                    protocol: bearer_protocol(token),
                },
            )
            &&& stage matches StageView::Listing { token, port } ==> only_asks(
                outcome.reaction,
                NextView::List { url: address("http"@, port, "/api/v1/sessions?page_size=100"@) },
            )
            &&& stage is Online ==> only_asks(outcome.reaction, NextView::Listen)
        }),
{
}

/// What is to be done is taken whole: the announcement, quitting, every frame with its
/// text and its marks, the kind for the log, and what is next.
pub proof fn law_reactions_by_content(reaction: Reaction, i: int)
    ensures
        reaction@.exit == reaction.exit,
        reaction.announce is None <==> reaction@.announce is None,
        reaction.announce matches Some(name) ==> reaction@.announce == Some(name@),
        reaction@.frames.len() == reaction.frames@.len(),
        0 <= i < reaction.frames@.len() ==> reaction@.frames[i].text == reaction.frames@[i].text@
            && reaction@.frames[i].marks == texts_of(reaction.frames@[i].marks@),
        reaction.unknown_phase is None <==> reaction@.unknown_phase is None,
        reaction.unknown_phase matches Some(kind) ==> reaction@.unknown_phase == Some(kind@),
        reaction.next matches Next::Locate { pause } ==> reaction@.next == (NextView::Locate {
            pause,
        }),
        reaction.next matches Next::Dial { url, protocol } ==> reaction@.next == (NextView::Dial {
            url: url@,
            protocol: protocol@,
        }),
        reaction.next matches Next::List { url } ==> reaction@.next == (NextView::List {
            url: url@,
        }),
        reaction.next is Listen ==> reaction@.next is Listen,
{
}

/// What happened, and where the companion stands, is taken whole.
pub proof fn law_signals_by_content(signal: Signal, stage: Stage)
    ensures
        signal matches Signal::Located { token: Some(token), port } ==> signal@ == (
        SignalView::Located { token: Some(token@), port }),
        signal matches Signal::Located { token: None, port } ==> signal@ == (SignalView::Located {
            token: None,
            port,
        }),
        signal is RequestFailed ==> signal@ is RequestFailed,
        signal is DialFailed ==> signal@ is DialFailed,
        signal is Dialed ==> signal@ is Dialed,
        signal matches Signal::Listed { infos } ==> signal@ == (SignalView::Listed {
            list: reports(infos@),
        }),
        signal matches Signal::Text { text } ==> signal@ == (SignalView::Text { text: text@ }),
        signal matches Signal::Closed { reason: Some(reason) } ==> signal@ == (
        SignalView::Closed { reason: Some(reason@) }),
        signal matches Signal::Closed { reason: None } ==> signal@ == (SignalView::Closed {
            reason: None,
        }),
        signal is Lost ==> signal@ is Lost,
        signal is Noise ==> signal@ is Noise,
        signal matches Signal::Polled { infos } ==> signal@ == (SignalView::Polled {
            list: reports(infos@),
        }),
        signal matches Signal::Subscribed { ids } ==> signal@ == (SignalView::Subscribed {
            ids: texts_of(ids@),
        }),
        stage is Seeking ==> stage@ is Seeking,
        stage matches Stage::Dialing { token, port } ==> stage@ == (StageView::Dialing {
            token: token@,
            port,
        }),
        stage matches Stage::Listing { token, port } ==> stage@ == (StageView::Listing {
            token: token@,
            port,
        }),
        stage matches Stage::Online { token, port, board } ==> stage@ == (StageView::Online {
            token: token@,
            port,
            board: board@,
        }),
{
}

/// The companion looks for a service again after five seconds, and asks for the sessions
/// every three: often enough that an offline service is asked for at least twice within
/// the grace period.
pub proof fn law_intervals()
    ensures
        RETRY_DELAY == 5_000,
        POLL_INTERVAL == 3_000,
        2 * RETRY_DELAY <= OFFLINE_GRACE,
{
}

} // verus!
