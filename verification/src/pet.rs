//! The companion itself: the state it shows, and what a lost connection does to it.

use crate::state::PetState;
use vstd::prelude::*;

verus! {

/// A lost connection leaves the shown state alone for this long, in milliseconds.
pub const OFFLINE_GRACE: u64 = 10_000;

/// With automatic quitting armed, a connection lost for this long means that the service
/// is gone for good, in milliseconds.
pub const AUTO_QUIT_AFTER: u64 = 120_000;

/// The reason a service gives in its closing frame when it shuts down in order.
pub const SHUTDOWN_REASON: &'static str = "server shutting down";

#[derive(Clone, Copy, Debug)]
pub struct Pet {
    /// What is shown.
    pub shown: PetState,
    /// Whether the user wants the companion to quit along with the service.
    pub auto_quit: bool,
    /// Whether this run has ever been connected to a service.
    pub connected_once: bool,
    /// When the connection was found to be lost, in milliseconds; nothing while connected.
    pub disconnected_since: Option<u64>,
}

/// The text of an announcement.
pub open spec fn announcement(text: Option<&'static str>) -> Option<Seq<char>> {
    match text {
        Some(t) => Some(t@),
        None => None,
    }
}

impl Pet {
    pub open spec fn with_shown(self, state: PetState) -> Pet {
        Pet { shown: state, ..self }
    }

    pub open spec fn with_auto_quit(self, enabled: bool) -> Pet {
        Pet { auto_quit: enabled, ..self }
    }

    /// What is announced when the shown state becomes `state`: its name, if it is new.
    pub open spec fn news(self, state: PetState) -> Option<Seq<char>> {
        if self.shown == state {
            None
        } else {
            Some(state.name())
        }
    }

    /// Automatic quitting is wanted, and this run has been connected.
    pub open spec fn armed(self) -> bool {
        self.auto_quit && self.connected_once
    }

    /// How long the connection has been lost at `now`, taking it as lost at `now` if it
    /// was not yet.
    pub open spec fn lost_for(self, now: u64) -> int {
        match self.disconnected_since {
            Some(start) if start <= now => now - start,
            _ => 0,
        }
    }

    /// The companion after the connection was found lost at `now`.
    pub open spec fn marked(self, now: u64) -> Pet {
        Pet {
            shown: if self.lost_for(now) >= OFFLINE_GRACE {
                PetState::Offline
            } else {
                self.shown
            },
            disconnected_since: match self.disconnected_since {
                Some(start) => Some(start),
                None => Some(now),
            },
            ..self
        }
    }

    /// The companion quits when the connection is found lost at `now`.
    pub open spec fn gives_up(self, now: u64) -> bool {
        self.armed() && self.lost_for(now) >= AUTO_QUIT_AFTER
    }
}

/// The companion at the start of a run: idle, until it knows more.
pub fn state_cell() -> (r: Pet)
    ensures
        r == (Pet {
            shown: PetState::Idle,
            auto_quit: false,
            connected_once: false,
            disconnected_since: None,
        }),
{
    Pet {
        shown: PetState::Idle,
        auto_quit: false,
        connected_once: false,
        disconnected_since: None,
    }
}

/// The name of the state that is shown.
pub fn current_state(pet: &Pet) -> (r: &'static str)
    ensures
        r@ == pet.shown.name(),
{
    pet.shown.as_str()
}

/// Records whether the companion quits along with the service.
pub fn set_auto_quit(pet: &mut Pet, enabled: bool)
    ensures
        *final(pet) == old(pet).with_auto_quit(enabled),
{
    pet.auto_quit = enabled;
}

/// Whether automatic quitting is in force.
pub fn auto_quit_armed(pet: &Pet) -> (r: bool)
    ensures
        r == pet.armed(),
{
    pet.auto_quit && pet.connected_once
}

/// Shows a state. Gives its name for announcement, unless it was shown already.
pub fn set_state(pet: &mut Pet, state: PetState) -> (r: Option<&'static str>)
    ensures
        *final(pet) == old(pet).with_shown(state),
        announcement(r) == old(pet).news(state),
{
    if pet.shown != state {
        pet.shown = state;
        Some(state.as_str())
    } else {
        None
    }
}

/// What a lost connection leads to.
pub struct Parting {
    /// The name of a newly shown state.
    pub announce: Option<&'static str>,
    /// The companion is to quit.
    pub exit: bool,
}

/// Notes at time `now` that there is no connection.
pub fn mark_disconnected(pet: &mut Pet, now: u64) -> (r: Parting)
    ensures
        *final(pet) == old(pet).marked(now),
        announcement(r.announce) == old(pet).news(old(pet).marked(now).shown),
        r.exit == old(pet).gives_up(now),
{
    let start: u64 = match pet.disconnected_since {
        Some(start) => start,
        None => now,
    };
    pet.disconnected_since = Some(start);
    let elapsed: u64 = if start <= now {
        now - start
    } else {
        0
    };
    let announce: Option<&'static str> = if elapsed >= OFFLINE_GRACE {
        set_state(pet, PetState::Offline)
    } else {
        None
    };
    let exit: bool = auto_quit_armed(pet) && elapsed >= AUTO_QUIT_AFTER;
    Parting { announce, exit }
}

/// Whether the service's closing frame, if it gave a reason, makes the companion quit at
/// once.
pub open spec fn quits_on_close(pet: Pet, reason: Option<Seq<char>>) -> bool {
    reason == Some(SHUTDOWN_REASON@) && pet.armed()
}

/// A run that was never connected, or whose user did not ask for it, does not quit by
/// itself, however long there is no connection.
pub proof fn law_no_quitting_unasked(pet: Pet, reason: Option<Seq<char>>, now: u64)
    requires
        !pet.connected_once || !pet.auto_quit,
    ensures
        !pet.gives_up(now),
        !quits_on_close(pet, reason),
{
}

/// The state shown when a connection is lost stays for the grace period and no longer:
/// found lost first at `first` and again at `now`, the companion shows offline exactly
/// if it already did or the grace period has passed, and quits exactly if it is armed and
/// the longer period has passed.
pub proof fn law_grace_period(pet: Pet, first: u64, now: u64)
    requires
        pet.disconnected_since is None,
        first <= now,
    ensures
        pet.marked(first).shown == pet.shown,
        !pet.gives_up(first),
        pet.marked(first).marked(now).disconnected_since == Some(first),
        pet.marked(first).marked(now).shown == (if now - first >= OFFLINE_GRACE {
            PetState::Offline
        } else {
            pet.shown
        }),
        pet.marked(first).gives_up(now) <==> pet.armed() && now - first >= AUTO_QUIT_AFTER,
{
}

/// Whatever is found in between, only the first loss counts.
pub proof fn law_first_loss_counts(pet: Pet, between: u64, now: u64)
    requires
        pet.disconnected_since is Some,
        between <= now,
    ensures
        pet.marked(between).marked(now) == pet.marked(now),
        pet.marked(between).gives_up(now) == pet.gives_up(now),
{
}

/// A companion that was found without a connection at `start` and is found so again shows
/// offline exactly if ten seconds have passed or it did already, quits exactly if its user
/// asked for it, it was ever connected and two minutes have passed, and changes in nothing
/// else.
pub proof fn law_loss_over_time(pet: Pet, start: u64, now: u64)
    requires
        pet.disconnected_since == Some(start),
    ensures
        now - start >= 10_000 ==> pet.marked(now).shown == PetState::Offline,
        now - start < 10_000 ==> pet.marked(now).shown == pet.shown,
        pet.gives_up(now) <==> pet.auto_quit && pet.connected_once && now - start >= 120_000,
        pet.marked(now).disconnected_since == Some(start),
        pet.marked(now).auto_quit == pet.auto_quit,
        pet.marked(now).connected_once == pet.connected_once,
{
}

/// The first time that the connection is found lost, only the time is noted.
pub proof fn law_loss_begins(pet: Pet, now: u64)
    requires
        pet.disconnected_since is None,
    ensures
        pet.marked(now) == (Pet { disconnected_since: Some(now), ..pet }),
        !pet.gives_up(now),
{
}

/// A state that is shown already is not announced; any other is, by its own name; and
/// showing a state changes nothing but what is shown.
pub proof fn law_news(pet: Pet, state: PetState)
    ensures
        pet.shown == state ==> pet.news(state) is None,
        pet.shown != state ==> pet.news(state) == Some(state.name()),
        pet.with_shown(state).shown == state,
        pet.with_shown(state).auto_quit == pet.auto_quit,
        pet.with_shown(state).connected_once == pet.connected_once,
        pet.with_shown(state).disconnected_since == pet.disconnected_since,
{
}

/// Quitting is in force exactly if it was asked for and there was a connection; then a
/// closing frame ends the companion exactly if its reason is that the service shuts down.
pub proof fn law_quitting_with_the_service(pet: Pet, reason: Option<Seq<char>>)
    ensures
        pet.armed() <==> pet.auto_quit && pet.connected_once,
        quits_on_close(pet, reason) <==> pet.auto_quit && pet.connected_once && reason == Some(
            "server shutting down"@,
        ),
{
}

/// The wish to quit along with the service is taken as it was last given, and changes
/// nothing else; in particular it does not count as a connection.
pub proof fn law_wish_to_quit(pet: Pet, first: bool, enabled: bool)
    ensures
        pet.with_auto_quit(enabled).auto_quit == enabled,
        pet.with_auto_quit(enabled).shown == pet.shown,
        pet.with_auto_quit(enabled).connected_once == pet.connected_once,
        pet.with_auto_quit(enabled).disconnected_since == pet.disconnected_since,
        pet.with_auto_quit(first).with_auto_quit(enabled) == pet.with_auto_quit(enabled),
{
}

} // verus!
