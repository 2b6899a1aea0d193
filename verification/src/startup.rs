//! Bringing the store up at the start of the process: where the store is
//! opened, in which sequence the places are tried, and with what
//! settings. The shell does the steps; what to do next is decided here.
use vstd::prelude::*;

verus! {

/// How the journal of the store is kept.
#[derive(Clone, Copy, Debug, PartialEq, Eq, Structural)]
pub enum JournalMode {
    WriteAhead,
}

/// How far writes are flushed before they count as done.
#[derive(Clone, Copy, Debug, PartialEq, Eq, Structural)]
pub enum Synchronous {
    Normal,
}

/// The settings that the store is opened with.
#[derive(Clone, Copy, Debug, PartialEq, Eq, Structural)]
pub struct StoreSettings {
    pub create_if_missing: bool,
    pub foreign_keys: bool,
    pub journal_mode: JournalMode,
    pub synchronous: Synchronous,
    pub max_connections: u32,
}

/// The settings of the store: the file is created where it is missing,
/// references between tables are enforced, the journal is written ahead
/// and flushed in the normal way, and at most five connections are open.
pub open spec fn settings() -> StoreSettings {
    StoreSettings {
        create_if_missing: true,
        foreign_keys: true,
        journal_mode: JournalMode::WriteAhead,
        synchronous: Synchronous::Normal,
        max_connections: 5,
    }
}

/// The settings that the store is opened with.
pub fn init() -> (s: StoreSettings)
    ensures
        s == settings(),
{
    StoreSettings {
        create_if_missing: true,
        foreign_keys: true,
        journal_mode: JournalMode::WriteAhead,
        synchronous: Synchronous::Normal,
        max_connections: 5,
    }
}

/// A place where the store can be kept.
#[derive(Clone, Copy, Debug, PartialEq, Eq, Structural)]
pub enum Place {
    /// The directory that the system gives to the application.
    Primary,
    /// The directory `data` beside the program.
    Fallback,
}

/// Why the store could not be brought up.
#[derive(Clone, Copy, Debug, PartialEq, Eq, Structural)]
pub enum StartupFailure {
    /// The store did not open in the first place and the directory of the
    /// second could not be made.
    FallbackDirectory,
    /// The store opened in neither place.
    BothStores,
}

/// How far the start has come.
#[derive(Clone, Copy, Debug, PartialEq, Eq, Structural)]
pub enum Startup {
    /// The directory of the first place is being made.
    PreparingPrimary,
    /// The store is being opened in the first place.
    OpeningPrimary,
    /// The directory of the second place is being made.
    PreparingFallback,
    /// The store is being opened in the second place.
    OpeningFallback,
    /// The store is open.
    Ready(Place),
    /// The start has failed for good.
    Failed(StartupFailure),
}

/// What the shell is to do.
#[derive(Clone, Copy, Debug, PartialEq, Eq, Structural)]
pub enum Action {
    /// Make the directory of a place, and say whether that worked.
    CreateDirectory(Place),
    /// Open the store in a place and bring its tables up to date, and say
    /// whether that worked.
    OpenStore(Place),
    /// Serve requests from the store that is open in this place.
    Serve(Place),
    /// Give up and report the failure.
    Abort(StartupFailure),
}

/// A state of the start together with what is to be done in it.
#[derive(Clone, Copy, Debug, PartialEq, Eq, Structural)]
pub struct Step {
    pub state: Startup,
    pub action: Action,
}

/// The state that follows when the action of a state has worked or has
/// not. That the first directory cannot be made is passed over: the
/// store is tried there all the same. A state in which the start has
/// ended stays.
pub open spec fn next_state(state: Startup, worked: bool) -> Startup {
    match state {
        Startup::PreparingPrimary => Startup::OpeningPrimary,
        Startup::OpeningPrimary => if worked {
            Startup::Ready(Place::Primary)
        } else {
            Startup::PreparingFallback
        },
        Startup::PreparingFallback => if worked {
            Startup::OpeningFallback
        } else {
            Startup::Failed(StartupFailure::FallbackDirectory)
        },
        Startup::OpeningFallback => if worked {
            Startup::Ready(Place::Fallback)
        } else {
            Startup::Failed(StartupFailure::BothStores)
        },
        Startup::Ready(p) => Startup::Ready(p),
        Startup::Failed(f) => Startup::Failed(f),
    }
}

/// What is to be done in a state.
pub open spec fn action_in(state: Startup) -> Action {
    match state {
        Startup::PreparingPrimary => Action::CreateDirectory(Place::Primary),
        Startup::OpeningPrimary => Action::OpenStore(Place::Primary),
        Startup::PreparingFallback => Action::CreateDirectory(Place::Fallback),
        Startup::OpeningFallback => Action::OpenStore(Place::Fallback),
        Startup::Ready(p) => Action::Serve(p),
        Startup::Failed(f) => Action::Abort(f),
    }
}

fn action_for(state: Startup) -> (a: Action)
    ensures
        a == action_in(state),
{
    match state {
        Startup::PreparingPrimary => Action::CreateDirectory(Place::Primary),
        Startup::OpeningPrimary => Action::OpenStore(Place::Primary),
        Startup::PreparingFallback => Action::CreateDirectory(Place::Fallback),
        Startup::OpeningFallback => Action::OpenStore(Place::Fallback),
        Startup::Ready(p) => Action::Serve(p),
        Startup::Failed(f) => Action::Abort(f),
    }
}

/// The first step of the start: the directory of the first place is made.
pub fn begin() -> (s: Step)
    ensures
        s.state == Startup::PreparingPrimary,
        s.action == action_in(s.state),
{
    Step { state: Startup::PreparingPrimary, action: Action::CreateDirectory(Place::Primary) }
}

/// The step that follows when the shell has done the action of `state`
/// and reports whether it worked.
pub fn run(state: Startup, worked: bool) -> (s: Step)
    ensures
        s.state == next_state(state, worked),
        s.action == action_in(s.state),
{
    let next = match state {
        Startup::PreparingPrimary => Startup::OpeningPrimary,
        Startup::OpeningPrimary => if worked {
            Startup::Ready(Place::Primary)
        } else {
            Startup::PreparingFallback
        },
        Startup::PreparingFallback => if worked {
            Startup::OpeningFallback
        } else {
            Startup::Failed(StartupFailure::FallbackDirectory)
        },
        Startup::OpeningFallback => if worked {
            Startup::Ready(Place::Fallback)
        } else {
            Startup::Failed(StartupFailure::BothStores)
        },
        Startup::Ready(p) => Startup::Ready(p),
        Startup::Failed(f) => Startup::Failed(f),
    };
    Step { state: next, action: action_for(next) }
}

/// The state that the start has reached after the shell has reported
/// these outcomes, one after the other.
pub open spec fn state_after(outcomes: Seq<bool>) -> Startup
    decreases outcomes.len(),
{
    if outcomes.len() == 0 {
        Startup::PreparingPrimary
    } else {
        next_state(state_after(outcomes.drop_last()), outcomes.last())
    }
}

/// The start ends after at most four reports, and how it ends depends
/// only on whether the store opened in the first place, whether the
/// second directory could be made, and whether the store opened there:
/// the first place is served where the store opened in it; else the
/// second where its directory was made and the store opened in it; else
/// the start fails, and the failure says at which of the two it did.
pub proof fn start_ends(
    primary_dir: bool,
    primary_open: bool,
    fallback_dir: bool,
    fallback_open: bool,
)
    ensures
        state_after(seq![primary_dir, primary_open, fallback_dir, fallback_open]) == if primary_open {
            Startup::Ready(Place::Primary)
        } else if !fallback_dir {
            Startup::Failed(StartupFailure::FallbackDirectory)
        } else if fallback_open {
            Startup::Ready(Place::Fallback)
        } else {
            Startup::Failed(StartupFailure::BothStores)
        },
{
    let s4 = seq![primary_dir, primary_open, fallback_dir, fallback_open];
    let s3 = seq![primary_dir, primary_open, fallback_dir];
    let s2 = seq![primary_dir, primary_open];
    let s1 = seq![primary_dir];
    assert(s4.drop_last() =~= s3);
    assert(s3.drop_last() =~= s2);
    assert(s2.drop_last() =~= s1);
    assert(s1.drop_last() =~= Seq::<bool>::empty());
    assert(state_after(Seq::<bool>::empty()) == Startup::PreparingPrimary);
    assert(state_after(s1) == Startup::OpeningPrimary);
    assert(state_after(s2) == next_state(Startup::OpeningPrimary, primary_open));
    assert(state_after(s3) == next_state(state_after(s2), fallback_dir));
    assert(state_after(s4) == next_state(state_after(s3), fallback_open));
}

} // verus!
