//! Editor state machine for play/pause/stop functionality.
//!
//! Three states, four requests. A request is held in a single slot until the
//! machine commits it, once per tick; the commit says whether the snapshot of
//! the scene's transforms has to be taken or written back.

use vstd::prelude::*;

verus! {

/// Editor execution state for play/pause/stop controls.
#[derive(Debug, Clone, Copy, PartialEq, Eq, Hash, Structural)]
pub enum EditorPlayState {
    /// Editor is stopped - entities can be selected and manipulated.
    Stopped,
    /// Game is running - gameplay systems are active.
    Playing,
    /// Game is paused - gameplay systems are suspended.
    Paused,
}

/// A transition asked for by one of the toolbar's controls.
#[derive(Debug, Clone, Copy, PartialEq, Eq, Hash, Structural)]
pub enum PlayRequest {
    /// Start a play session.
    Play,
    /// Suspend the running session.
    Pause,
    /// Continue a suspended session.
    Resume,
    /// End the session and return to editing.
    Stop,
}

/// What a committed transition asks of the snapshot.
#[derive(Debug, Clone, Copy, PartialEq, Eq, Hash, Structural)]
pub enum SnapshotAction {
    /// Leave snapshot and scene alone.
    Keep,
    /// Take a fresh snapshot of the scene.
    Capture,
    /// Write the snapshot back to the scene.
    Restore,
}

/// The transition table, one line per row: from which state, on which request,
/// to which state, with which effect on the snapshot.
pub open spec fn table_row(
    from: EditorPlayState,
    request: PlayRequest,
    to: EditorPlayState,
    action: SnapshotAction,
) -> bool {
    ||| from == EditorPlayState::Stopped && request == PlayRequest::Play && to
        == EditorPlayState::Playing && action == SnapshotAction::Capture
    ||| from == EditorPlayState::Playing && request == PlayRequest::Pause && to
        == EditorPlayState::Paused && action == SnapshotAction::Keep
    ||| from == EditorPlayState::Paused && request == PlayRequest::Resume && to
        == EditorPlayState::Playing && action == SnapshotAction::Keep
    ||| (from == EditorPlayState::Playing || from == EditorPlayState::Paused) && request
        == PlayRequest::Stop && to == EditorPlayState::Stopped && action == SnapshotAction::Restore
}

impl Default for EditorPlayState {
    fn default() -> (state: Self)
        ensures
            state == EditorPlayState::Stopped,
    {
        EditorPlayState::Stopped
    }
}

impl EditorPlayState {
    /// Whether the table has a row for `request` in this state.
    pub open spec fn spec_accepts(self, request: PlayRequest) -> bool {
        match request {
            PlayRequest::Play => self == EditorPlayState::Stopped,
            PlayRequest::Pause => self == EditorPlayState::Playing,
            PlayRequest::Resume => self == EditorPlayState::Paused,
            PlayRequest::Stop => self != EditorPlayState::Stopped,
        }
    }

    /// The state after `request`: the row's target, or `self` where there is no row.
    pub open spec fn spec_after(self, request: PlayRequest) -> EditorPlayState {
        if !self.spec_accepts(request) {
            self
        } else {
            match request {
                PlayRequest::Play | PlayRequest::Resume => EditorPlayState::Playing,
                PlayRequest::Pause => EditorPlayState::Paused,
                PlayRequest::Stop => EditorPlayState::Stopped,
            }
        }
    }

    /// What `request` asks of the snapshot in this state.
    pub open spec fn spec_action(self, request: PlayRequest) -> SnapshotAction {
        if !self.spec_accepts(request) {
            SnapshotAction::Keep
        } else {
            match request {
                PlayRequest::Play => SnapshotAction::Capture,
                PlayRequest::Stop => SnapshotAction::Restore,
                PlayRequest::Pause | PlayRequest::Resume => SnapshotAction::Keep,
            }
        }
    }

    /// Whether `request` is a valid transition from this state. The toolbar
    /// enables a control exactly when its request is accepted.
    #[verifier::when_used_as_spec(spec_accepts)]
    pub fn accepts(self, request: PlayRequest) -> (accepted: bool)
        ensures
            accepted == self.spec_accepts(request),
    {
        match request {
            PlayRequest::Play => self == EditorPlayState::Stopped,
            PlayRequest::Pause => self == EditorPlayState::Playing,
            PlayRequest::Resume => self == EditorPlayState::Paused,
            PlayRequest::Stop => self != EditorPlayState::Stopped,
        }
    }

    /// The state that follows on `request`. A request the table does not list
    /// leaves the state as it is.
    #[verifier::when_used_as_spec(spec_after)]
    pub fn after(self, request: PlayRequest) -> (next: EditorPlayState)
        ensures
            next == self.spec_after(request),
            !self.spec_accepts(request) ==> next == self,
    {
        if !self.accepts(request) {
            return self;
        }
        match request {
            PlayRequest::Play | PlayRequest::Resume => EditorPlayState::Playing,
            PlayRequest::Pause => EditorPlayState::Paused,
            PlayRequest::Stop => EditorPlayState::Stopped,
        }
    }

    /// The snapshot work that goes with `request` in this state.
    #[verifier::when_used_as_spec(spec_action)]
    pub fn action(self, request: PlayRequest) -> (action: SnapshotAction)
        ensures
            action == self.spec_action(request),
            !self.spec_accepts(request) ==> action == SnapshotAction::Keep,
    {
        if !self.accepts(request) {
            return SnapshotAction::Keep;
        }
        match request {
            PlayRequest::Play => SnapshotAction::Capture,
            PlayRequest::Stop => SnapshotAction::Restore,
            PlayRequest::Pause | PlayRequest::Resume => SnapshotAction::Keep,
        }
    }

    /// The text the toolbar shows for this state.
    pub open spec fn spec_label(self) -> Seq<char> {
        match self {
            EditorPlayState::Stopped => "Stopped"@,
            EditorPlayState::Playing => "Playing"@,
            EditorPlayState::Paused => "Paused"@,
        }
    }

    /// The text the toolbar shows for this state.
    pub fn label(self) -> (text: &'static str)
        ensures
            text@ == self.spec_label(),
    {
        match self {
            EditorPlayState::Stopped => "Stopped",
            EditorPlayState::Playing => "Playing",
            EditorPlayState::Paused => "Paused",
        }
    }
}

/// The state reached from `start` when `requests` are committed in order.
pub open spec fn state_after_all(start: EditorPlayState, requests: Seq<PlayRequest>) -> EditorPlayState
    decreases requests.len(),
{
    if requests.len() == 0 {
        start
    } else {
        state_after_all(start, requests.drop_last()).spec_after(requests.last())
    }
}

/// The transition functions say what the table says, and nothing else.
///
/// A request is accepted exactly where the table has a row for it; the row
/// is then unique and gives the next state and the snapshot work. Where the
/// table has no row the state stays and the snapshot is left alone.
pub proof fn lemma_transition_matches_table(from: EditorPlayState, request: PlayRequest)
    ensures
        from.spec_accepts(request) <==> exists|to: EditorPlayState, action: SnapshotAction|
            table_row(from, request, to, action),
        forall|to: EditorPlayState, action: SnapshotAction| #[trigger]
            table_row(from, request, to, action) ==> to == from.spec_after(request) && action
                == from.spec_action(request),
        !from.spec_accepts(request) ==> from.spec_after(request) == from && from.spec_action(
            request,
        ) == SnapshotAction::Keep,
{
    if from.spec_accepts(request) {
        assert(table_row(from, request, from.spec_after(request), from.spec_action(request)));
    }
}

/// Every step of every run is a row of the table or a refused request.
///
/// Whatever is requested, in whatever order: step `k` of the run either
/// takes the row of the table for the state before it and request `k`, or
/// the table has no such row and the state is unchanged.
pub proof fn lemma_every_run_follows_table(
    start: EditorPlayState,
    requests: Seq<PlayRequest>,
    k: int,
)
    requires
        0 <= k < requests.len(),
    ensures
        ({
            let before = state_after_all(start, requests.take(k));
            let after = state_after_all(start, requests.take(k + 1));
            if before.spec_accepts(requests[k]) {
                table_row(before, requests[k], after, before.spec_action(requests[k]))
            } else {
                after == before
            }
        }),
{
    assert(requests.take(k + 1).drop_last() =~= requests.take(k));
    assert(requests.take(k + 1).last() == requests[k]);
}

/// A snapshot lasts exactly as long as a play session.
///
/// It is taken on the one transition that leaves `Stopped` and written back
/// on the transitions that return to `Stopped`; pausing, resuming and
/// refused requests do not touch it.
pub proof fn lemma_snapshot_spans_play_session(from: EditorPlayState, request: PlayRequest)
    ensures
        from.spec_action(request) == SnapshotAction::Capture <==> from == EditorPlayState::Stopped
            && from.spec_after(request) != EditorPlayState::Stopped,
        from.spec_action(request) == SnapshotAction::Restore <==> from != EditorPlayState::Stopped
            && from.spec_after(request) == EditorPlayState::Stopped,
{
}

/// The current state and the one-slot queue of the request to commit next.
pub struct PlayStateMachine {
    current: EditorPlayState,
    requested: Option<PlayRequest>,
}

impl PlayStateMachine {
    /// The active state.
    pub closed spec fn state(&self) -> EditorPlayState {
        self.current
    }

    /// The request waiting for the next commit, if any.
    pub closed spec fn pending(&self) -> Option<PlayRequest> {
        self.requested
    }

    /// The state the next commit leads to.
    pub open spec fn next_state(&self) -> EditorPlayState {
        match self.pending() {
            Some(request) => self.state().spec_after(request),
            None => self.state(),
        }
    }

    /// The snapshot work the next commit asks for.
    pub open spec fn next_action(&self) -> SnapshotAction {
        match self.pending() {
            Some(request) => self.state().spec_action(request),
            None => SnapshotAction::Keep,
        }
    }

    /// A machine in the initial state, with nothing requested.
    pub fn new() -> (machine: Self)
        ensures
            machine.state() == EditorPlayState::Stopped,
            machine.pending() is None,
    {
        PlayStateMachine { current: EditorPlayState::Stopped, requested: None }
    }

    /// The active state.
    #[verifier::when_used_as_spec(state)]
    pub fn current(&self) -> (state: EditorPlayState)
        ensures
            state == self.state(),
    {
        self.current
    }

    /// The request waiting for the next commit, if any.
    #[verifier::when_used_as_spec(pending)]
    pub fn requested(&self) -> (request: Option<PlayRequest>)
        ensures
            request == self.pending(),
    {
        self.requested
    }

    /// Puts `request` into the slot, in place of whatever waited there. The
    /// active state does not change before the next commit.
    pub fn request(&mut self, request: PlayRequest)
        ensures
            final(self).state() == old(self).state(),
            final(self).pending() == Some(request),
    {
        self.requested = Some(request);
    }

    /// Takes the waiting request out of the slot and makes the transition it
    /// asks for. Returns the snapshot work that belongs to the transition.
    /// With an empty slot, or a request the table has no row for, the state
    /// stays and there is nothing to do.
    pub fn commit(&mut self) -> (action: SnapshotAction)
        ensures
            final(self).state() == old(self).next_state(),
            final(self).pending() is None,
            action == old(self).next_action(),
    {
        match self.requested {
            Some(request) => {
                let action = self.current.action(request);
                self.current = self.current.after(request);
                self.requested = None;
                action
            },
            None => SnapshotAction::Keep,
        }
    }
}

impl Default for PlayStateMachine {
    fn default() -> (machine: Self)
        ensures
            machine.state() == EditorPlayState::Stopped,
            machine.pending() is None,
    {
        PlayStateMachine::new()
    }
}

} // verus!
