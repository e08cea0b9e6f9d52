use crate::backend::text::{decimal, push_decimal};
use crate::backend::types::{SamError, SteamClientError, ERESULT_OK};
use vstd::prelude::*;
use vstd::string::*;

verus! {

// ---------------------------------------------------------------------------
// Launch mode of the app servers
// ---------------------------------------------------------------------------

/// Whether app servers are launched in stealth mode (the process never
/// registers as running the app, so the user does not appear in-game).
pub struct StealthSwitch {
    on: bool,
}

impl View for StealthSwitch {
    type V = bool;

    closed spec fn view(&self) -> bool {
        self.on
    }
}

impl StealthSwitch {
    /// A switch in the default, app-scoped position.
    pub fn new() -> (s: StealthSwitch)
        ensures
            s@ == false,
    {
        StealthSwitch { on: false }
    }
}

/// Puts the launch mode into stealth (`on`) or app-scoped (`!on`) position.
pub fn set_stealth(switch: &mut StealthSwitch, on: bool)
    ensures
        final(switch)@ == on,
{
    switch.on = on;
}

/// The current launch mode.
pub fn stealth(switch: &StealthSwitch) -> (on: bool)
    ensures
        on == switch@,
{
    switch.on
}

/// The argument list of an app server for `app_id`: `--app=<id>`, then
/// `--stealth` when launched in stealth mode.
pub open spec fn server_args(app_id: u32, stealth: bool) -> Seq<Seq<char>> {
    let app = "--app="@ + decimal(app_id as nat);
    if stealth {
        seq![app, "--stealth"@]
    } else {
        seq![app]
    }
}

/// The views of a list of strings.
pub open spec fn string_views(v: Seq<String>) -> Seq<Seq<char>> {
    v.map_values(|s: String| s@)
}

/// Arguments of the app server that serves `app_id` in the given mode.
pub fn spawn_app_server(app_id: u32, stealth: bool) -> (args: Vec<String>)
    ensures
        string_views(args@) == server_args(app_id, stealth),
{
    let mut app = "--app=".to_owned();
    push_decimal(&mut app, app_id as u64);
    let mut args: Vec<String> = Vec::new();
    args.push(app);
    if stealth {
        args.push("--stealth".to_owned());
    }
    assert(string_views(args@) =~= server_args(app_id, stealth));
    args
}

/// Arguments of the app server for `app_id`, in the current launch mode.
pub fn app_server_command(switch: &StealthSwitch, app_id: u32) -> (args: Vec<String>)
    ensures
        string_views(args@) == server_args(app_id, switch@),
{
    spawn_app_server(app_id, stealth(switch))
}

/// Arguments of an idling app server for `app_id`: always app-scoped, since
/// idling is what makes the user appear in-game.
pub fn idle_app_server_command(app_id: u32) -> (args: Vec<String>)
    ensures
        string_views(args@) == server_args(app_id, false),
{
    spawn_app_server(app_id, false)
}


// ---------------------------------------------------------------------------
// Results of calls that are not specific to one access mode
// ---------------------------------------------------------------------------

/// Any failure of a call into Steam, reported as `UnknownError`.
pub fn as_unknown_error<T, E>(r: Result<T, E>) -> (out: Result<T, SamError>)
    ensures
        match r {
            Ok(v) => out == Ok::<T, SamError>(v),
            Err(_) => out == Err::<T, SamError>(SamError::UnknownError),
        },
{
    match r {
        Ok(v) => Ok(v),
        Err(_) => Err(SamError::UnknownError),
    }
}

/// The result code of a user-stats request once its callback was awaited:
/// no callback in time is a `Timeout`.
pub fn user_stats_wait_outcome(received: Option<i32>) -> (out: Result<i32, SamError>)
    ensures
        match received {
            Some(code) => out == Ok::<i32, SamError>(code),
            None => out == Err::<i32, SamError>(SamError::Timeout),
        },
{
    match received {
        Some(code) => Ok(code),
        None => Err(SamError::Timeout),
    }
}

/// A write is checked by reading the achievement back: it took when the
/// flag read back is the one written. A failed read-back proves nothing
/// either way and is not held against the write.
pub open spec fn readback_confirms(read: Result<(bool, u32), SteamClientError>, expected: bool) -> bool {
    match read {
        Ok((achieved, _)) => achieved == expected,
        Err(_) => true,
    }
}

/// Whether the read-back of an achievement confirms the value written.
pub fn verify_readback(read: Result<(bool, u32), SteamClientError>, expected: bool) -> (ok: bool)
    ensures
        ok == readback_confirms(read, expected),
{
    match read {
        Ok((achieved, _)) => achieved == expected,
        Err(_) => true,
    }
}

// ---------------------------------------------------------------------------
// App-scoped access: the process is registered as running the app
// ---------------------------------------------------------------------------

/// Stats access through `ISteamUserStats`, for a process bound to the app.
pub struct AppScoped<S> {
    steam: S,
}

impl<S> AppScoped<S> {
    /// Access through the connected Steam client `steam`.
    pub fn new(steam: S) -> (a: Self)
        ensures
            a.spec_steam() == steam,
    {
        Self { steam }
    }

    /// The connected Steam client.
    pub closed spec fn spec_steam(&self) -> S {
        self.steam
    }

    /// The connected Steam client.
    pub fn steam(&self) -> (s: &S)
        ensures
            *s == self.spec_steam(),
    {
        &self.steam
    }

    /// Loading the current user's stats: a non-OK answer or a timeout still
    /// lets the app load from cached stats (`Ok(false)`); other errors stand.
    pub fn prime_outcome(waited: Result<i32, SamError>) -> (out: Result<bool, SamError>)
        ensures
            match waited {
                Ok(code) => out == Ok::<bool, SamError>(code == ERESULT_OK),
                Err(SamError::Timeout) => out == Ok::<bool, SamError>(false),
                Err(e) => out == Err::<bool, SamError>(e),
            },
    {
        match waited {
            Ok(code) => Ok(code == ERESULT_OK),
            Err(SamError::Timeout) => Ok(false),
            Err(e) => Err(e),
        }
    }

    /// Global percentages: served only when the callback came with an OK code.
    pub fn percentages_outcome(ready: Result<Option<i32>, SamError>) -> (out: Result<bool, SamError>)
        ensures
            match ready {
                Ok(Some(code)) => out == Ok::<bool, SamError>(code == ERESULT_OK),
                Ok(None) => out == Ok::<bool, SamError>(false),
                Err(e) => out == Err::<bool, SamError>(e),
            },
    {
        match ready {
            Ok(Some(code)) => Ok(code == ERESULT_OK),
            Ok(None) => Ok(false),
            Err(e) => Err(e),
        }
    }

    /// Another user's stats: a non-OK answer means the profile is private.
    pub fn other_user_stats_outcome(waited: Result<i32, SamError>) -> (out: Result<(), SamError>)
        ensures
            match waited {
                Ok(code) => if code == ERESULT_OK {
                    out == Ok::<(), SamError>(())
                } else {
                    out == Err::<(), SamError>(SamError::ProfilePrivate)
                },
                Err(e) => out == Err::<(), SamError>(e),
            },
    {
        match waited {
            Ok(code) => if code == ERESULT_OK {
                Ok(())
            } else {
                Err(SamError::ProfilePrivate)
            },
            Err(e) => Err(e),
        }
    }

    /// `ISteamUserStats` has no shifted slot to guard against, so every
    /// write counts as confirmed.
    pub fn verify_achievement(&self, achievement_name: &str, expected: bool) -> (ok: bool)
        ensures
            ok,
    {
        true
    }
}


// ---------------------------------------------------------------------------
// Stealth access: `IClientUserStats`, the app passed per call
// ---------------------------------------------------------------------------

/// Frames (of about 17 ms) to await the stats of a user: 30 s at ~60 fps, as
/// a bulk fan-out queues many requests through Steam's one IPC.
pub const USER_STATS_FRAMES: u32 = 1800;

/// Frames (of about 17 ms) to await global achievement percentages.
pub const PERCENTAGES_FRAMES: u32 = 600;

/// How one frame of awaiting the app's stats ends.
#[derive(Debug, Clone, Copy, PartialEq, Eq, Structural)]
pub enum PrimeFrame {
    /// The app's callback came: whether its stats loaded.
    Loaded(bool),
    /// No callback for the app yet; wait another frame.
    Waiting,
    /// The frame budget is spent: the request timed out.
    TimedOut,
}

/// Refused `RequestCurrentStats` calls tolerated before loading is given up.
pub const MAX_REFUSALS: u8 = 3;

/// Whether stealth access has loaded the app's stats from Steam.
pub struct LoadView {
    /// Steam answered the stats request with an OK code.
    pub loaded: bool,
    /// No further request will be sent (until a stale load is forgotten).
    pub load_attempted: bool,
    /// Requests refused in a row so far.
    pub refusals: nat,
}

/// What `prime` does next.
#[derive(Debug, Clone, Copy, PartialEq, Eq, Structural)]
pub enum PrimeStep {
    /// Answer the caller with this value, with nothing more sent to Steam.
    Answer(bool),
    /// Send `RequestCurrentStats` for the app.
    SendRequest,
    /// The request was accepted: pump callbacks until the app's stats arrive.
    AwaitCallback,
}

impl LoadView {
    /// Nothing loaded, nothing attempted.
    pub open spec fn fresh() -> LoadView {
        LoadView { loaded: false, load_attempted: false, refusals: 0 }
    }

    /// What every reachable load state satisfies: refusals stay below the limit
    /// while requests are still sent, and a load only follows an accepted request.
    pub open spec fn wf(self) -> bool {
        &&& self.refusals <= MAX_REFUSALS
        &&& !self.load_attempted ==> self.refusals < MAX_REFUSALS
        &&& self.loaded ==> self.load_attempted && self.refusals == 0
    }

    /// The first decision of `prime`.
    pub open spec fn prime_decision(self) -> PrimeStep {
        if self.loaded {
            PrimeStep::Answer(true)
        } else if self.load_attempted {
            PrimeStep::Answer(false)
        } else {
            PrimeStep::SendRequest
        }
    }

    /// The state after Steam answered `RequestCurrentStats`.
    pub open spec fn after_request(self, accepted: Result<bool, SteamClientError>) -> LoadView {
        match accepted {
            Ok(true) => LoadView { load_attempted: true, refusals: 0, ..self },
            Ok(false) => {
                let refusals = if self.refusals < 255 { self.refusals + 1 } else { self.refusals };
                LoadView {
                    load_attempted: self.load_attempted || refusals >= MAX_REFUSALS,
                    refusals,
                    ..self
                }
            },
            Err(_) => LoadView { load_attempted: true, ..self },
        }
    }

    /// What `prime` does after Steam answered `RequestCurrentStats`.
    pub open spec fn request_step(accepted: Result<bool, SteamClientError>) -> PrimeStep {
        match accepted {
            Ok(true) => PrimeStep::AwaitCallback,
            _ => PrimeStep::Answer(false),
        }
    }

    /// The state after the app's `UserStatsReceived` callback with result `code`.
    pub open spec fn after_callback(self, code: i32) -> LoadView {
        LoadView { loaded: code == ERESULT_OK, ..self }
    }

    /// The state after a store or reset answered `stored`: a loaded app that
    /// refuses it was unloaded behind our back, so loading starts over.
    pub open spec fn after_store(self, stored: Result<bool, SteamClientError>) -> LoadView {
        if stored == Ok::<bool, SteamClientError>(false) && self.loaded {
            LoadView::fresh()
        } else {
            self
        }
    }

    /// The state after `n` requests in a row were refused.
    pub open spec fn after_refusals(self, n: nat) -> LoadView
        decreases n,
    {
        if n == 0 {
            self
        } else {
            self.after_request(Ok(false)).after_refusals((n - 1) as nat)
        }
    }
}

/// The load state of stealth access.
pub struct LoadState {
    loaded: bool,
    load_attempted: bool,
    refusals: u8,
}

impl View for LoadState {
    type V = LoadView;

    closed spec fn view(&self) -> LoadView {
        LoadView { loaded: self.loaded, load_attempted: self.load_attempted, refusals: self.refusals as nat }
    }
}

impl LoadState {
    #[verifier::type_invariant]
    spec fn inv(self) -> bool {
        self@.wf()
    }

    /// Nothing loaded, nothing attempted.
    pub fn new() -> (s: LoadState)
        ensures
            s@ == LoadView::fresh(),
    {
        LoadState { loaded: false, load_attempted: false, refusals: 0 }
    }

    /// Whether the app's stats are loaded.
    pub fn loaded(&self) -> (b: bool)
        ensures
            b == self@.loaded,
    {
        self.loaded
    }

    /// Whether requests have stopped.
    pub fn load_attempted(&self) -> (b: bool)
        ensures
            b == self@.load_attempted,
    {
        self.load_attempted
    }

    /// Requests refused in a row.
    pub fn refusals(&self) -> (n: u8)
        ensures
            n == self@.refusals,
    {
        self.refusals
    }

    /// The first decision of `prime`.
    pub fn prime_begin(&self) -> (step: PrimeStep)
        ensures
            step == self@.prime_decision(),
    {
        if self.loaded {
            PrimeStep::Answer(true)
        } else if self.load_attempted {
            PrimeStep::Answer(false)
        } else {
            PrimeStep::SendRequest
        }
    }

    /// Records Steam's answer to `RequestCurrentStats`.
    pub fn record_request(&mut self, accepted: Result<bool, SteamClientError>) -> (step: PrimeStep)
        requires
            old(self)@.prime_decision() == PrimeStep::SendRequest,
        ensures
            final(self)@ == old(self)@.after_request(accepted),
            step == LoadView::request_step(accepted),
    {
        proof {
            use_type_invariant(&*self);
        }
        match accepted {
            Ok(true) => {
                *self = LoadState { loaded: self.loaded, load_attempted: true, refusals: 0 };
                PrimeStep::AwaitCallback
            },
            Ok(false) => {
                let refusals = self.refusals.saturating_add(1);
                let load_attempted = self.load_attempted || refusals >= MAX_REFUSALS;
                *self = LoadState { loaded: self.loaded, load_attempted, refusals };
                PrimeStep::Answer(false)
            },
            Err(_) => {
                *self = LoadState { loaded: self.loaded, load_attempted: true, refusals: self.refusals };
                PrimeStep::Answer(false)
            },
        }
    }

    /// Records the app's `UserStatsReceived` callback; answers whether it loaded.
    pub fn record_callback(&mut self, code: i32) -> (loaded: bool)
        requires
            old(self)@.load_attempted,
            old(self)@.refusals == 0,
        ensures
            final(self)@ == old(self)@.after_callback(code),
            loaded == (code == ERESULT_OK),
    {
        let loaded = code == ERESULT_OK;
        *self = LoadState { loaded, load_attempted: self.load_attempted, refusals: self.refusals };
        loaded
    }

    /// Forgets a load that a refused store or reset shows to be stale.
    pub fn forget_load_if_stale(&mut self, stored: &Result<bool, SteamClientError>)
        ensures
            final(self)@ == old(self)@.after_store(*stored),
    {
        let refused = match stored {
            Ok(false) => true,
            _ => false,
        };
        if refused && self.loaded {
            *self = LoadState::new();
        }
    }
}

/// Law: every transition of the load state keeps it well formed.
pub proof fn law_load_transitions_keep_wf(s: LoadView, accepted: Result<bool, SteamClientError>, code: i32, stored: Result<bool, SteamClientError>)
    requires
        s.wf(),
    ensures
        LoadView::fresh().wf(),
        s.prime_decision() == PrimeStep::SendRequest ==> s.after_request(accepted).wf(),
        s.load_attempted && s.refusals == 0 ==> s.after_callback(code).wf(),
        s.after_store(stored).wf(),
{
}

/// Law: once loaded, `prime` answers `true` without asking Steam again.
pub proof fn law_loaded_answers_true(s: LoadView)
    requires
        s.loaded,
    ensures
        s.prime_decision() == PrimeStep::Answer(true),
{
}

/// Law: after `MAX_REFUSALS` refused requests in a row, `prime` stops asking
/// Steam and answers `false`.
pub proof fn law_gives_up_after_refusals(s: LoadView)
    requires
        s.wf(),
        !s.loaded,
        !s.load_attempted,
    ensures
        s.after_refusals((MAX_REFUSALS - s.refusals) as nat).load_attempted,
        s.after_refusals((MAX_REFUSALS - s.refusals) as nat).prime_decision() == PrimeStep::Answer(false),
        forall|n: nat| n < MAX_REFUSALS - s.refusals ==> #[trigger] s.after_refusals(n).prime_decision() == PrimeStep::SendRequest,
    decreases MAX_REFUSALS - s.refusals,
{
    let next = s.after_request(Ok(false));
    if s.refusals + 1 < MAX_REFUSALS {
        law_gives_up_after_refusals(next);
        assert forall|n: nat| n < MAX_REFUSALS - s.refusals implies #[trigger] s.after_refusals(n).prime_decision() == PrimeStep::SendRequest by {
            if n > 0 {
                assert(s.after_refusals(n) == next.after_refusals((n - 1) as nat));
            }
        }
        assert(s.after_refusals((MAX_REFUSALS - s.refusals) as nat) == next.after_refusals((MAX_REFUSALS - next.refusals) as nat));
    } else {
        assert(next.after_refusals(0) == next);
        assert forall|n: nat| n < MAX_REFUSALS - s.refusals implies #[trigger] s.after_refusals(n).prime_decision() == PrimeStep::SendRequest by {
            assert(n == 0);
        }
    }
}

/// Law: a refused store on a loaded app starts loading over; any other
/// answer leaves the load state as it was.
pub proof fn law_refused_store_restarts_load(s: LoadView, stored: Result<bool, SteamClientError>)
    ensures
        s.loaded && stored == Ok::<bool, SteamClientError>(false) ==> s.after_store(stored) == LoadView::fresh(),
        !(s.loaded && stored == Ok::<bool, SteamClientError>(false)) ==> s.after_store(stored) == s,
{
}


/// The result code of the first `UserStatsReceived` callback for `app_id`.
pub open spec fn first_result_for(callbacks: Seq<(u32, i32)>, app_id: u32) -> Option<i32>
    decreases callbacks.len(),
{
    if callbacks.len() == 0 {
        None
    } else if callbacks[0].0 == app_id {
        Some(callbacks[0].1)
    } else {
        first_result_for(callbacks.drop_first(), app_id)
    }
}

/// Law: the result taken from a frame's callbacks is that of the first
/// callback for the app; there is none only when no callback is for the app.
pub proof fn law_first_result_for(callbacks: Seq<(u32, i32)>, app_id: u32)
    ensures
        match first_result_for(callbacks, app_id) {
            Some(code) => exists|i: int| 0 <= i < callbacks.len() && #[trigger] callbacks[i] == (app_id, code)
                && forall|j: int| 0 <= j < i ==> (#[trigger] callbacks[j]).0 != app_id,
            None => forall|i: int| 0 <= i < callbacks.len() ==> (#[trigger] callbacks[i]).0 != app_id,
        },
    decreases callbacks.len(),
{
    if callbacks.len() > 0 {
        let t = callbacks.drop_first();
        law_first_result_for(t, app_id);
        if callbacks[0].0 == app_id {
            assert(callbacks[0] == (app_id, callbacks[0].1));
        } else {
            match first_result_for(t, app_id) {
                Some(code) => {
                    let i = choose|i: int| 0 <= i < t.len() && #[trigger] t[i] == (app_id, code)
                        && forall|j: int| 0 <= j < i ==> (#[trigger] t[j]).0 != app_id;
                    assert(callbacks[i + 1] == t[i]);
                    assert forall|j: int| 0 <= j < i + 1 implies (#[trigger] callbacks[j]).0 != app_id by {
                        if j > 0 {
                            assert(callbacks[j] == t[j - 1]);
                        }
                    }
                },
                None => {
                    assert forall|i: int| 0 <= i < callbacks.len() implies (#[trigger] callbacks[i]).0 != app_id by {
                        if i > 0 {
                            assert(callbacks[i] == t[i - 1]);
                        }
                    }
                },
            }
        }
    }
}

/// The result code of the first `UserStatsReceived` callback for `app_id`;
/// callbacks for other apps are passed over.
pub fn first_result_for_app(callbacks: &Vec<(u32, i32)>, app_id: u32) -> (code: Option<i32>)
    ensures
        code == first_result_for(callbacks@, app_id),
{
    let mut i: usize = 0;
    assert(callbacks@.skip(0) =~= callbacks@);
    while i < callbacks.len()
        invariant
            i <= callbacks.len(),
            first_result_for(callbacks@, app_id) == first_result_for(callbacks@.skip(i as int), app_id),
        decreases callbacks.len() - i,
    {
        assert(callbacks@.skip(i as int).drop_first() =~= callbacks@.skip(i + 1));
        let (id, result) = callbacks[i];
        if id == app_id {
            return Some(result);
        }
        i = i + 1;
    }
    None
}

/// Stats access through `IClientUserStats`, which takes the app with every
/// call, so the process never registers as running it.
pub struct Stealth<S, M> {
    steam: S,
    map: M,
    app_id: u32,
    load: LoadState,
    frames: u32,
    language: Option<String>,
}

impl<S, M> Stealth<S, M> {
    /// Stealth access to `app_id`, given the opened `IClientUserStats` map;
    /// a map that could not be opened means the connection failed.
    pub fn new<E>(steam: S, map: Result<M, E>, app_id: u32) -> (out: Result<Self, SamError>)
        ensures
            match map {
                Ok(m) => out matches Ok(st) && st.spec_map() == m && st.spec_steam() == steam
                    && st.spec_app_id() == app_id && st.load_view() == LoadView::fresh()
                    && st.spec_frames() == 0
                    && st.spec_language() == None::<Seq<char>>,
                Err(_) => out == Err::<Self, SamError>(SamError::SteamConnectionFailed),
            },
    {
        match map {
            Ok(map) => Ok(Self { steam, map, app_id, load: LoadState::new(), frames: 0, language: None }),
            Err(_) => Err(SamError::SteamConnectionFailed),
        }
    }

    /// The connected Steam client.
    pub closed spec fn spec_steam(&self) -> S {
        self.steam
    }

    /// The `IClientUserStats` map.
    pub closed spec fn spec_map(&self) -> M {
        self.map
    }

    /// The app whose stats are accessed.
    pub closed spec fn spec_app_id(&self) -> u32 {
        self.app_id
    }

    /// The load state.
    pub closed spec fn load_view(&self) -> LoadView {
        self.load@
    }

    /// Frames spent so far awaiting the app's stats.
    pub closed spec fn spec_frames(&self) -> u32 {
        self.frames
    }

    /// The cached game language.
    pub closed spec fn spec_language(&self) -> Option<Seq<char>> {
        match self.language {
            Some(l) => Some(l@),
            None => None,
        }
    }

    /// The connected Steam client.
    pub fn steam(&self) -> (s: &S)
        ensures
            *s == self.spec_steam(),
    {
        &self.steam
    }

    /// The `IClientUserStats` map.
    pub fn map(&self) -> (m: &M)
        ensures
            *m == self.spec_map(),
    {
        &self.map
    }

    /// The app whose stats are accessed.
    pub fn app_id(&self) -> (id: u32)
        ensures
            id == self.spec_app_id(),
    {
        self.app_id
    }

    /// Whether the app's stats are loaded.
    pub fn loaded(&self) -> (b: bool)
        ensures
            b == self.load_view().loaded,
    {
        self.load.loaded()
    }

    /// The first decision of `prime`: answer at once, or request the stats.
    pub fn prime_begin(&self) -> (step: PrimeStep)
        ensures
            step == self.load_view().prime_decision(),
    {
        self.load.prime_begin()
    }

    /// Records Steam's answer to `RequestCurrentStats`; an accepted request
    /// starts the wait for its callback afresh.
    pub fn prime_requested(&mut self, accepted: Result<bool, SteamClientError>) -> (step: PrimeStep)
        requires
            old(self).load_view().prime_decision() == PrimeStep::SendRequest,
        ensures
            final(self).load_view() == old(self).load_view().after_request(accepted),
            step == LoadView::request_step(accepted),
            final(self).spec_frames() == 0,
            final(self).spec_app_id() == old(self).spec_app_id(),
            final(self).spec_language() == old(self).spec_language(),
    {
        self.frames = 0;
        self.load.record_request(accepted)
    }

    /// Records one frame of the wait for the app's stats, with the
    /// `UserStatsReceived` callbacks drained in it: the app's callback settles
    /// the load; without it the wait goes on, until `USER_STATS_FRAMES`
    /// frames are spent and the request has timed out (loading from cached
    /// stats, with nothing more sent).
    pub fn prime_frame(&mut self, callbacks: &Vec<(u32, i32)>) -> (step: PrimeFrame)
        requires
            old(self).load_view().load_attempted,
            old(self).load_view().refusals == 0,
            old(self).spec_frames() < USER_STATS_FRAMES,
        ensures
            match first_result_for(callbacks@, old(self).spec_app_id()) {
                Some(code) => step == PrimeFrame::Loaded(code == ERESULT_OK)
                    && final(self).load_view() == old(self).load_view().after_callback(code),
                None => final(self).load_view() == old(self).load_view()
                    && final(self).spec_frames() == old(self).spec_frames() + 1
                    && step == if old(self).spec_frames() + 1 >= USER_STATS_FRAMES {
                        PrimeFrame::TimedOut
                    } else {
                        PrimeFrame::Waiting
                    },
            },
            final(self).spec_app_id() == old(self).spec_app_id(),
            final(self).spec_language() == old(self).spec_language(),
    {
        match first_result_for_app(callbacks, self.app_id) {
            Some(code) => PrimeFrame::Loaded(self.load.record_callback(code)),
            None => {
                self.frames = self.frames + 1;
                if self.frames >= USER_STATS_FRAMES {
                    PrimeFrame::TimedOut
                } else {
                    PrimeFrame::Waiting
                }
            },
        }
    }

    /// Steam silently declines writes for a game whose stats it has not
    /// loaded: a write first loads them, unless they are loaded already or
    /// Steam reports being offline.
    pub fn needs_load<E>(&self, logged_on: Result<bool, E>) -> (load: bool)
        ensures
            load == (!self.load_view().loaded && !(logged_on matches Ok(false))),
    {
        if self.load.loaded() {
            return false;
        }
        match logged_on {
            Ok(false) => false,
            _ => true,
        }
    }

    /// Records the answer of a store or reset (see `LoadView::after_store`).
    pub fn store_answered(&mut self, stored: &Result<bool, SteamClientError>)
        ensures
            final(self).load_view() == old(self).load_view().after_store(*stored),
            final(self).spec_app_id() == old(self).spec_app_id(),
            final(self).spec_language() == old(self).spec_language(),
    {
        self.load.forget_load_if_stale(stored)
    }

    /// The global-percentages call handle to await, if Steam accepted the
    /// request: an error or a null handle is a refusal.
    pub fn percentages_handle(handle: Result<u64, SteamClientError>) -> (h: Option<u64>)
        ensures
            match handle {
                Ok(v) => h == if v != 0 { Some(v) } else { None::<u64> },
                Err(_) => h == None::<u64>,
            },
    {
        match handle {
            Ok(v) => if v != 0 {
                Some(v)
            } else {
                None
            },
            Err(_) => None,
        }
    }

    /// Global percentages are served only when their callback came with an OK code.
    pub fn percentages_ready(ready: Option<i32>) -> (served: bool)
        ensures
            served == (ready == Some(ERESULT_OK)),
    {
        match ready {
            Some(code) => code == ERESULT_OK,
            None => false,
        }
    }

    /// Another user's stats, once their callback was awaited: none in time is
    /// a `Timeout`, a non-OK code a private profile.
    pub fn other_user_stats_received(received: Option<i32>) -> (out: Result<(), SamError>)
        ensures
            match received {
                Some(code) => if code == ERESULT_OK {
                    out == Ok::<(), SamError>(())
                } else {
                    out == Err::<(), SamError>(SamError::ProfilePrivate)
                },
                None => out == Err::<(), SamError>(SamError::Timeout),
            },
    {
        match received {
            Some(code) => if code == ERESULT_OK {
                Ok(())
            } else {
                Err(SamError::ProfilePrivate)
            },
            None => Err(SamError::Timeout),
        }
    }

    /// The game language found earlier, if any.
    pub fn cached_language(&self) -> (l: Option<String>)
        ensures
            match l {
                Some(s) => self.spec_language() == Some(s@),
                None => self.spec_language() == None::<Seq<char>>,
            },
    {
        match &self.language {
            Some(l) => Some(l.clone()),
            None => None,
        }
    }

    /// Settles the game language: the user's per-app override if any, else the
    /// client's current language; it is cached for later calls.
    pub fn remember_language(&mut self, override_language: Option<String>, current: String) -> (l: String)
        ensures
            l@ == match override_language {
                Some(o) => o@,
                None => current@,
            },
            final(self).spec_language() == Some(l@),
            final(self).spec_app_id() == old(self).spec_app_id(),
            final(self).load_view() == old(self).load_view(),
    {
        let l = match override_language {
            Some(o) => o,
            None => current,
        };
        self.language = Some(l.clone());
        l
    }
}

} // verus!
