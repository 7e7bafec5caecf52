//! When the launcher prepares its window content, and which finished
//! preparation may still be used.

use vstd::prelude::*;

verus! {

/// Numbers the preparations; only the newest one is current.
#[derive(Clone, Copy, Debug, PartialEq, Eq, Structural)]
pub struct PreparationOrder(pub u64);

/// The number that follows `n`: zero is skipped, because it stands for
/// "nothing was ever begun".
pub open spec fn following(n: u64) -> u64 {
    if n == u64::MAX {
        1
    } else {
        (n + 1) as u64
    }
}

impl Default for PreparationOrder {
    fn default() -> (r: Self)
        ensures
            r.0 == 0,
    {
        PreparationOrder(0)
    }
}

impl PreparationOrder {
    /// Begins the newest preparation and returns its generation.
    pub fn begin(&mut self) -> (generation: u64)
        ensures
            generation == following(old(self).0),
            final(self).0 == generation,
    {
        let generation: u64 = if self.0 == u64::MAX {
            1
        } else {
            self.0 + 1
        };
        self.0 = generation;
        generation
    }

    /// Whether no preparation began after this one.
    pub fn is_current(&self, generation: u64) -> (r: bool)
        ensures
            r == (self.0 == generation),
    {
        self.0 == generation
    }
}

/// A begun preparation is never current under the number it replaced, and is
/// never numbered zero.
pub proof fn begin_supersedes(n: u64)
    ensures
        following(n) != n,
        following(n) != 0,
{
}

/// What an explicit request leads to.
#[derive(Clone, Copy, Debug, PartialEq, Eq, Structural)]
pub enum ExplicitRequest {
    Start(u64),
    Pending,
}

/// Which preparations run, and whether one more explicit run is owed.
pub struct PreparationState {
    pub order: PreparationOrder,
    pub explicit_in_flight: Option<u64>,
    pub explicit_pending: bool,
    pub warm_in_flight: Option<u64>,
}

impl Default for PreparationState {
    fn default() -> (r: Self)
        ensures
            r.order.0 == 0,
            r.explicit_in_flight is None,
            !r.explicit_pending,
            r.warm_in_flight is None,
    {
        PreparationState {
            order: PreparationOrder(0),
            explicit_in_flight: None,
            explicit_pending: false,
            warm_in_flight: None,
        }
    }
}

impl PreparationState {
    /// An explicit run is owed only while one is in flight.
    pub open spec fn wf(self) -> bool {
        self.explicit_pending ==> self.explicit_in_flight is Some
    }

    /// The state after an explicit request.
    pub open spec fn requested(self) -> PreparationState {
        let newest = following(self.order.0);
        if self.explicit_in_flight is Some {
            PreparationState {
                order: PreparationOrder(newest),
                explicit_pending: true,
                ..self
            }
        } else {
            PreparationState {
                order: PreparationOrder(newest),
                explicit_in_flight: Some(newest),
                ..self
            }
        }
    }

    /// The state after the explicit run of `generation` finished.
    pub open spec fn finished(self, generation: u64) -> PreparationState {
        let newest = following(self.order.0);
        if self.explicit_in_flight != Some(generation) {
            self
        } else if self.explicit_pending {
            PreparationState {
                order: PreparationOrder(newest),
                explicit_in_flight: Some(newest),
                explicit_pending: false,
                ..self
            }
        } else {
            PreparationState { explicit_in_flight: None, ..self }
        }
    }

    /// Asks for an explicit preparation. While one is in flight the request is
    /// remembered in one bit, however often it is repeated.
    pub fn request_explicit(&mut self) -> (r: ExplicitRequest)
        ensures
            *final(self) == old(self).requested(),
            r == (if old(self).explicit_in_flight is Some {
                ExplicitRequest::Pending
            } else {
                ExplicitRequest::Start(following(old(self).order.0))
            }),
    {
        if self.explicit_in_flight.is_some() {
            self.explicit_pending = true;
            let _newest: u64 = self.order.begin();
            ExplicitRequest::Pending
        } else {
            let generation: u64 = self.order.begin();
            self.explicit_in_flight = Some(generation);
            ExplicitRequest::Start(generation)
        }
    }

    /// Records that an explicit run finished; the generation of the run that is
    /// to start next, if one is owed.
    pub fn finish_explicit(&mut self, generation: u64) -> (r: Option<u64>)
        ensures
            *final(self) == old(self).finished(generation),
            r == (if old(self).explicit_in_flight == Some(generation)
                && old(self).explicit_pending {
                Some(following(old(self).order.0))
            } else {
                None
            }),
    {
        let matches_run = match self.explicit_in_flight {
            Some(running) => running == generation,
            None => false,
        };
        if !matches_run {
            return None;
        }
        self.explicit_in_flight = None;
        if self.explicit_pending {
            self.explicit_pending = false;
            let newest: u64 = self.order.begin();
            self.explicit_in_flight = Some(newest);
            Some(newest)
        } else {
            None
        }
    }

    /// Asks for a speculative preparation, which never supersedes another one.
    pub fn request_warm(&mut self) -> (r: Option<u64>)
        ensures
            if old(self).explicit_in_flight is Some || old(self).explicit_pending || old(
                self,
            ).warm_in_flight is Some {
                r is None && *final(self) == *old(self)
            } else {
                let newest = following(old(self).order.0);
                &&& r == Some(newest)
                &&& *final(self) == (PreparationState {
                    order: PreparationOrder(newest),
                    warm_in_flight: Some(newest),
                    ..*old(self)
                })
            },
    {
        if self.explicit_in_flight.is_some() || self.explicit_pending
            || self.warm_in_flight.is_some() {
            return None;
        }
        let generation: u64 = self.order.begin();
        self.warm_in_flight = Some(generation);
        Some(generation)
    }

    /// Records that the speculative run of `generation` finished.
    pub fn finish_warm(&mut self, generation: u64)
        ensures
            *final(self) == (PreparationState {
                warm_in_flight: if old(self).warm_in_flight == Some(generation) {
                    None
                } else {
                    old(self).warm_in_flight
                },
                ..*old(self)
            }),
    {
        if let Some(running) = self.warm_in_flight {
            if running == generation {
                self.warm_in_flight = None;
            }
        }
    }

    /// Makes every begun preparation stale.
    pub fn invalidate(&mut self)
        ensures
            *final(self) == (PreparationState {
                order: PreparationOrder(following(old(self).order.0)),
                ..*old(self)
            }),
    {
        let _newest: u64 = self.order.begin();
    }

    pub fn is_current(&self, generation: u64) -> (r: bool)
        ensures
            r == (self.order.0 == generation),
    {
        self.order.is_current(generation)
    }
}

/// The user dismissed the launcher: it stays hidden, and a preparation begun
/// for the showing that just ended is no longer current.
pub fn record_internal_dismiss(desired_visible: &mut bool, preparation: &mut PreparationState)
    ensures
        !*final(desired_visible),
        *final(preparation) == (PreparationState {
            order: PreparationOrder(following(old(preparation).order.0)),
            ..*old(preparation)
        }),
{
    *desired_visible = false;
    preparation.invalidate();
}

/// Any further explicit requests made while one runs coalesce: the flags are
/// the same after two requests as after one, the run in flight is stale, and
/// exactly one newer run starts when it finishes.
pub proof fn repeated_requests_coalesce(s: PreparationState, running: u64)
    requires
        s.explicit_in_flight == Some(running),
    ensures
        ({
            let once = s.requested();
            let twice = once.requested();
            &&& twice.explicit_pending && once.explicit_pending
            &&& twice.explicit_in_flight == Some(running)
            &&& running == s.order.0 ==> once.order.0 != running
            &&& twice.finished(running).explicit_in_flight == Some(
                twice.finished(running).order.0,
            )
            &&& !twice.finished(running).explicit_pending
            &&& twice.finished(running).finished(
                twice.finished(running).order.0,
            ).explicit_in_flight is None
        }),
{
}

/// Requests and finishes keep the rule that a run is owed only while one runs.
pub proof fn steps_keep_wf(s: PreparationState, generation: u64)
    requires
        s.wf(),
    ensures
        s.requested().wf(),
        s.finished(generation).wf(),
{
}

/// What the launcher window has to do to match the wanted visibility.
#[derive(Clone, Copy, Debug, PartialEq, Eq, Structural)]
pub enum VisibilityAction {
    Nothing,
    Show,
    Hide,
}

/// The step that brings a resident window (`ui_visible` is none without one) to
/// the wanted visibility.
pub fn apply_desired_visibility(desired_visible: bool, ui_visible: Option<bool>) -> (r:
    VisibilityAction)
    ensures
        r == (match ui_visible {
            Some(visible) => if desired_visible && !visible {
                VisibilityAction::Show
            } else if !desired_visible && visible {
                VisibilityAction::Hide
            } else {
                VisibilityAction::Nothing
            },
            None => VisibilityAction::Nothing,
        }),
{
    match ui_visible {
        None => VisibilityAction::Nothing,
        Some(visible) => {
            if desired_visible && !visible {
                VisibilityAction::Show
            } else if !desired_visible && visible {
                VisibilityAction::Hide
            } else {
                VisibilityAction::Nothing
            }
        },
    }
}

/// A request that arrives over the control socket or from the bar.
#[derive(Clone, Copy, Debug, PartialEq, Eq, Structural)]
pub enum LauncherRequest {
    Show,
    Hide,
    Toggle,
    Refresh,
}

/// The visibility wanted after a request, the step of the resident window, and
/// whether a preparation has to be requested.
pub fn launcher_request(
    request: LauncherRequest,
    desired_visible: bool,
    ui_visible: Option<bool>,
) -> (r: (bool, VisibilityAction, bool))
    ensures
        ({
            let shown = match ui_visible {
                Some(visible) => visible,
                None => desired_visible,
            };
            match request {
                LauncherRequest::Show => r.0 && r.2,
                LauncherRequest::Hide => !r.0 && !r.2,
                LauncherRequest::Toggle => r.0 == !shown && r.2 == !shown,
                LauncherRequest::Refresh => r.0 == desired_visible && r.2,
            }
        }),
        r.1 is Show == (request !is Refresh && r.0 && ui_visible == Some(false)),
        r.1 is Hide == (request !is Refresh && !r.0 && ui_visible == Some(true)),
{
    match request {
        LauncherRequest::Show => (true, apply_desired_visibility(true, ui_visible), true),
        LauncherRequest::Hide => (false, apply_desired_visibility(false, ui_visible), false),
        LauncherRequest::Toggle => {
            let shown = match ui_visible {
                Some(visible) => visible,
                None => desired_visible,
            };
            (!shown, apply_desired_visibility(!shown, ui_visible), !shown)
        },
        LauncherRequest::Refresh => (desired_visible, VisibilityAction::Nothing, true),
    }
}

/// The status word of the launcher.
pub fn status(ui_visible: Option<bool>) -> (r: &'static str)
    ensures
        r@ == (match ui_visible {
            Some(true) => "visible"@,
            Some(false) => "resident"@,
            None => "uninitialized"@,
        }),
{
    match ui_visible {
        Some(visible) => if visible {
            "visible"
        } else {
            "resident"
        },
        None => "uninitialized",
    }
}

/// Where a preparation goes when its worker has finished one step.
#[derive(Clone, Copy, Debug, PartialEq, Eq, Structural)]
pub enum PreparedStep {
    /// Capture the icon theme and prepare icons off the event thread.
    PrepareIcons,
    /// Build, replace or refresh the window with the prepared content.
    Install,
    /// Drop the result.
    Discard,
}

/// Decides on a finished worker: a stale or failed one is dropped, a current one
/// needs a display before its icons are prepared.
pub fn prepared_step(
    state: &PreparationState,
    generation: u64,
    worker_succeeded: bool,
    icons_ready: bool,
    display_open: bool,
) -> (r: PreparedStep)
    ensures
        r == (if !worker_succeeded || state.order.0 != generation {
            PreparedStep::Discard
        } else if icons_ready {
            PreparedStep::Install
        } else if display_open {
            PreparedStep::PrepareIcons
        } else {
            PreparedStep::Discard
        }),
{
    if !worker_succeeded || !state.is_current(generation) {
        PreparedStep::Discard
    } else if icons_ready {
        PreparedStep::Install
    } else if display_open {
        PreparedStep::PrepareIcons
    } else {
        PreparedStep::Discard
    }
}

/// Orders count up by one and begin again at one.
pub proof fn orders_count_up(n: u64)
    ensures
        n < u64::MAX ==> following(n) == n + 1,
        following(u64::MAX) == 1,
{
}

/// A request starts a run where none runs, under the newest order, and is owed
/// where one runs; the run itself and a warming one stay as they are.
pub proof fn requests_start_or_wait(s: PreparationState)
    ensures
        ({
            let after = s.requested();
            &&& after.order.0 == following(s.order.0)
            &&& after.warm_in_flight == s.warm_in_flight
            &&& s.explicit_in_flight is None ==> after.explicit_in_flight == Some(after.order.0)
                && after.explicit_pending == s.explicit_pending
            &&& s.explicit_in_flight is Some ==> after.explicit_in_flight == s.explicit_in_flight
                && after.explicit_pending
        }),
{
}

/// Only the run that is under way can finish. Where one more is owed it starts
/// then, under a new order; else nothing runs. A warming run stays as it is.
pub proof fn finishing_starts_what_is_owed(s: PreparationState, generation: u64)
    ensures
        ({
            let after = s.finished(generation);
            &&& after.warm_in_flight == s.warm_in_flight
            &&& s.explicit_in_flight != Some(generation) ==> after == s
            &&& s.explicit_in_flight == Some(generation) ==> !after.explicit_pending
            &&& s.explicit_in_flight == Some(generation) && s.explicit_pending
                ==> after.explicit_in_flight == Some(after.order.0) && after.order.0 == following(
                s.order.0,
            )
            &&& s.explicit_in_flight == Some(generation) && !s.explicit_pending
                ==> after.explicit_in_flight is None && after.order.0 == s.order.0
        }),
{
}

} // verus!
