use cbar::preparation::{
    apply_desired_visibility, launcher_request, prepared_step, record_internal_dismiss, status,
    ExplicitRequest, LauncherRequest, PreparationOrder, PreparationState, PreparedStep,
    VisibilityAction,
};

#[test]
fn newest_started_preparation_wins_even_when_it_finishes_first() {
    let mut order = PreparationOrder::default();
    let slow_warm = order.begin();
    let explicit_show = order.begin();

    assert!(order.is_current(explicit_show));
    assert!(!order.is_current(slow_warm));

    // Finishing the stale warmup later cannot make it current again.
    assert!(!order.is_current(slow_warm));
    assert!(order.is_current(explicit_show));
}

#[test]
fn internal_dismiss_invalidates_inflight_prepare_and_stays_hidden_on_refresh() {
    let mut preparation = PreparationState::default();
    let mut desired_visible = true;
    let ExplicitRequest::Start(inflight_prepare) = preparation.request_explicit() else {
        panic!("first explicit preparation should start");
    };

    record_internal_dismiss(&mut desired_visible, &mut preparation);
    assert!(!desired_visible);
    assert!(!preparation.is_current(inflight_prepare));

    assert_eq!(preparation.request_explicit(), ExplicitRequest::Pending);
    let refresh = preparation
        .finish_explicit(inflight_prepare)
        .expect("pending refresh should start after stale preparation finishes");
    assert!(preparation.is_current(refresh));
    assert!(!desired_visible);
}

#[test]
fn startup_warm_cannot_invalidate_a_cold_explicit_show() {
    let mut preparation = PreparationState::default();
    let ExplicitRequest::Start(explicit_show) = preparation.request_explicit() else {
        panic!("cold explicit show should start");
    };

    assert_eq!(preparation.request_warm(), None);
    assert!(preparation.is_current(explicit_show));
    assert_eq!(preparation.finish_explicit(explicit_show), None);
}

#[test]
fn explicit_show_supersedes_an_already_running_warmup() {
    let mut preparation = PreparationState::default();
    let warm = preparation.request_warm().expect("warmup should start");
    let ExplicitRequest::Start(explicit_show) = preparation.request_explicit() else {
        panic!("explicit show should not wait behind speculative warmup");
    };

    assert!(!preparation.is_current(warm));
    assert!(preparation.is_current(explicit_show));
    preparation.finish_warm(warm);
    assert!(preparation.is_current(explicit_show));
}

#[test]
fn repeated_explicit_requests_coalesce_onto_one_newest_run() {
    let mut preparation = PreparationState::default();
    let ExplicitRequest::Start(first) = preparation.request_explicit() else {
        panic!("first request should start");
    };
    assert_eq!(preparation.request_explicit(), ExplicitRequest::Pending);
    assert_eq!(preparation.request_explicit(), ExplicitRequest::Pending);
    assert!(!preparation.is_current(first));

    let newest = preparation
        .finish_explicit(first)
        .expect("coalesced request should start exactly once");
    assert!(preparation.is_current(newest));
    assert_eq!(preparation.finish_explicit(newest), None);
}

#[test]
fn requests_show_and_hide_what_is_there() {
    assert_eq!(status(None), "uninitialized");
    assert_eq!(status(Some(true)), "visible");
    assert_eq!(status(Some(false)), "resident");
    let (wanted, _, _) = launcher_request(LauncherRequest::Hide, true, Some(true));
    assert!(!wanted);
    let (wanted, action, _) = launcher_request(LauncherRequest::Show, false, Some(false));
    assert!(wanted);
    assert_eq!(action, VisibilityAction::Show);
    let (wanted, _, _) = launcher_request(LauncherRequest::Toggle, true, Some(true));
    assert!(!wanted);
    assert_eq!(apply_desired_visibility(true, None), VisibilityAction::Nothing);
    assert_eq!(apply_desired_visibility(true, Some(false)), VisibilityAction::Show);
    assert_eq!(apply_desired_visibility(false, Some(true)), VisibilityAction::Hide);
}

#[test]
fn a_stale_preparation_is_discarded() {
    let mut preparation = PreparationState::default();
    let ExplicitRequest::Start(first) = preparation.request_explicit() else {
        panic!("first request should start");
    };
    assert_eq!(
        prepared_step(&preparation, first, true, false, true),
        PreparedStep::PrepareIcons
    );
    assert_eq!(
        prepared_step(&preparation, first, true, true, true),
        PreparedStep::Install
    );
    preparation.invalidate();
    assert_eq!(
        prepared_step(&preparation, first, true, true, true),
        PreparedStep::Discard
    );
}
