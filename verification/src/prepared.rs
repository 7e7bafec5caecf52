//! What is loaded for the launcher before it is shown, and when a loaded state
//! replaces the one that is shown.

use crate::column::{copy_texts, empty_machine, Machine};
use crate::config::{Config, Layout, Theme};
use crate::config_change::same_config;
use crate::style::{canonicalize_config_colors, ParsedColours};
use crate::text::{same_text, TextMap};
use vstd::prelude::*;
use vstd::string::*;

verus! {

/// What the launcher keeps on disk besides its configuration: where the user
/// filed applications, what is hidden, and what was launched how often, each as
/// it is stored, and whether it may be written.
#[derive(Debug, Clone, PartialEq, Eq)]
pub struct MutableStateSnapshot {
    pub placement: String,
    pub placement_writable: bool,
    pub visibility: String,
    pub visibility_writable: bool,
    pub usage: String,
    pub usage_writable: bool,
}

/// What a snapshot holds.
#[verifier::ext_equal]
pub struct SnapshotView {
    pub placement: Seq<char>,
    pub placement_writable: bool,
    pub visibility: Seq<char>,
    pub visibility_writable: bool,
    pub usage: Seq<char>,
    pub usage_writable: bool,
}

impl View for MutableStateSnapshot {
    type V = SnapshotView;

    open spec fn view(&self) -> SnapshotView {
        SnapshotView {
            placement: self.placement@,
            placement_writable: self.placement_writable,
            visibility: self.visibility@,
            visibility_writable: self.visibility_writable,
            usage: self.usage@,
            usage_writable: self.usage_writable,
        }
    }
}

fn same_snapshot(a: &MutableStateSnapshot, b: &MutableStateSnapshot) -> (r: bool)
    ensures
        r == (a@ == b@),
{
    let r = same_text(a.placement.as_str(), b.placement.as_str()) && a.placement_writable
        == b.placement_writable && same_text(a.visibility.as_str(), b.visibility.as_str())
        && a.visibility_writable == b.visibility_writable && same_text(
        a.usage.as_str(),
        b.usage.as_str(),
    ) && a.usage_writable == b.usage_writable;
    proof {
        if r {
            assert(a@ =~= b@);
        }
    }
    r
}

fn copy_snapshot(s: &MutableStateSnapshot) -> (r: MutableStateSnapshot)
    ensures
        r@ == s@,
{
    MutableStateSnapshot {
        placement: s.placement.clone(),
        placement_writable: s.placement_writable,
        visibility: s.visibility.clone(),
        visibility_writable: s.visibility_writable,
        usage: s.usage.clone(),
        usage_writable: s.usage_writable,
    }
}

/// What to do with a loaded state.
#[derive(Debug, Clone, Copy, PartialEq, Eq, Structural)]
pub struct ReplacementDecision {
    pub rebuild: bool,
    /// The state of the launcher goes over into the rebuilt one.
    pub transfer_current: bool,
    /// What is on disk is what the launcher holds.
    pub advance_baseline: bool,
}

/// What to do with a loaded state. While a launch is under way nothing is
/// replaced. A changed configuration is taken over, together with changes that
/// are not on disk yet; without one, only what somebody else changed on disk is.
pub open spec fn decision_of(
    config_changed: bool,
    launches_inflight: bool,
    baseline: SnapshotView,
    current: SnapshotView,
    prepared: SnapshotView,
) -> ReplacementDecision {
    ReplacementDecision {
        rebuild: !launches_inflight && (config_changed || (current == baseline && prepared
            != current)),
        transfer_current: !launches_inflight && config_changed && current != baseline && prepared
            != current,
        advance_baseline: !launches_inflight && prepared == current,
    }
}

/// What to do with a loaded state.
pub fn replacement_decision(
    config_changed: bool,
    launches_inflight: bool,
    baseline: &MutableStateSnapshot,
    current: &MutableStateSnapshot,
    prepared: &MutableStateSnapshot,
) -> (r: ReplacementDecision)
    ensures
        r == decision_of(config_changed, launches_inflight, baseline@, current@, prepared@),
{
    if launches_inflight {
        return ReplacementDecision {
            rebuild: false,
            transfer_current: false,
            advance_baseline: false,
        };
    }
    let saved = same_snapshot(prepared, current);
    let untouched = same_snapshot(current, baseline);
    ReplacementDecision {
        rebuild: config_changed || (untouched && !saved),
        transfer_current: config_changed && !untouched && !saved,
        advance_baseline: saved,
    }
}

/// A change that the user made and that is not on disk yet survives: either
/// nothing is rebuilt, or the change goes over into what is rebuilt.
pub proof fn live_edits_survive(
    config_changed: bool,
    launches_inflight: bool,
    baseline: SnapshotView,
    current: SnapshotView,
    prepared: SnapshotView,
)
    requires
        current != baseline,
    ensures
        ({
            let d = decision_of(config_changed, launches_inflight, baseline, current, prepared);
            !d.rebuild || d.transfer_current || prepared == current
        }),
{
}

/// What is loaded for the launcher. Beside each state stands what went wrong with
/// reading it.
#[derive(Debug)]
pub struct PreparedLauncher {
    pub config: Result<Option<Config>, String>,
    pub placement: (String, Option<String>),
    pub visibility: (String, Option<String>),
    pub usage: (String, Option<String>),
    /// The icon size and the stamp of the icon theme that icons were prepared for.
    pub icons: Option<(i32, u64)>,
}

/// What stands beside a state that may not be written.
pub open spec fn retained_error(writable: bool, kind: Seq<char>) -> Option<Seq<char>> {
    if writable {
        None
    } else {
        Some("retained "@ + kind + " state after an earlier read failure"@)
    }
}

/// What stands beside the three parts of a state: the placement, the visibility
/// and the usage.
pub open spec fn retained_errors(state: SnapshotView) -> (
    Option<Seq<char>>,
    Option<Seq<char>>,
    Option<Seq<char>>,
) {
    (
        retained_error(state.placement_writable, "placement"@),
        retained_error(state.visibility_writable, "visibility"@),
        retained_error(state.usage_writable, "usage"@),
    )
}

fn retained_message(writable: bool, kind: &str) -> (r: Option<String>)
    ensures
        crate::text::opt_text(r) == retained_error(writable, kind@),
{
    if writable {
        return None;
    }
    let mut message = "retained ".to_owned();
    message.append(kind);
    message.append(" state after an earlier read failure");
    Some(message)
}

impl PreparedLauncher {
    /// The state that was loaded.
    pub open spec fn state(self) -> SnapshotView {
        SnapshotView {
            placement: self.placement.0@,
            placement_writable: self.placement.1 is None,
            visibility: self.visibility.0@,
            visibility_writable: self.visibility.1 is None,
            usage: self.usage.0@,
            usage_writable: self.usage.1 is None,
        }
    }

    /// Why the placement, the visibility and the usage could not be read.
    pub open spec fn errors(self) -> (Option<Seq<char>>, Option<Seq<char>>, Option<Seq<char>>) {
        (
            crate::text::opt_text(self.placement.1),
            crate::text::opt_text(self.visibility.1),
            crate::text::opt_text(self.usage.1),
        )
    }

    /// The state that was loaded, with the current one where reading failed.
    pub open spec fn retained(self, current: SnapshotView) -> SnapshotView {
        SnapshotView {
            placement: if self.placement.1 is Some {
                current.placement
            } else {
                self.placement.0@
            },
            placement_writable: self.placement.1 is None,
            visibility: if self.visibility.1 is Some {
                current.visibility
            } else {
                self.visibility.0@
            },
            visibility_writable: self.visibility.1 is None,
            usage: if self.usage.1 is Some {
                current.usage
            } else {
                self.usage.0@
            },
            usage_writable: self.usage.1 is None,
        }
    }

    /// The state that was loaded.
    pub fn state_snapshot(&self) -> (r: MutableStateSnapshot)
        ensures
            r@ == self.state(),
    {
        MutableStateSnapshot {
            placement: self.placement.0.clone(),
            placement_writable: self.placement.1.is_none(),
            visibility: self.visibility.0.clone(),
            visibility_writable: self.visibility.1.is_none(),
            usage: self.usage.0.clone(),
            usage_writable: self.usage.1.is_none(),
        }
    }

    /// Puts a state in place of the one that was loaded.
    pub fn replace_state(&mut self, snapshot: MutableStateSnapshot)
        ensures
            final(self).state() == snapshot@,
            final(self).errors() == retained_errors(snapshot@),
            final(self).config == old(self).config,
            final(self).icons == old(self).icons,
    {
        self.placement = (
            snapshot.placement,
            retained_message(snapshot.placement_writable, "placement"),
        );
        self.visibility = (
            snapshot.visibility,
            retained_message(snapshot.visibility_writable, "visibility"),
        );
        self.usage = (snapshot.usage, retained_message(snapshot.usage_writable, "usage"));
        assert(self.state() =~= snapshot@);
    }

    /// Keeps the current state where reading failed.
    pub fn retain_failed_state_from(&mut self, current: &MutableStateSnapshot)
        ensures
            final(self).state() == old(self).retained(current@),
            final(self).config == old(self).config,
            final(self).icons == old(self).icons,
            final(self).placement.1 == old(self).placement.1,
            final(self).visibility.1 == old(self).visibility.1,
            final(self).usage.1 == old(self).usage.1,
    {
        if self.placement.1.is_some() {
            self.placement.0 = current.placement.clone();
        }
        if self.visibility.1.is_some() {
            self.visibility.0 = current.visibility.clone();
        }
        if self.usage.1.is_some() {
            self.usage.0 = current.usage.clone();
        }
    }
}

/// Whether an optional configuration differs from another one.
pub open spec fn config_differs(current: Option<Config>, next: Option<Config>) -> bool {
    match (current, next) {
        (Some(a), Some(b)) => !crate::config_change::config_same(a, b),
        (None, None) => false,
        _ => true,
    }
}

/// Whether the configuration was loaded and differs from the current one.
pub fn prepared_config_requires_rebuild(
    current: &Option<Config>,
    prepared: &PreparedLauncher,
) -> (r: bool)
    ensures
        r == (match prepared.config {
            Ok(next) => config_differs(*current, next),
            Err(_) => false,
        }),
{
    match &prepared.config {
        Ok(next) => match (current, next) {
            (Some(a), Some(b)) => !same_config(a, b),
            (None, None) => false,
            _ => true,
        },
        Err(_) => false,
    }
}

/// Whether icons were prepared for something else than what is shown.
pub open spec fn icons_differ(prepared: Option<(i32, u64)>, shown: Option<(i32, u64)>) -> bool {
    prepared is Some && prepared != shown
}

/// Whether a loaded state can be shown at all: its configuration was read, and
/// its colours were understood.
pub open spec fn can_replace(prepared: PreparedLauncher, colours_valid: bool) -> bool {
    match prepared.config {
        Ok(Some(_)) => colours_valid,
        Ok(None) => true,
        Err(_) => false,
    }
}

/// What to do with a loaded state that can be shown.
pub open spec fn replacement_of(
    prepared: PreparedLauncher,
    source_config: Option<Config>,
    icon_identity: Option<(i32, u64)>,
    launches_inflight: bool,
    baseline: SnapshotView,
    current: SnapshotView,
) -> ReplacementDecision {
    decision_of(
        (match prepared.config {
            Ok(next) => config_differs(source_config, next),
            Err(_) => false,
        }) || icons_differ(prepared.icons, icon_identity),
        launches_inflight,
        baseline,
        current,
        prepared.retained(current),
    )
}

/// Decides whether a loaded state replaces the one that is shown, and makes it
/// ready for that. `colours_valid` says whether the colours of its configuration
/// were understood.
pub fn prepare_replacement(
    prepared: &mut PreparedLauncher,
    colours_valid: bool,
    source_config: &Option<Config>,
    icon_identity: Option<(i32, u64)>,
    launches_inflight: bool,
    baseline: &mut MutableStateSnapshot,
    current: &MutableStateSnapshot,
) -> (r: bool)
    ensures
        final(prepared).config == old(prepared).config,
        final(prepared).icons == old(prepared).icons,
        !can_replace(*old(prepared), colours_valid) ==> !r && *final(prepared) == *old(prepared)
            && *final(baseline) == *old(baseline),
        can_replace(*old(prepared), colours_valid) ==> ({
            let d = replacement_of(
                *old(prepared),
                *source_config,
                icon_identity,
                launches_inflight,
                old(baseline)@,
                current@,
            );
            &&& r == d.rebuild
            &&& final(baseline)@ == (if d.advance_baseline {
                current@
            } else {
                old(baseline)@
            })
            &&& final(prepared).state() == (if d.transfer_current {
                current@
            } else {
                old(prepared).retained(current@)
            })
            &&& final(prepared).errors() == (if d.transfer_current {
                retained_errors(current@)
            } else {
                old(prepared).errors()
            })
        }),
{
    match &prepared.config {
        Err(_) => {
            return false;
        },
        Ok(Some(_)) => {
            if !colours_valid {
                return false;
            }
        },
        Ok(None) => {},
    }
    let config_changed = prepared_config_requires_rebuild(source_config, prepared);
    let icon_changed = match (prepared.icons, icon_identity) {
        (Some(a), Some(b)) => a.0 != b.0 || a.1 != b.1,
        (Some(_), None) => true,
        (None, _) => false,
    };
    prepared.retain_failed_state_from(current);
    let prepared_state = prepared.state_snapshot();
    let decision = replacement_decision(
        config_changed || icon_changed,
        launches_inflight,
        baseline,
        current,
        &prepared_state,
    );
    if decision.advance_baseline {
        *baseline = copy_snapshot(current);
    }
    if decision.transfer_current {
        prepared.replace_state(copy_snapshot(current));
    }
    decision.rebuild
}

/// What the launcher is built from.
#[derive(Debug)]
pub struct World {
    pub folders: Vec<String>,
    pub machines: Vec<Machine>,
    pub theme: Theme,
    pub layout: Layout,
    pub terminal: Vec<String>,
    pub surface: String,
    pub keyboard: String,
    pub exit_on_focus_loss: bool,
    pub config: Option<Config>,
    pub error: Option<String>,
}

/// Whether nothing is configured: one folder, no machine, the default looks.
pub open spec fn is_empty_world(w: World) -> bool {
    &&& crate::text::texts(w.folders@) == seq!["Other"@]
    &&& w.machines@.len() == 0
    &&& crate::config::is_default_theme(w.theme)
    &&& crate::config::is_default_layout(w.layout)
    &&& w.terminal@.len() == 0
    &&& w.surface@ == "layer"@
    &&& w.keyboard@ == "exclusive"@
    &&& w.exit_on_focus_loss
    &&& w.config is None
}

fn empty_world(error: Option<String>) -> (r: World)
    ensures
        is_empty_world(r),
        r.error == error,
{
    let mut folders: Vec<String> = Vec::new();
    folders.push("Other".to_owned());
    assert(crate::text::texts(folders@) =~= seq!["Other"@]);
    World {
        folders,
        machines: Vec::new(),
        theme: Theme::default(),
        layout: Layout::default(),
        terminal: Vec::new(),
        surface: "layer".to_owned(),
        keyboard: "exclusive".to_owned(),
        exit_on_focus_loss: true,
        config: None,
        error,
    }
}

fn copy_theme(t: &Theme) -> (r: Theme)
    ensures
        crate::config_change::theme_same(r, *t),
{
    Theme {
        ground: t.ground.clone(),
        surface: t.surface.clone(),
        fg: t.fg.clone(),
        muted: t.muted.clone(),
        dim: t.dim.clone(),
        accent: t.accent.clone(),
        error: t.error.clone(),
        border: t.border.clone(),
        icon_size: t.icon_size,
        logo: t.logo.clone(),
        logo_size: t.logo_size,
        max_height_fraction_bits: t.max_height_fraction_bits,
        max_width_fraction_bits: t.max_width_fraction_bits,
        width: t.width,
    }
}

proof fn filed_alike(a: Seq<(String, String)>, b: Seq<(String, String)>, key: Seq<char>)
    requires
        a.len() == b.len(),
        forall|i: int| 0 <= i < a.len() ==> (#[trigger] a[i]).0@ == b[i].0@ && a[i].1@ == b[i].1@,
    ensures
        crate::text::opt_text(crate::text::filed(a, key)) == crate::text::opt_text(
            crate::text::filed(b, key),
        ),
    decreases a.len(),
{
    if a.len() > 0 {
        assert(a[0].0@ == b[0].0@);
        let x = a.drop_first();
        let y = b.drop_first();
        assert forall|i: int| 0 <= i < x.len() implies (#[trigger] x[i]).0@ == y[i].0@ && x[i].1@
            == y[i].1@ by {
            assert(a[i + 1].0@ == b[i + 1].0@);
        }
        filed_alike(x, y, key);
    }
}

fn copy_layout(l: &Layout) -> (r: Layout)
    ensures
        crate::config_change::layout_same(r, *l),
{
    let mut entries: Vec<(String, String)> = Vec::new();
    let mut i: usize = 0;
    while i < l.rows.entries.len()
        invariant
            i <= l.rows.entries.len(),
            entries@.len() == i,
            forall|k: int|
                0 <= k < i ==> (#[trigger] entries@[k]).0@ == l.rows.entries@[k].0@
                    && entries@[k].1@ == l.rows.entries@[k].1@,
        decreases l.rows.entries.len() - i,
    {
        entries.push((l.rows.entries[i].0.clone(), l.rows.entries[i].1.clone()));
        i = i + 1;
    }
    let rows = TextMap { entries };
    proof {
        assert forall|key: Seq<char>| crate::text::opt_text(#[trigger] rows.value(key))
            == crate::text::opt_text(l.rows.value(key)) by {
            filed_alike(rows.entries@, l.rows.entries@, key);
        }
    }
    Layout {
        equal_columns: l.equal_columns,
        max_items_per_line: l.max_items_per_line,
        max_inline_items: l.max_inline_items,
        max_label_chars: l.max_label_chars,
        rows,
    }
}

/// Whether a world is what a configuration asks for, before any machine has
/// answered.
pub open spec fn is_world_of(w: World, config: Config) -> bool {
    &&& w.config == Some(config)
    &&& w.error is None
    &&& crate::text::texts(w.folders@) == config.rows()
    &&& crate::stream::machine_views(w.machines@) == Seq::new(
        config.machines@.len(),
        |i: int| crate::column::empty_view(config.machines@[i], config.rows().len(), None),
    )
    &&& crate::config_change::theme_same(w.theme, config.theme)
    &&& crate::config_change::layout_same(w.layout, config.layout)
    &&& crate::text::texts(w.terminal@) == crate::text::texts(config.terminal@)
    &&& w.surface@ == config.surface@
    &&& w.keyboard@ == config.keyboard@
    &&& w.exit_on_focus_loss == config.exit_on_focus_loss
}

fn world_of(config: Config) -> (r: World)
    ensures
        is_world_of(r, config),
{
    let folders = config.folder_rows();
    let ghost rows = config.rows();
    assert(folders@.len() == crate::text::texts(folders@).len());
    let mut machines: Vec<Machine> = Vec::new();
    let mut i: usize = 0;
    while i < config.machines.len()
        invariant
            i <= config.machines.len(),
            machines@.len() == i,
            folders@.len() == rows.len(),
            forall|k: int|
                0 <= k < i ==> (#[trigger] machines@[k])@ == crate::column::empty_view(
                    config.machines@[k],
                    rows.len(),
                    None,
                ),
        decreases config.machines.len() - i,
    {
        machines.push(empty_machine(&config.machines[i], folders.len()));
        i = i + 1;
    }
    assert(crate::stream::machine_views(machines@) =~= Seq::new(
        config.machines@.len(),
        |i: int| crate::column::empty_view(config.machines@[i], rows.len(), None),
    ));
    World {
        folders,
        machines,
        theme: copy_theme(&config.theme),
        layout: copy_layout(&config.layout),
        terminal: copy_texts(&config.terminal),
        surface: config.surface.clone(),
        keyboard: config.keyboard.clone(),
        exit_on_focus_loss: config.exit_on_focus_loss,
        config: Some(config),
        error: None,
    }
}

/// Whether colours belong to what was loaded.
pub open spec fn colours_fit(
    loaded: Result<Option<Config>, String>,
    colours: Option<ParsedColours>,
) -> bool {
    match loaded {
        Ok(Some(config)) => colours is Some && colours->0.machines@.len() == config.machines@.len(),
        _ => true,
    }
}

/// What the launcher is built from: nothing but an error or an empty grid where
/// there is no usable configuration, else its machines, not asked yet. `colours`
/// are the colours of a configuration that was loaded.
pub fn world_from_loaded(
    loaded: Result<Option<Config>, String>,
    colours: Option<ParsedColours>,
) -> (r: World)
    requires
        colours_fit(loaded, colours),
    ensures
        match loaded {
            Err(e) => is_empty_world(r) && crate::text::opt_text(r.error) == Some(e@),
            Ok(None) => is_empty_world(r) && r.error is None,
            Ok(Some(config)) => match crate::style::first_unknown(colours->0.named()) {
                Some(name) => is_empty_world(r) && crate::text::opt_text(r.error) == Some(
                    name + " is not a valid GTK color"@,
                ),
                None => r.config is Some && crate::style::config_recoloured(
                    config,
                    r.config->0,
                    colours->0,
                ) && is_world_of(r, r.config->0),
            },
        },
{
    match loaded {
        Err(e) => empty_world(Some(e)),
        Ok(None) => empty_world(None),
        Ok(Some(config)) => match colours {
            Some(colours) => match canonicalize_config_colors(config, &colours) {
                Ok(config) => world_of(config),
                Err(message) => empty_world(Some(message)),
            },
            None => empty_world(None),
        },
    }
}

/// What is told in the window about the start: the first of what went wrong.
pub fn startup_error(
    config: Option<String>,
    placement: Option<String>,
    visibility: Option<String>,
    usage: Option<String>,
) -> (r: Option<String>)
    ensures
        r == (if config is Some {
            config
        } else if placement is Some {
            placement
        } else if visibility is Some {
            visibility
        } else {
            usage
        }),
{
    if config.is_some() {
        config
    } else if placement.is_some() {
        placement
    } else if visibility.is_some() {
        visibility
    } else {
        usage
    }
}

/// Begins a new generation of interactions and returns its number.
pub fn advance_generation(generation: &mut u64) -> (r: u64)
    ensures
        *final(generation) == r,
        r == (if *old(generation) == u64::MAX {
            0
        } else {
            *old(generation) + 1
        }),
        r != *old(generation),
{
    let next: u64 = if *generation == u64::MAX {
        0
    } else {
        *generation + 1
    };
    *generation = next;
    next
}

/// Whether nothing has happened since a generation began.
pub fn generation_is_current(generation: u64, expected: u64) -> (r: bool)
    ensures
        r == (generation == expected),
{
    generation == expected
}

/// Nothing is replaced while launches run. A changed configuration always leads
/// to a rebuild then; changed state on disk does where the user changed nothing
/// since; and where disk and launcher agree, that is the new starting point.
pub proof fn when_a_launcher_is_replaced(
    config_changed: bool,
    launches_inflight: bool,
    baseline: SnapshotView,
    current: SnapshotView,
    prepared: SnapshotView,
)
    ensures
        ({
            let d = decision_of(config_changed, launches_inflight, baseline, current, prepared);
            &&& launches_inflight ==> !d.rebuild && !d.transfer_current && !d.advance_baseline
            &&& !launches_inflight && config_changed ==> d.rebuild
            &&& !launches_inflight && !config_changed && current != baseline ==> !d.rebuild
            &&& !launches_inflight && !config_changed && current == baseline ==> d.rebuild == (
            prepared != current)
            &&& d.transfer_current ==> d.rebuild && config_changed
            &&& d.transfer_current ==> current != baseline && prepared != current
            &&& !launches_inflight && config_changed && current != baseline && prepared != current
                ==> d.transfer_current
            &&& !launches_inflight ==> d.advance_baseline == (prepared == current)
        }),
{
}

/// A state that could not be read is kept as the launcher has it, and is not to
/// be written; one that was read is taken.
pub proof fn unread_state_is_kept(p: PreparedLauncher, current: SnapshotView)
    ensures
        ({
            let kept = p.retained(current);
            &&& p.placement.1 is Some ==> kept.placement == current.placement
            &&& p.placement.1 is None ==> kept.placement == p.placement.0@
            &&& p.visibility.1 is Some ==> kept.visibility == current.visibility
            &&& p.visibility.1 is None ==> kept.visibility == p.visibility.0@
            &&& p.usage.1 is Some ==> kept.usage == current.usage
            &&& p.usage.1 is None ==> kept.usage == p.usage.0@
            &&& kept.placement_writable == p.placement.1 is None
            &&& kept.visibility_writable == p.visibility.1 is None
            &&& kept.usage_writable == p.usage.1 is None
            &&& p.placement.1 is None && p.visibility.1 is None && p.usage.1 is None ==> kept
                == p.state()
        }),
{
}

/// What contracts say of a state is said of its fields.
pub proof fn states_show_their_fields(s: MutableStateSnapshot, p: PreparedLauncher)
    ensures
        s@.placement == s.placement@ && s@.placement_writable == s.placement_writable,
        s@.visibility == s.visibility@ && s@.visibility_writable == s.visibility_writable,
        s@.usage == s.usage@ && s@.usage_writable == s.usage_writable,
        p.state().placement == p.placement.0@ && p.state().visibility == p.visibility.0@,
        p.state().usage == p.usage.0@,
        p.state().placement_writable <==> p.placement.1 is None,
        p.state().visibility_writable <==> p.visibility.1 is None,
        p.state().usage_writable <==> p.usage.1 is None,
{
}

/// A configuration that cannot be loaded, or has unknown colours, replaces
/// nothing; icons count only where new ones were prepared.
pub proof fn what_counts_as_a_change(
    prepared: PreparedLauncher,
    colours_valid: bool,
    source: Option<Config>,
    next: Option<Config>,
    shown: Option<(i32, u64)>,
)
    ensures
        can_replace(prepared, colours_valid) <==> prepared.config is Ok && (prepared.config->Ok_0
            is Some ==> colours_valid),
        source is None && next is None ==> !config_differs(source, next),
        source is Some && next is None ==> config_differs(source, next),
        source is None && next is Some ==> config_differs(source, next),
        source is Some && next is Some ==> config_differs(source, next)
            == !crate::config_change::config_same(source->0, next->0),
        icons_differ(prepared.icons, shown) <==> prepared.icons is Some && (shown is None
            || prepared.icons->0 != shown->0),
{
}

/// The world of a configuration has its rows, a column for each of its machines
/// in their order, and its looks and modes.
pub proof fn worlds_follow_their_configuration(w: World, config: Config, i: int)
    requires
        is_world_of(w, config),
    ensures
        w.config == Some(config),
        w.error is None,
        crate::text::texts(w.folders@) == config.rows(),
        w.machines@.len() == config.machines@.len(),
        0 <= i < w.machines@.len() ==> {
            &&& w.machines@[i]@.name == config.machines@[i].name@
            &&& w.machines@[i]@.accent == config.machines@[i].accent@
            &&& w.machines@[i]@.cells.len() == config.rows().len()
            &&& w.machines@[i]@.error is None
        },
        w.theme.ground@ == config.theme.ground@ && w.theme.fg@ == config.theme.fg@,
        w.theme.icon_size == config.theme.icon_size && w.theme.width == config.theme.width,
        w.layout.max_items_per_line == config.layout.max_items_per_line,
        w.layout.max_inline_items == config.layout.max_inline_items,
        w.terminal@.len() == config.terminal@.len(),
        0 <= i < w.terminal@.len() ==> w.terminal@[i]@ == config.terminal@[i]@,
        w.surface@ == config.surface@ && w.keyboard@ == config.keyboard@,
        w.exit_on_focus_loss == config.exit_on_focus_loss,
{
    crate::text::equal_texts_agree(w.terminal@, config.terminal@);
    let views = crate::stream::machine_views(w.machines@);
    assert(views.len() == config.machines@.len());
    if 0 <= i < w.machines@.len() {
        assert(views[i] == w.machines@[i]@);
        assert(views[i] == crate::column::empty_view(
            config.machines@[i],
            config.rows().len(),
            None,
        ));
    }
}

/// What is prepared is compared with what is shown: another configuration, or
/// icons of another size or theme, count as a change, unless the configuration
/// could not be loaded.
pub proof fn changes_lead_to_a_rebuild(
    prepared: PreparedLauncher,
    source: Option<Config>,
    shown: Option<(i32, u64)>,
    baseline: SnapshotView,
    current: SnapshotView,
)
    ensures
        ({
            let d = replacement_of(prepared, source, shown, false, baseline, current);
            let changed = (prepared.config is Ok && config_differs(source, prepared.config->Ok_0))
                || icons_differ(prepared.icons, shown);
            &&& changed ==> d.rebuild
            &&& !changed && current != baseline ==> !d.rebuild
            &&& !changed && current == baseline ==> d.rebuild == (prepared.retained(current)
                != current)
            &&& d.advance_baseline == (prepared.retained(current) == current)
        }),
        !replacement_of(prepared, source, shown, true, baseline, current).rebuild,
{
}

/// A state that is not to be written says which one it is.
pub proof fn unwritable_states_are_named(state: SnapshotView)
    ensures
        ({
            let (placement, visibility, usage) = retained_errors(state);
            &&& placement is None <==> state.placement_writable
            &&& visibility is None <==> state.visibility_writable
            &&& usage is None <==> state.usage_writable
            &&& placement is Some ==> placement->0 == "retained "@ + "placement"@
                + " state after an earlier read failure"@
            &&& visibility is Some ==> visibility->0 == "retained "@ + "visibility"@
                + " state after an earlier read failure"@
            &&& usage is Some ==> usage->0 == "retained "@ + "usage"@
                + " state after an earlier read failure"@
        }),
{
}

/// Without a configuration the world is empty but for the row `Other`, and has the
/// usual looks.
pub proof fn worlds_without_a_configuration(w: World)
    requires
        is_empty_world(w),
    ensures
        w.folders@.len() == 1,
        w.folders@[0]@ == "Other"@,
        w.machines@.len() == 0,
        w.terminal@.len() == 0,
        w.surface@ == "layer"@ && w.keyboard@ == "exclusive"@ && w.exit_on_focus_loss,
        w.config is None,
        w.theme.width == 560 && w.layout.max_items_per_line == 5,
{
    let rows = crate::text::texts(w.folders@);
    assert(rows.len() == 1);
    assert(rows[0] == w.folders@[0]@);
}

} // verus!
