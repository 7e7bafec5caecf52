//! Compositors, their workspaces, and the updates that the bar's widgets get.

use crate::sway;
use crate::text::{debug_form, same_text, text_or_empty_of};
use vstd::prelude::*;
use vstd::string::*;

verus! {

/// The compositor that the bar runs under.
#[derive(Debug, Clone, Copy, PartialEq, Eq, Structural)]
pub enum Compositor {
    Sway,
    I3,
    Hyprland,
    Niri,
    Unsupported,
}

/// A compositor that speaks the Sway/i3 protocol.
#[derive(Debug, Clone, Copy, PartialEq, Eq, Structural)]
pub enum SwayIpcCompositor {
    Sway,
    I3,
}

/// Whether an environment value is there and not empty.
pub open spec fn is_set(value: Option<String>) -> bool {
    value is Some && value->0@.len() > 0
}

fn set(value: &Option<String>) -> (r: bool)
    ensures
        r == is_set(*value),
{
    match value {
        Some(text) => !text.as_str().is_empty(),
        None => false,
    }
}

/// Which Sway/i3 socket is there; the Sway one wins.
pub fn sway_ipc_compositor_from_values(swaysock: Option<String>, i3sock: Option<String>) -> (r:
    Option<SwayIpcCompositor>)
    ensures
        r == (if is_set(swaysock) {
            Some(SwayIpcCompositor::Sway)
        } else if is_set(i3sock) {
            Some(SwayIpcCompositor::I3)
        } else {
            None
        }),
{
    if set(&swaysock) {
        Some(SwayIpcCompositor::Sway)
    } else if set(&i3sock) {
        Some(SwayIpcCompositor::I3)
    } else {
        None
    }
}

/// A client that some widget asks for.
#[derive(Debug, Clone, Copy, PartialEq, Eq, Structural)]
pub enum ClientKind {
    BindMode,
    KeyboardLayout,
    Workspaces,
}

/// The connection that serves a client.
#[derive(Debug, Clone, Copy, PartialEq, Eq, Structural)]
pub enum Backend {
    Sway,
    Hyprland,
    Niri,
}

/// Why there is no client.
#[derive(Debug, Clone, PartialEq, Eq)]
pub enum Error {
    /// The compositor lacks the feature; the others named have it.
    Unsupported(&'static str, Vec<&'static str>),
    Other(String),
}

/// Names in quotes, with commas between them.
pub open spec fn quoted_names(names: Seq<&'static str>) -> Seq<char>
    decreases names.len(),
{
    if names.len() == 0 {
        Seq::empty()
    } else if names.len() == 1 {
        crate::text::debug_text(names[0]@)
    } else {
        quoted_names(names.drop_last()) + ", "@ + crate::text::debug_text(names.last()@)
    }
}

impl Error {
    /// The error in words.
    pub fn message(&self) -> (r: String)
        ensures
            r@ == (match *self {
                Error::Unsupported(feature, supported) => feature@
                    + " is unsupported by compositor. The following are supported: ["@
                    + quoted_names(supported@) + "]"@,
                Error::Other(text) => text@,
            }),
    {
        match self {
            Error::Unsupported(feature, supported) => {
                let ghost views = supported@;
                let mut names = String::new();
                let mut i: usize = 0;
                assert(names@ =~= quoted_names(views.take(0)));
                while i < supported.len()
                    invariant
                        i <= supported.len(),
                        views == supported@,
                        names@ == quoted_names(views.take(i as int)),
                    decreases supported.len() - i,
                {
                    proof {
                        assert(views.take(i + 1).drop_last() =~= views.take(i as int));
                        assert(views.take(i + 1).last() == views[i as int]);
                        if i == 0 {
                            assert(names@ =~= Seq::<char>::empty());
                        }
                    }
                    if i > 0 {
                        names.append(", ");
                    }
                    let ghost before = names@;
                    names.append(debug_form(supported[i]).as_str());
                    if i == 0 {
                        assert(names@ =~= crate::text::debug_text(views[0]@));
                    }
                    i = i + 1;
                }
                assert(views.take(i as int) =~= views);
                let mut out = (*feature).to_owned();
                out.append(" is unsupported by compositor. The following are supported: [");
                out.append(names.as_str());
                out.append("]");
                out
            },
            Error::Other(text) => text.clone(),
        }
    }
}

impl Compositor {
    /// The compositor that the environment shows: the Scroll, Sway and i3
    /// sockets first, then Hyprland, then Niri. Scroll speaks Sway's protocol and
    /// is served as Sway is.
    pub fn current(
        scrollsock: Option<String>,
        swaysock: Option<String>,
        i3sock: Option<String>,
        hyprland_signature: bool,
        niri_socket: bool,
    ) -> (r: Self)
        ensures
            r == (if is_set(scrollsock) || is_set(swaysock) {
                Compositor::Sway
            } else if is_set(i3sock) {
                Compositor::I3
            } else if hyprland_signature {
                Compositor::Hyprland
            } else if niri_socket {
                Compositor::Niri
            } else {
                Compositor::Unsupported
            }),
    {
        if set(&scrollsock) {
            return Compositor::Sway;
        }
        match sway_ipc_compositor_from_values(swaysock, i3sock) {
            Some(SwayIpcCompositor::Sway) => Compositor::Sway,
            Some(SwayIpcCompositor::I3) => Compositor::I3,
            None => if hyprland_signature {
                Compositor::Hyprland
            } else if niri_socket {
                Compositor::Niri
            } else {
                Compositor::Unsupported
            },
        }
    }

    /// The name shown to people.
    pub fn name(self) -> (r: &'static str)
        ensures
            r@ == (match self {
                Compositor::Sway => "Sway"@,
                Compositor::I3 => "i3"@,
                Compositor::Hyprland => "Hyprland"@,
                Compositor::Niri => "Niri"@,
                Compositor::Unsupported => "Unsupported"@,
            }),
    {
        match self {
            Compositor::Sway => "Sway",
            Compositor::I3 => "i3",
            Compositor::Hyprland => "Hyprland",
            Compositor::Niri => "Niri",
            Compositor::Unsupported => "Unsupported",
        }
    }

    /// i3 shares Sway's workspaces and binding modes, but not its keyboard
    /// layout extension.
    pub fn supports_keyboard_layout_client(&self) -> (r: bool)
        ensures
            r == (self is Sway || self is Hyprland),
    {
        matches!(self, Compositor::Sway | Compositor::Hyprland)
    }

    pub fn supports_workspace_client(&self) -> (r: bool)
        ensures
            r == !(self is Unsupported),
    {
        !matches!(self, Compositor::Unsupported)
    }

    pub fn supports_bindmode_client(&self) -> (r: bool)
        ensures
            r == (self is Sway || self is I3 || self is Hyprland),
    {
        matches!(self, Compositor::Sway | Compositor::I3 | Compositor::Hyprland)
    }

    /// Whether the compositor has the feature behind a client.
    pub open spec fn supports(self, kind: ClientKind) -> bool {
        match kind {
            ClientKind::BindMode => self is Sway || self is I3 || self is Hyprland,
            ClientKind::KeyboardLayout => self is Sway || self is Hyprland,
            ClientKind::Workspaces => !(self is Unsupported),
        }
    }

    /// The connection that serves a client on this compositor, or the error
    /// that names the compositors which have the feature.
    pub fn client_backend(self, kind: ClientKind) -> (r: Result<Backend, Error>)
        ensures
            match r {
                Ok(backend) => self.supports(kind) && backend == (match self {
                    Compositor::Sway | Compositor::I3 => Backend::Sway,
                    Compositor::Hyprland => Backend::Hyprland,
                    _ => Backend::Niri,
                }),
                Err(Error::Unsupported(feature, supported)) => {
                    &&& !self.supports(kind)
                    &&& feature@ == (match kind {
                        ClientKind::BindMode => "bindmode"@,
                        ClientKind::KeyboardLayout => "keyboard"@,
                        ClientKind::Workspaces => "workspaces"@,
                    })
                    &&& supported@.len() == (if kind is Workspaces {
                        3int
                    } else {
                        2int
                    })
                    &&& supported@[0]@ == "sway"@
                    &&& supported@[1]@ == "hyprland"@
                    &&& kind is Workspaces ==> supported@[2]@ == "niri"@
                },
                Err(_) => false,
            },
    {
        let supported = match kind {
            ClientKind::BindMode => self.supports_bindmode_client(),
            ClientKind::KeyboardLayout => self.supports_keyboard_layout_client(),
            ClientKind::Workspaces => self.supports_workspace_client(),
        };
        if supported {
            return match self {
                Compositor::Sway | Compositor::I3 => Ok(Backend::Sway),
                Compositor::Hyprland => Ok(Backend::Hyprland),
                _ => Ok(Backend::Niri),
            };
        }
        let mut names: Vec<&'static str> = Vec::new();
        names.push("sway");
        names.push("hyprland");
        match kind {
            ClientKind::BindMode => Err(Error::Unsupported("bindmode", names)),
            ClientKind::KeyboardLayout => Err(Error::Unsupported("keyboard", names)),
            ClientKind::Workspaces => {
                names.push("niri");
                Err(Error::Unsupported("workspaces", names))
            },
        }
    }
}

/// A workspace as the widgets see it.
#[derive(Debug, Clone)]
pub struct Workspace {
    pub id: i64,
    pub index: i64,
    pub name: String,
    pub monitor: String,
    pub visibility: Visibility,
}

/// The workspace that is to be focused.
#[derive(Debug, Clone, PartialEq, Eq)]
pub enum WorkspaceTarget {
    Id(i64),
    Name(String),
    Persistent { name: String, index: Option<i64> },
}

impl WorkspaceTarget {
    /// A persistent target as its name; any other target as it is.
    pub fn persistent_by_name(&self) -> (r: Self)
        ensures
            r == (match *self {
                WorkspaceTarget::Persistent { name, .. } => WorkspaceTarget::Name(name),
                target => target,
            }),
    {
        match self {
            WorkspaceTarget::Persistent { name, .. } => WorkspaceTarget::Name(name.clone()),
            WorkspaceTarget::Id(id) => WorkspaceTarget::Id(*id),
            WorkspaceTarget::Name(name) => WorkspaceTarget::Name(name.clone()),
        }
    }

    /// A persistent target as its index where that is between one and `max`,
    /// else as its name; any other target as it is.
    pub fn persistent_by_index(&self, max: i64) -> (r: Self)
        ensures
            r == (match *self {
                WorkspaceTarget::Persistent { name, index } => match index {
                    Some(i) if 0 < i <= max => WorkspaceTarget::Id(i),
                    _ => WorkspaceTarget::Name(name),
                },
                target => target,
            }),
    {
        match self {
            WorkspaceTarget::Persistent { name, index } => {
                if let Some(i) = index {
                    if *i > 0 && *i <= max {
                        return WorkspaceTarget::Id(*i);
                    }
                }
                WorkspaceTarget::Name(name.clone())
            },
            WorkspaceTarget::Id(id) => WorkspaceTarget::Id(*id),
            WorkspaceTarget::Name(name) => WorkspaceTarget::Name(name.clone()),
        }
    }
}

/// How visible a workspace is.
#[derive(Debug, Clone, Copy, PartialEq, Eq, Structural)]
pub enum Visibility {
    Visible { focused: bool },
    Hidden,
}

/// A focused workspace is visible, whatever its visible flag says.
pub open spec fn visibility_of(focused: bool, visible: bool) -> Visibility {
    if focused {
        Visibility::Visible { focused: true }
    } else if visible {
        Visibility::Visible { focused: false }
    } else {
        Visibility::Hidden
    }
}

impl Visibility {
    pub fn visible() -> (r: Self)
        ensures
            r == (Visibility::Visible { focused: false }),
    {
        Visibility::Visible { focused: false }
    }

    pub fn focused() -> (r: Self)
        ensures
            r == (Visibility::Visible { focused: true }),
    {
        Visibility::Visible { focused: true }
    }

    pub fn is_visible(self) -> (r: bool)
        ensures
            r == self is Visible,
    {
        matches!(self, Visibility::Visible { .. })
    }

    pub fn is_focused(self) -> (r: bool)
        ensures
            r == (self == (Visibility::Visible { focused: true })),
    {
        if let Visibility::Visible { focused } = self {
            focused
        } else {
            false
        }
    }

    fn of_flags(focused: bool, visible: bool) -> (r: Self)
        ensures
            r == visibility_of(focused, visible),
            r == (Visibility::Visible { focused: true }) <==> focused,
            r is Visible <==> focused || visible,
            r is Hidden <==> !focused && !visible,
    {
        if focused {
            Self::focused()
        } else if visible {
            Self::visible()
        } else {
            Visibility::Hidden
        }
    }
}

/// A workspace with these values.
pub open spec fn is_node_workspace(w: Workspace, node: sway::Node) -> bool {
    &&& w.id == node.id
    &&& w.index == (match node.num {
        Some(n) => n,
        None => 0i64,
    })
    &&& w.name@ == crate::text::text_or_empty(node.name)
    &&& w.monitor@ == crate::text::text_or_empty(node.output)
    &&& w.visibility == visibility_of(node.focused, node.visible == Some(true))
}

/// The workspace that a listed workspace becomes.
pub open spec fn is_listed_workspace(w: Workspace, listed: sway::Workspace) -> bool {
    &&& w.id == listed.id
    &&& w.index == listed.num
    &&& w.name@ == listed.name@
    &&& w.monitor@ == listed.output@
    &&& w.visibility == visibility_of(listed.focused, listed.visible)
}

impl Workspace {
    /// The workspace of a node; what the node leaves out is zero, empty or
    /// invisible.
    pub fn from_node(node: sway::Node) -> (r: Self)
        ensures
            is_node_workspace(r, node),
            r.visibility == (Visibility::Visible { focused: true }) <==> node.focused,
            r.visibility is Visible <==> node.focused || node.visible == Some(true),
            r.id == node.id,
            node.num is Some ==> r.index == node.num->0,
            node.num is None ==> r.index == 0,
            node.name is Some ==> r.name@ == node.name->0@,
            node.name is None ==> r.name@.len() == 0,
            node.output is Some ==> r.monitor@ == node.output->0@,
            node.output is None ==> r.monitor@.len() == 0,
    {
        let visible = match node.visible {
            Some(flag) => flag,
            None => false,
        };
        Workspace {
            id: node.id,
            index: match node.num {
                Some(n) => n,
                None => 0,
            },
            name: text_or_empty_of(node.name),
            monitor: text_or_empty_of(node.output),
            visibility: Visibility::of_flags(node.focused, visible),
        }
    }

    /// The workspace of one entry in the compositor's list.
    pub fn from_listed(listed: &sway::Workspace) -> (r: Self)
        ensures
            is_listed_workspace(r, *listed),
            r.visibility == (Visibility::Visible { focused: true }) <==> listed.focused,
            r.visibility is Visible <==> listed.focused || listed.visible,
            r.id == listed.id,
            r.index == listed.num,
            r.name@ == listed.name@,
            r.monitor@ == listed.output@,
    {
        Workspace {
            id: listed.id,
            index: listed.num,
            name: listed.name.clone(),
            monitor: listed.output.clone(),
            visibility: Visibility::of_flags(listed.focused, listed.visible),
        }
    }
}

/// The active keyboard layout.
#[derive(Debug, Clone)]
pub struct KeyboardLayoutUpdate(pub String);

/// What changed about the workspaces.
#[derive(Debug, Clone)]
pub enum WorkspaceUpdate {
    /// The first list that a subscriber gets.
    Init(Vec<Workspace>),
    /// A later list, after a reconnect: it replaces what the subscriber knew.
    Resync(Vec<Workspace>),
    Add(Workspace),
    Remove(i64),
    Move(Workspace),
    Focus { old: Option<Workspace>, new: Workspace },
    Rename { id: i64, name: String },
    Urgent { id: i64, urgent: bool },
    /// Nothing that a widget has to know.
    Unknown,
}

/// The binding mode that became active.
#[derive(Debug, Clone)]
pub struct BindModeUpdate {
    pub name: String,
    pub pango_markup: bool,
}

impl WorkspaceUpdate {
    /// The update that an event stands for.
    pub open spec fn describes(self, event: sway::WorkspaceEvent) -> bool {
        match event.change {
            sway::WorkspaceChange::Init => match event.current {
                Some(node) => self is Add && is_node_workspace(self->Add_0, node),
                None => self is Unknown,
            },
            sway::WorkspaceChange::Empty => match event.current {
                Some(node) => self == WorkspaceUpdate::Remove(node.id),
                None => match event.old {
                    Some(node) => self == WorkspaceUpdate::Remove(node.id),
                    None => self is Unknown,
                },
            },
            sway::WorkspaceChange::Focus => match event.current {
                Some(node) => {
                    &&& self is Focus
                    &&& is_node_workspace(self->Focus_new, node)
                    &&& match event.old {
                        Some(before) => self->Focus_old is Some && is_node_workspace(
                            self->Focus_old->0,
                            before,
                        ),
                        None => self->Focus_old is None,
                    }
                },
                None => self is Unknown,
            },
            sway::WorkspaceChange::Move => match event.current {
                Some(node) => self is Move && is_node_workspace(self->Move_0, node),
                None => self is Unknown,
            },
            sway::WorkspaceChange::Rename => match event.current {
                Some(node) => self is Rename && self->Rename_id == node.id && self->Rename_name@
                    == crate::text::text_or_empty(node.name),
                None => self is Unknown,
            },
            sway::WorkspaceChange::Urgent => match event.current {
                Some(node) => self == (WorkspaceUpdate::Urgent {
                    id: node.id,
                    urgent: node.urgent,
                }),
                None => self is Unknown,
            },
            sway::WorkspaceChange::Unknown => self is Unknown,
        }
    }

    /// The update that an event stands for. An event without the node that its
    /// change needs becomes `Unknown`.
    pub fn from(event: sway::WorkspaceEvent) -> (r: Self)
        ensures
            r.describes(event),
            r is Add <==> event.change is Init && event.current is Some,
            r is Remove <==> event.change is Empty && (event.current is Some || event.old is Some),
            r is Focus <==> event.change is Focus && event.current is Some,
            r is Move <==> event.change is Move && event.current is Some,
            r is Rename <==> event.change is Rename && event.current is Some,
            r is Urgent <==> event.change is Urgent && event.current is Some,
            !(r is Init) && !(r is Resync),
            r is Add ==> r->Add_0.id == event.current->0.id,
            r is Remove ==> r->Remove_0 == (if event.current is Some {
                event.current->0.id
            } else {
                event.old->0.id
            }),
            r is Move ==> r->Move_0.id == event.current->0.id,
            r is Focus ==> r->Focus_new.id == event.current->0.id && (r->Focus_old is Some
                <==> event.old is Some),
            r is Focus && event.old is Some ==> r->Focus_old->0.id == event.old->0.id,
            r is Rename ==> r->Rename_id == event.current->0.id,
            r is Rename && event.current->0.name is Some ==> r->Rename_name@
                == event.current->0.name->0@,
            r is Rename && event.current->0.name is None ==> r->Rename_name@.len() == 0,
            r is Urgent ==> r->Urgent_id == event.current->0.id && r->Urgent_urgent
                == event.current->0.urgent,
    {
        match event.change {
            sway::WorkspaceChange::Init => match event.current {
                Some(node) => WorkspaceUpdate::Add(Workspace::from_node(node)),
                None => WorkspaceUpdate::Unknown,
            },
            sway::WorkspaceChange::Empty => match event.current {
                Some(node) => WorkspaceUpdate::Remove(node.id),
                None => match event.old {
                    Some(node) => WorkspaceUpdate::Remove(node.id),
                    None => WorkspaceUpdate::Unknown,
                },
            },
            sway::WorkspaceChange::Focus => match event.current {
                Some(node) => {
                    let old_workspace = match event.old {
                        Some(before) => Some(Workspace::from_node(before)),
                        None => None,
                    };
                    WorkspaceUpdate::Focus { old: old_workspace, new: Workspace::from_node(node) }
                },
                None => WorkspaceUpdate::Unknown,
            },
            sway::WorkspaceChange::Move => match event.current {
                Some(node) => WorkspaceUpdate::Move(Workspace::from_node(node)),
                None => WorkspaceUpdate::Unknown,
            },
            sway::WorkspaceChange::Rename => match event.current {
                Some(node) => WorkspaceUpdate::Rename {
                    id: node.id,
                    name: text_or_empty_of(node.name),
                },
                None => WorkspaceUpdate::Unknown,
            },
            sway::WorkspaceChange::Urgent => match event.current {
                Some(node) => WorkspaceUpdate::Urgent { id: node.id, urgent: node.urgent },
                None => WorkspaceUpdate::Unknown,
            },
            sway::WorkspaceChange::Unknown => WorkspaceUpdate::Unknown,
        }
    }
}

/// The update for a whole list: the first one initialises a subscriber, every
/// later one resynchronises it.
pub fn workspace_snapshot_update(initialized: &mut bool, workspaces: &Vec<sway::Workspace>) -> (r:
    WorkspaceUpdate)
    ensures
        *final(initialized),
        match r {
            WorkspaceUpdate::Init(list) => {
                &&& !*old(initialized)
                &&& list@.len() == workspaces@.len()
                &&& forall|i: int|
                    0 <= i < list@.len() ==> is_listed_workspace(#[trigger] list@[i], workspaces@[i])
            },
            WorkspaceUpdate::Resync(list) => {
                &&& *old(initialized)
                &&& list@.len() == workspaces@.len()
                &&& forall|i: int|
                    0 <= i < list@.len() ==> is_listed_workspace(#[trigger] list@[i], workspaces@[i])
            },
            _ => false,
        },
{
    let mut list: Vec<Workspace> = Vec::new();
    let mut i: usize = 0;
    while i < workspaces.len()
        invariant
            i <= workspaces.len(),
            list@.len() == i,
            forall|k: int|
                0 <= k < i ==> is_listed_workspace(#[trigger] list@[k], workspaces@[k]),
        decreases workspaces.len() - i,
    {
        list.push(Workspace::from_listed(&workspaces[i]));
        i = i + 1;
    }
    let was_initialized = *initialized;
    *initialized = true;
    if was_initialized {
        WorkspaceUpdate::Resync(list)
    } else {
        WorkspaceUpdate::Init(list)
    }
}

/// The index of the first input that reports a layout.
pub open spec fn first_keyboard(inputs: Seq<sway::Input>) -> Option<int>
    decreases inputs.len(),
{
    if inputs.len() == 0 {
        None
    } else {
        match first_keyboard(inputs.drop_last()) {
            Some(i) => Some(i),
            None => if inputs.last().xkb_active_layout_name is Some {
                Some(inputs.len() - 1)
            } else {
                None
            },
        }
    }
}

/// The first input that reports a layout: the keyboard that a layout switch
/// goes to.
pub fn keyboard_index(inputs: &Vec<sway::Input>) -> (r: Option<usize>)
    ensures
        match r {
            Some(i) => i < inputs@.len() && first_keyboard(inputs@) == Some(i as int)
                && inputs@[i as int].xkb_active_layout_name is Some && forall|k: int|
                0 <= k < i ==> inputs@[k].xkb_active_layout_name is None,
            None => first_keyboard(inputs@) is None && forall|k: int|
                0 <= k < inputs@.len() ==> inputs@[k].xkb_active_layout_name is None,
        },
{
    let mut found: Option<usize> = None;
    let mut i: usize = 0;
    while i < inputs.len()
        invariant
            i <= inputs.len(),
            first_keyboard(inputs@.take(i as int)) == (match found {
                Some(f) => Some(f as int),
                None => None,
            }),
            match found {
                Some(f) => f < i && inputs@[f as int].xkb_active_layout_name is Some && forall|
                    k: int,
                |
                    0 <= k < f ==> inputs@[k].xkb_active_layout_name is None,
                None => forall|k: int|
                    0 <= k < i ==> inputs@[k].xkb_active_layout_name is None,
            },
        decreases inputs.len() - i,
    {
        assert(inputs@.take(i + 1).drop_last() =~= inputs@.take(i as int));
        if found.is_none() && inputs[i].xkb_active_layout_name.is_some() {
            found = Some(i);
        }
        i = i + 1;
    }
    assert(inputs@.take(i as int) =~= inputs@);
    found
}

/// The layout of the first input that reports one; no input means no layout,
/// not an empty one.
pub fn keyboard_layout_from_inputs(inputs: &Vec<sway::Input>) -> (r: Option<KeyboardLayoutUpdate>)
    ensures
        match r {
            Some(update) => first_keyboard(inputs@) is Some
                && inputs@[first_keyboard(inputs@)->0].xkb_active_layout_name == Some(update.0),
            None => forall|k: int|
                0 <= k < inputs@.len() ==> inputs@[k].xkb_active_layout_name is None,
        },
{
    match keyboard_index(inputs) {
        Some(i) => match &inputs[i].xkb_active_layout_name {
            Some(layout) => Some(KeyboardLayoutUpdate(layout.clone())),
            None => None,
        },
        None => None,
    }
}

impl KeyboardLayoutUpdate {
    /// The layout that an input event reports, if it is about the layout.
    pub fn try_from(event: sway::InputEvent) -> (r: Option<Self>)
        ensures
            match r {
                Some(update) => !(event.change is Unknown)
                    && event.input.xkb_active_layout_name == Some(update.0),
                None => event.change is Unknown || event.input.xkb_active_layout_name is None,
            },
    {
        match event.change {
            sway::InputChange::XkbLayout | sway::InputChange::XkbKeymap => {
                match event.input.xkb_active_layout_name {
                    Some(layout) => Some(KeyboardLayoutUpdate(layout)),
                    None => None,
                }
            },
            sway::InputChange::Unknown => None,
        }
    }
}

impl BindModeUpdate {
    /// The mode to show: the mode named `default` is shown as no mode.
    pub fn of_mode(mode: &sway::ModeEvent) -> (r: Self)
        ensures
            r.pango_markup == mode.pango_markup,
            r.name@ == (if mode.change@ == "default"@ {
                Seq::<char>::empty()
            } else {
                mode.change@
            }),
    {
        let name = if same_text(mode.change.as_str(), "default") {
            String::new()
        } else {
            mode.change.clone()
        };
        BindModeUpdate { name, pango_markup: mode.pango_markup }
    }
}

/// A workspace is focused exactly if the compositor says so, and visible exactly
/// if it is focused or the compositor says that it is visible.
pub proof fn flags_decide_visibility(focused: bool, visible: bool)
    ensures
        visibility_of(focused, visible) == (Visibility::Visible { focused: true }) <==> focused,
        visibility_of(focused, visible) is Visible <==> focused || visible,
        visibility_of(focused, visible) is Hidden <==> !(focused || visible),
{
}

/// A listed workspace and a reported one are shown with what the compositor says
/// of them.
pub proof fn workspaces_are_shown_as_told(w: Workspace, listed: sway::Workspace, node: sway::Node)
    ensures
        is_listed_workspace(w, listed) ==> {
            &&& w.visibility == (Visibility::Visible { focused: true }) <==> listed.focused
            &&& w.visibility is Visible <==> listed.focused || listed.visible
            &&& w.id == listed.id && w.index == listed.num
            &&& w.name@ == listed.name@ && w.monitor@ == listed.output@
        },
        is_node_workspace(w, node) ==> {
            &&& w.visibility == (Visibility::Visible { focused: true }) <==> node.focused
            &&& w.visibility is Visible <==> node.focused || node.visible == Some(true)
            &&& w.id == node.id
            &&& node.num is Some ==> w.index == node.num->0
            &&& node.num is None ==> w.index == 0
            &&& node.name is Some ==> w.name@ == node.name->0@
            &&& node.name is None ==> w.name@.len() == 0
            &&& node.output is Some ==> w.monitor@ == node.output->0@
            &&& node.output is None ==> w.monitor@.len() == 0
        },
{
}

/// The layout shown is that of the first input device that has one.
pub proof fn first_keyboard_is_first(inputs: Seq<sway::Input>)
    ensures
        match first_keyboard(inputs) {
            Some(i) => 0 <= i < inputs.len() && inputs[i].xkb_active_layout_name is Some && forall|
                k: int,
            |
                0 <= k < i ==> (#[trigger] inputs[k]).xkb_active_layout_name is None,
            None => forall|k: int|
                0 <= k < inputs.len() ==> (#[trigger] inputs[k]).xkb_active_layout_name is None,
        },
    decreases inputs.len(),
{
    if inputs.len() > 0 {
        first_keyboard_is_first(inputs.drop_last());
        assert forall|k: int| 0 <= k < inputs.len() - 1 implies #[trigger] inputs[k]
            == inputs.drop_last()[k] by {}
    }
}

/// Every compositor but an unknown one has workspaces; i3 has no keyboard
/// layouts, and Niri has neither layouts nor modes.
pub proof fn what_each_compositor_has(c: Compositor)
    ensures
        c.supports(ClientKind::Workspaces) <==> !(c is Unsupported),
        c.supports(ClientKind::KeyboardLayout) <==> c is Sway || c is Hyprland,
        c.supports(ClientKind::BindMode) <==> c is Sway || c is Hyprland || c is I3,
        c.supports(ClientKind::KeyboardLayout) ==> c.supports(ClientKind::BindMode),
        c.supports(ClientKind::BindMode) ==> c.supports(ClientKind::Workspaces),
{
}

/// A variable counts as set only if it is not empty.
pub proof fn empty_variables_are_not_set(value: Option<String>)
    ensures
        is_set(value) <==> value is Some && value->0@.len() > 0,
{
}

/// Names are listed in quotes with commas between them.
pub proof fn names_are_listed(names: Seq<&'static str>, name: &'static str)
    ensures
        quoted_names(Seq::empty()).len() == 0,
        names.len() == 0 ==> quoted_names(names.push(name)) == crate::text::debug_text(name@),
        names.len() > 0 ==> quoted_names(names.push(name)) == quoted_names(names) + ", "@
            + crate::text::debug_text(name@),
{
    assert(names.push(name).drop_last() =~= names);
}

/// An update tells what its event says: a workspace that is there now is added,
/// moved or focused as it is reported, the one that lost the focus with it; one
/// that is gone, renamed or urgent goes by its id. An event without the workspace
/// that it is about tells nothing.
pub proof fn updates_describe_their_event(u: WorkspaceUpdate, event: sway::WorkspaceEvent)
    requires
        u.describes(event),
    ensures
        event.change is Init && event.current is Some ==> u is Add && is_node_workspace(
            u->Add_0,
            event.current->0,
        ),
        event.change is Move && event.current is Some ==> u is Move && is_node_workspace(
            u->Move_0,
            event.current->0,
        ),
        event.change is Focus && event.current is Some ==> u is Focus && is_node_workspace(
            u->Focus_new,
            event.current->0,
        ) && (u->Focus_old is Some <==> event.old is Some),
        event.change is Focus && event.current is Some && event.old is Some ==> is_node_workspace(
            u->Focus_old->0,
            event.old->0,
        ),
        event.change is Empty && event.current is Some ==> u == WorkspaceUpdate::Remove(
            event.current->0.id,
        ),
        event.change is Empty && event.current is None && event.old is Some ==> u
            == WorkspaceUpdate::Remove(event.old->0.id),
        event.change is Rename && event.current is Some ==> u is Rename && u->Rename_id
            == event.current->0.id && u->Rename_name@ == crate::text::text_or_empty(
            event.current->0.name,
        ),
        event.change is Urgent && event.current is Some ==> u is Urgent && u->Urgent_id
            == event.current->0.id && u->Urgent_urgent == event.current->0.urgent,
        event.change is Unknown || (event.current is None && !(event.change is Empty)) || (
        event.current is None && event.old is None) ==> u is Unknown,
{
}

} // verus!
