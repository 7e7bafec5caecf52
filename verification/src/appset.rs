//! Launching a set of applications together: what is asked for, and what is
//! under way.

use crate::column::{copy_texts, App, Machine};
use crate::text::{decimal, same_text, trim};
use vstd::prelude::*;
use vstd::string::*;

verus! {

/// The most applications that are launched together.
pub const MAX_APPSET_LAUNCH: usize = 64;

/// The complaint about a set that is too large.
pub open spec fn too_many(apps: nat) -> Seq<char> {
    "refusing to launch "@ + crate::text::decimal_text(apps)
        + " applications as one appset (maximum "@ + crate::text::decimal_text(
        MAX_APPSET_LAUNCH as nat,
    ) + ")"@
}

/// Refuses a set that is too large.
pub fn validate_launch_batch_len(apps: usize) -> (r: Result<(), String>)
    ensures
        match r {
            Ok(()) => apps <= MAX_APPSET_LAUNCH,
            Err(message) => apps > MAX_APPSET_LAUNCH && message@ == too_many(apps as nat),
        },
        r is Ok <==> apps <= 64,
{
    if apps > MAX_APPSET_LAUNCH {
        let mut message = "refusing to launch ".to_owned();
        message.append(decimal(apps as u128).as_str());
        message.append(" applications as one appset (maximum ");
        message.append(decimal(MAX_APPSET_LAUNCH as u128).as_str());
        message.append(")");
        Err(message)
    } else {
        Ok(())
    }
}

/// An application to launch, with its arguments.
#[derive(Debug, PartialEq, Eq)]
pub struct LaunchRequest {
    pub app_id: String,
    pub app_name: String,
    pub machine_name: String,
    pub argv: Vec<String>,
}

/// What a request holds.
#[verifier::ext_equal]
pub struct RequestView {
    pub app_id: Seq<char>,
    pub app_name: Seq<char>,
    pub machine_name: Seq<char>,
    pub argv: Seq<Seq<char>>,
}

impl View for LaunchRequest {
    type V = RequestView;

    open spec fn view(&self) -> RequestView {
        RequestView {
            app_id: self.app_id@,
            app_name: self.app_name@,
            machine_name: self.machine_name@,
            argv: crate::text::texts(self.argv@),
        }
    }
}

/// What becomes of a wish to launch an application: a request, or a complaint.
pub enum Wish {
    Request(RequestView),
    Complaint(Seq<char>),
}

/// The arguments that a machine gives an application.
pub open spec fn argv_of(argv: Option<Vec<String>>) -> Option<Seq<Seq<char>>> {
    match argv {
        Some(list) => Some(crate::text::texts(list@)),
        None => None,
    }
}

/// What becomes of a wish to launch an application. `terminal` says whether a
/// terminal is configured; a machine that gives no arguments can only be looked
/// at.
pub open spec fn wish_of(
    machine: Machine,
    app: App,
    terminal: bool,
    argv: Option<Seq<Seq<char>>>,
) -> Wish {
    if app.terminal && !terminal {
        Wish::Complaint(
            app.name@ + " needs a terminal and none is configured (set `terminal` in config)"@,
        )
    } else if crate::text::trimmed(app.command@).len() == 0 {
        Wish::Complaint(app.name@ + " has an empty exec line"@)
    } else {
        match argv {
            None => Wish::Complaint(machine.name@ + " is a read-only column"@),
            Some(list) => if list.len() == 0 {
                Wish::Complaint(app.name@ + " has no exec line"@)
            } else {
                Wish::Request(
                    RequestView {
                        app_id: app.id@,
                        app_name: app.name@,
                        machine_name: machine.name@,
                        argv: list,
                    },
                )
            },
        }
    }
}

impl LaunchRequest {
    /// The request to launch an application, or why there is none. `argv` are the
    /// arguments that the machine gives the application.
    pub fn new(
        machine: &Machine,
        app: &App,
        terminal: &Vec<String>,
        argv: &Option<Vec<String>>,
    ) -> (r: Result<Self, String>)
        ensures
            match wish_of(*machine, *app, terminal@.len() > 0, argv_of(*argv)) {
                Wish::Request(view) => r is Ok && r->Ok_0@ == view,
                Wish::Complaint(message) => r is Err && r->Err_0@ == message,
            },
            r is Ok <==> {
                &&& app.terminal ==> terminal@.len() > 0
                &&& exists|i: int|
                    0 <= i < app.command@.len() && !crate::text::white_space(
                        #[trigger] app.command@[i],
                    )
                &&& argv is Some && argv->0@.len() > 0
            },
            r matches Ok(request) ==> {
                &&& request.app_id@ == app.id@
                &&& request.app_name@ == app.name@
                &&& request.machine_name@ == machine.name@
                &&& request.argv@.len() == argv->0@.len()
                &&& forall|i: int|
                    0 <= i < request.argv@.len() ==> (#[trigger] request.argv@[i])@
                        == argv->0@[i]@
            },
    {
        proof {
            crate::text::trimming_takes_only_the_ends(app.command@);
        }
        if app.terminal && terminal.len() == 0 {
            let mut message = app.name.clone();
            message.append(" needs a terminal and none is configured (set `terminal` in config)");
            return Err(message);
        }
        let command = trim(app.command.as_str());
        if command.as_str().is_empty() {
            let mut message = app.name.clone();
            message.append(" has an empty exec line");
            return Err(message);
        }
        match argv {
            None => {
                let mut message = machine.name.clone();
                message.append(" is a read-only column");
                Err(message)
            },
            Some(list) => {
                if list.len() == 0 {
                    let mut message = app.name.clone();
                    message.append(" has no exec line");
                    return Err(message);
                }
                let arguments = copy_texts(list);
                proof {
                    assert(crate::text::texts(arguments@).len() == arguments@.len());
                    assert forall|i: int| 0 <= i < arguments@.len() implies (
                    #[trigger] arguments@[i])@ == list@[i]@ by {
                        assert(crate::text::texts(arguments@)[i] == arguments@[i]@);
                        assert(crate::text::texts(list@)[i] == list@[i]@);
                    }
                }
                Ok(
                    LaunchRequest {
                        app_id: app.id.clone(),
                        app_name: app.name.clone(),
                        machine_name: machine.name.clone(),
                        argv: arguments,
                    },
                )
            },
        }
    }
}

/// The launches that are under way: each a machine and the id of an application.
#[derive(Debug)]
pub struct Inflight {
    pub keys: Vec<(String, String)>,
}

/// Whether a machine's application is in a list of launches.
pub open spec fn listed(keys: Seq<(String, String)>, machine: Seq<char>, app: Seq<char>) -> bool {
    exists|i: int|
        0 <= i < keys.len() && (#[trigger] keys[i]).0@ == machine && keys[i].1@ == app
}

impl Inflight {
    /// Whether a launch is under way.
    pub open spec fn has(self, machine: Seq<char>, app: Seq<char>) -> bool {
        listed(self.keys@, machine, app)
    }

    pub fn new() -> (r: Self)
        ensures
            forall|machine: Seq<char>, app: Seq<char>| !(#[trigger] r.has(machine, app)),
    {
        Inflight { keys: Vec::new() }
    }

    /// Whether no launch is under way.
    pub fn is_empty(&self) -> (r: bool)
        ensures
            r == (forall|machine: Seq<char>, app: Seq<char>| !(#[trigger] self.has(machine, app))),
    {
        let r = self.keys.len() == 0;
        proof {
            if !r {
                let key = self.keys@[0];
                assert(self.has(key.0@, key.1@));
            }
        }
        r
    }

    fn contains(&self, machine: &str, app: &str) -> (r: bool)
        ensures
            r == self.has(machine@, app@),
    {
        let mut i: usize = 0;
        while i < self.keys.len()
            invariant
                i <= self.keys.len(),
                forall|k: int|
                    0 <= k < i ==> !((#[trigger] self.keys@[k]).0@ == machine@ && self.keys@[k].1@
                        == app@),
            decreases self.keys.len() - i,
        {
            if same_text(self.keys[i].0.as_str(), machine) && same_text(
                self.keys[i].1.as_str(),
                app,
            ) {
                return true;
            }
            i = i + 1;
        }
        false
    }

    fn insert(&mut self, machine: &str, app: &str)
        ensures
            forall|m: Seq<char>, a: Seq<char>|
                #[trigger] final(self).has(m, a) == (old(self).has(m, a) || (m == machine@ && a
                    == app@)),
    {
        let ghost before = self.keys@;
        self.keys.push((machine.to_owned(), app.to_owned()));
        let ghost after = self.keys@;
        proof {
            assert forall|m: Seq<char>, a: Seq<char>|
                #[trigger] listed(after, m, a) == (listed(before, m, a) || (m == machine@ && a
                    == app@)) by {
                if listed(before, m, a) {
                    let i = choose|i: int|
                        0 <= i < before.len() && (#[trigger] before[i]).0@ == m && before[i].1@
                            == a;
                    assert(after[i] == before[i]);
                }
                if m == machine@ && a == app@ {
                    assert(after[before.len() as int].0@ == m);
                }
                if listed(after, m, a) {
                    let i = choose|i: int|
                        0 <= i < after.len() && (#[trigger] after[i]).0@ == m && after[i].1@ == a;
                    if i < before.len() {
                        assert(after[i] == before[i]);
                    }
                }
            }
        }
    }

    fn remove(&mut self, machine: &str, app: &str)
        ensures
            forall|m: Seq<char>, a: Seq<char>|
                #[trigger] final(self).has(m, a) == (old(self).has(m, a) && !(m == machine@ && a
                    == app@)),
    {
        let ghost all = self.keys@;
        let mut i: usize = 0;
        while i < self.keys.len()
            invariant
                i <= self.keys.len(),
                forall|k: int|
                    0 <= k < i ==> !((#[trigger] self.keys@[k]).0@ == machine@ && self.keys@[k].1@
                        == app@),
                forall|m: Seq<char>, a: Seq<char>|
                    !(m == machine@ && a == app@) ==> #[trigger] listed(self.keys@, m, a) == listed(
                        all,
                        m,
                        a,
                    ),
            decreases self.keys.len() - i,
        {
            if same_text(self.keys[i].0.as_str(), machine) && same_text(
                self.keys[i].1.as_str(),
                app,
            ) {
                let ghost before = self.keys@;
                let gone = self.keys.remove(i);
                let ghost after = self.keys@;
                proof {
                    assert forall|m: Seq<char>, a: Seq<char>|
                        !(m == machine@ && a == app@) implies #[trigger] listed(after, m, a)
                        == listed(all, m, a) by {
                        assert(listed(before, m, a) == listed(all, m, a));
                        if listed(before, m, a) {
                            let k = choose|k: int|
                                0 <= k < before.len() && (#[trigger] before[k]).0@ == m
                                    && before[k].1@ == a;
                            let o = if k < i {
                                k
                            } else {
                                k - 1
                            };
                            assert(after[o] == before[k]);
                        }
                        if listed(after, m, a) {
                            let k = choose|k: int|
                                0 <= k < after.len() && (#[trigger] after[k]).0@ == m
                                    && after[k].1@ == a;
                            let o = if k < i {
                                k
                            } else {
                                k + 1
                            };
                            assert(before[o] == after[k]);
                        }
                    }
                    assert forall|k: int| 0 <= k < i implies !((#[trigger] after[k]).0@ == machine@
                        && after[k].1@ == app@) by {
                        assert(after[k] == before[k]);
                    }
                }
            } else {
                i = i + 1;
            }
        }
        proof {
            assert forall|m: Seq<char>, a: Seq<char>| #[trigger] self.has(m, a) == (old(self).has(
                m,
                a,
            ) && !(m == machine@ && a == app@)) by {
                assert(listed(self.keys@, m, a) == self.has(m, a));
            }
        }
    }
}

/// Whether one of the requests is for an application of that id.
pub open spec fn requested(requests: Seq<RequestView>, app: Seq<char>) -> bool {
    exists|i: int| 0 <= i < requests.len() && (#[trigger] requests[i]).app_id == app
}

/// The requests and the complaints that a set of applications makes. What is
/// under way already, or asked for twice, is left out.
pub open spec fn planned(
    machine: Machine,
    apps: Seq<App>,
    argvs: Seq<Option<Vec<String>>>,
    terminal: bool,
    inflight: Inflight,
) -> (Seq<RequestView>, Seq<Seq<char>>)
    decreases apps.len(),
{
    if apps.len() == 0 {
        (Seq::empty(), Seq::empty())
    } else {
        let (requests, complaints) = planned(
            machine,
            apps.drop_last(),
            argvs,
            terminal,
            inflight,
        );
        let app = apps.last();
        if inflight.has(machine.name@, app.id@) || requested(requests, app.id@) {
            (requests, complaints)
        } else {
            match wish_of(machine, app, terminal, argv_of(argvs[apps.len() - 1])) {
                Wish::Request(request) => (requests.push(request), complaints),
                Wish::Complaint(message) => (requests, complaints.push(message)),
            }
        }
    }
}

/// What requests hold.
pub open spec fn request_views(requests: Seq<LaunchRequest>) -> Seq<RequestView> {
    Seq::new(requests.len(), |i: int| requests[i]@)
}

/// What a set of applications makes.
#[derive(Debug)]
pub struct LaunchPlan {
    pub requests: Vec<LaunchRequest>,
    pub complaints: Vec<String>,
}

/// Plans to launch a set of applications together. The requests are marked as
/// under way, to be submitted all or none. `argvs` are the arguments that the
/// machine gives each application.
pub fn queue_launch(
    machine: &Machine,
    apps: &Vec<App>,
    argvs: &Vec<Option<Vec<String>>>,
    terminal: &Vec<String>,
    inflight: &mut Inflight,
) -> (r: LaunchPlan)
    requires
        argvs@.len() == apps@.len(),
    ensures
        if apps@.len() > MAX_APPSET_LAUNCH {
            &&& r.requests@.len() == 0
            &&& crate::text::texts(r.complaints@) == seq![too_many(apps@.len())]
            &&& *final(inflight) == *old(inflight)
        } else {
            &&& (request_views(r.requests@), crate::text::texts(r.complaints@)) == planned(
                *machine,
                apps@,
                argvs@,
                terminal@.len() > 0,
                *old(inflight),
            )
            &&& forall|m: Seq<char>, a: Seq<char>|
                #[trigger] final(inflight).has(m, a) == (old(inflight).has(m, a) || (m
                    == machine.name@ && requested(request_views(r.requests@), a)))
        },
{
    if let Err(message) = validate_launch_batch_len(apps.len()) {
        let mut complaints: Vec<String> = Vec::new();
        complaints.push(message);
        assert(crate::text::texts(complaints@) =~= seq![too_many(apps@.len())]);
        return LaunchPlan { requests: Vec::new(), complaints };
    }
    let ghost before = *inflight;
    let ghost on = terminal@.len() > 0;
    let mut requests: Vec<LaunchRequest> = Vec::new();
    let mut complaints: Vec<String> = Vec::new();
    let mut i: usize = 0;
    proof {
        assert(request_views(requests@) =~= Seq::empty());
        assert(crate::text::texts(complaints@) =~= Seq::empty());
        assert(planned(*machine, apps@.take(0), argvs@, on, before) == (
            Seq::<RequestView>::empty(),
            Seq::<Seq<char>>::empty(),
        ));
    }
    while i < apps.len()
        invariant
            i <= apps.len(),
            argvs@.len() == apps@.len(),
            on == (terminal@.len() > 0),
            (request_views(requests@), crate::text::texts(complaints@)) == planned(
                *machine,
                apps@.take(i as int),
                argvs@,
                on,
                before,
            ),
            forall|m: Seq<char>, a: Seq<char>|
                #[trigger] inflight.has(m, a) == (before.has(m, a) || (m == machine.name@
                    && requested(request_views(requests@), a))),
        decreases apps.len() - i,
    {
        proof {
            assert(apps@.take(i + 1).drop_last() =~= apps@.take(i as int));
            assert(apps@.take(i + 1).last() == apps@[i as int]);
        }
        let app = &apps[i];
        let ghost known = request_views(requests@);
        let ghost told = crate::text::texts(complaints@);
        if !inflight.contains(machine.name.as_str(), app.id.as_str()) {
            match LaunchRequest::new(machine, app, terminal, &argvs[i]) {
                Ok(request) => {
                    let ghost view = request@;
                    inflight.insert(machine.name.as_str(), app.id.as_str());
                    requests.push(request);
                    proof {
                        assert(request_views(requests@) =~= known.push(view));
                        assert forall|a: Seq<char>| #[trigger] requested(known.push(view), a) == (
                        requested(known, a) || a == app.id@) by {
                            if requested(known, a) {
                                let k = choose|k: int|
                                    0 <= k < known.len() && (#[trigger] known[k]).app_id == a;
                                assert(known.push(view)[k].app_id == a);
                            }
                            if a == app.id@ {
                                assert(known.push(view)[known.len() as int].app_id == a);
                            }
                            if requested(known.push(view), a) {
                                let k = choose|k: int|
                                    0 <= k < known.push(view).len() && (#[trigger] known.push(
                                        view,
                                    )[k]).app_id == a;
                                if k < known.len() {
                                    assert(known[k].app_id == a);
                                }
                            }
                        }
                    }
                },
                Err(message) => {
                    let ghost text = message@;
                    complaints.push(message);
                    assert(crate::text::texts(complaints@) =~= told.push(text));
                },
            }
        }
        i = i + 1;
    }
    assert(apps@.take(i as int) =~= apps@);
    LaunchPlan { requests, complaints }
}

/// Marks requests as no longer under way: they were refused, or have come to an
/// end.
pub fn release(requests: &Vec<LaunchRequest>, inflight: &mut Inflight)
    ensures
        forall|m: Seq<char>, a: Seq<char>|
            #[trigger] final(inflight).has(m, a) == (old(inflight).has(m, a) && !asked_for(
                request_views(requests@),
                m,
                a,
            )),
{
    let ghost before = *inflight;
    let ghost views = request_views(requests@);
    let mut i: usize = 0;
    while i < requests.len()
        invariant
            i <= requests.len(),
            views == request_views(requests@),
            forall|m: Seq<char>, a: Seq<char>|
                #[trigger] inflight.has(m, a) == (before.has(m, a) && !asked_for(
                    views.take(i as int),
                    m,
                    a,
                )),
        decreases requests.len() - i,
    {
        let ghost done = views.take(i as int);
        let ghost next = views.take(i + 1);
        let ghost now = *inflight;
        inflight.remove(requests[i].machine_name.as_str(), requests[i].app_id.as_str());
        proof {
            assert(next =~= done.push(views[i as int]));
            assert forall|m: Seq<char>, a: Seq<char>| #[trigger] inflight.has(m, a) == (before.has(
                m,
                a,
            ) && !asked_for(next, m, a)) by {
                assert(now.has(m, a) == (before.has(m, a) && !asked_for(done, m, a)));
                asked_for_push(done, views[i as int], m, a);
            }
        }
        i = i + 1;
    }
    assert(views.take(i as int) =~= views);
}

/// Whether one of the requests is for that application of that machine.
pub open spec fn asked_for(requests: Seq<RequestView>, machine: Seq<char>, app: Seq<char>) -> bool {
    exists|i: int|
        0 <= i < requests.len() && (#[trigger] requests[i]).machine_name == machine
            && requests[i].app_id == app
}

proof fn asked_for_push(
    requests: Seq<RequestView>,
    last: RequestView,
    machine: Seq<char>,
    app: Seq<char>,
)
    ensures
        asked_for(requests.push(last), machine, app) == (asked_for(requests, machine, app) || (
        last.machine_name == machine && last.app_id == app)),
{
    let more = requests.push(last);
    if asked_for(requests, machine, app) {
        let i = choose|i: int|
            0 <= i < requests.len() && (#[trigger] requests[i]).machine_name == machine
                && requests[i].app_id == app;
        assert(more[i] == requests[i]);
    }
    if last.machine_name == machine && last.app_id == app {
        assert(more[requests.len() as int] == last);
    }
    if asked_for(more, machine, app) {
        let i = choose|i: int|
            0 <= i < more.len() && (#[trigger] more[i]).machine_name == machine && more[i].app_id
                == app;
        if i < requests.len() {
            assert(requests[i] == more[i]);
        }
    }
}

/// The ids of the applications that started, in the order of their requests.
pub open spec fn launched(requests: Seq<RequestView>, started: Seq<bool>) -> Seq<Seq<char>>
    decreases requests.len(),
{
    if requests.len() == 0 {
        Seq::empty()
    } else {
        let before = launched(requests.drop_last(), started);
        if started[requests.len() - 1] {
            before.push(requests.last().app_id)
        } else {
            before
        }
    }
}

/// Brings requests to an end: none of them is under way any more. The result
/// lists the applications that started.
pub fn finish_launch(
    requests: &Vec<LaunchRequest>,
    started: &Vec<bool>,
    inflight: &mut Inflight,
) -> (r: Vec<String>)
    requires
        started@.len() == requests@.len(),
    ensures
        crate::text::texts(r@) == launched(request_views(requests@), started@),
        forall|m: Seq<char>, a: Seq<char>|
            #[trigger] final(inflight).has(m, a) == (old(inflight).has(m, a) && !asked_for(
                request_views(requests@),
                m,
                a,
            )),
{
    release(requests, inflight);
    let ghost views = request_views(requests@);
    let mut out: Vec<String> = Vec::new();
    let mut i: usize = 0;
    assert(crate::text::texts(out@) =~= launched(views.take(0), started@));
    while i < requests.len()
        invariant
            i <= requests.len(),
            started@.len() == requests@.len(),
            views == request_views(requests@),
            crate::text::texts(out@) == launched(views.take(i as int), started@),
        decreases requests.len() - i,
    {
        proof {
            assert(views.take(i + 1).drop_last() =~= views.take(i as int));
            assert(views.take(i + 1).last() == views[i as int]);
        }
        if started[i] {
            let ghost before = crate::text::texts(out@);
            out.push(requests[i].app_id.clone());
            assert(crate::text::texts(out@) =~= before.push(views[i as int].app_id));
        }
        i = i + 1;
    }
    assert(views.take(i as int) =~= views);
    out
}

/// No application is launched twice at a time: the requests of a plan are for
/// different applications, all of the machine, and none of them was under way.
pub proof fn launches_are_exclusive(
    machine: Machine,
    apps: Seq<App>,
    argvs: Seq<Option<Vec<String>>>,
    terminal: bool,
    inflight: Inflight,
)
    ensures
        ({
            let requests = planned(machine, apps, argvs, terminal, inflight).0;
            &&& forall|i: int|
                0 <= i < requests.len() ==> (#[trigger] requests[i]).machine_name == machine.name@
                    && !inflight.has(machine.name@, requests[i].app_id)
            &&& forall|i: int, j: int|
                0 <= i < j < requests.len() ==> (#[trigger] requests[i]).app_id != (
                #[trigger] requests[j]).app_id
        }),
    decreases apps.len(),
{
    if apps.len() > 0 {
        launches_are_exclusive(machine, apps.drop_last(), argvs, terminal, inflight);
        let fewer = planned(machine, apps.drop_last(), argvs, terminal, inflight).0;
        let requests = planned(machine, apps, argvs, terminal, inflight).0;
        assert forall|i: int, j: int| 0 <= i < j < requests.len() implies (
        #[trigger] requests[i]).app_id != (#[trigger] requests[j]).app_id by {
            assert(requests[i] == fewer[i]);
            if j < fewer.len() {
                assert(requests[j] == fewer[j]);
            } else {
                assert(!requested(fewer, apps.last().id@));
                assert(fewer[i].app_id != apps.last().id@);
            }
        }
        assert forall|i: int| 0 <= i < requests.len() implies (
        #[trigger] requests[i]).machine_name == machine.name@ && !inflight.has(
            machine.name@,
            requests[i].app_id,
        ) by {
            if i < fewer.len() {
                assert(requests[i] == fewer[i]);
            }
        }
    }
}

/// Planning and then finishing, or refusing, leaves what is under way as it was.
pub proof fn finished_launches_leave_no_trace(
    machine: Machine,
    apps: Seq<App>,
    argvs: Seq<Option<Vec<String>>>,
    terminal: bool,
    inflight: Inflight,
    m: Seq<char>,
    a: Seq<char>,
)
    ensures
        ({
            let requests = planned(machine, apps, argvs, terminal, inflight).0;
            let queued = inflight.has(m, a) || (m == machine.name@ && requested(requests, a));
            (queued && !asked_for(requests, m, a)) == inflight.has(m, a)
        }),
{
    let requests = planned(machine, apps, argvs, terminal, inflight).0;
    launches_are_exclusive(machine, apps, argvs, terminal, inflight);
    if asked_for(requests, m, a) {
        let i = choose|i: int|
            0 <= i < requests.len() && (#[trigger] requests[i]).machine_name == m
                && requests[i].app_id == a;
        assert(!inflight.has(machine.name@, requests[i].app_id));
    }
    if m == machine.name@ && requested(requests, a) {
        let i = choose|i: int| 0 <= i < requests.len() && (#[trigger] requests[i]).app_id == a;
        assert(requests[i].machine_name == m);
    }
}

/// Every request of a plan is made of one of the applications and carries its
/// id, its name, the machine's name and its whole argument vector; the requests
/// stand in the order of the applications.
pub proof fn requests_carry_their_arguments(
    machine: Machine,
    apps: Seq<App>,
    argvs: Seq<Option<Vec<String>>>,
    terminal: bool,
    inflight: Inflight,
) -> (from: Seq<int>)
    requires
        argvs.len() >= apps.len(),
    ensures
        ({
            let requests = planned(machine, apps, argvs, terminal, inflight).0;
            &&& from.len() == requests.len()
            &&& forall|i: int, j: int|
                0 <= i < j < from.len() ==> #[trigger] from[i] < #[trigger] from[j]
            &&& forall|i: int|
                0 <= i < from.len() ==> {
                    let k = #[trigger] from[i];
                    &&& 0 <= k < apps.len()
                    &&& requests[i].app_id == apps[k].id@
                    &&& requests[i].app_name == apps[k].name@
                    &&& requests[i].machine_name == machine.name@
                    &&& argvs[k] is Some && argvs[k]->0@.len() > 0
                    &&& requests[i].argv.len() == argvs[k]->0@.len()
                    &&& forall|j: int|
                        0 <= j < requests[i].argv.len() ==> #[trigger] requests[i].argv[j]
                            == argvs[k]->0@[j]@
                    &&& apps[k].terminal ==> terminal
                }
        }),
    decreases apps.len(),
{
    if apps.len() == 0 {
        Seq::empty()
    } else {
        let fewer = apps.drop_last();
        let before = requests_carry_their_arguments(machine, fewer, argvs, terminal, inflight);
        let known = planned(machine, fewer, argvs, terminal, inflight).0;
        let requests = planned(machine, apps, argvs, terminal, inflight).0;
        let last = apps.len() - 1;
        let from = if requests.len() == known.len() {
            before
        } else {
            before.push(last)
        };
        assert forall|i: int| 0 <= i < from.len() implies {
            let k = #[trigger] from[i];
            &&& 0 <= k < apps.len()
            &&& requests[i].app_id == apps[k].id@
            &&& requests[i].app_name == apps[k].name@
            &&& requests[i].machine_name == machine.name@
            &&& argvs[k] is Some && argvs[k]->0@.len() > 0
            &&& requests[i].argv.len() == argvs[k]->0@.len()
            &&& forall|j: int|
                0 <= j < requests[i].argv.len() ==> #[trigger] requests[i].argv[j]
                    == argvs[k]->0@[j]@
            &&& apps[k].terminal ==> terminal
        } by {
            if i < before.len() {
                let k = before[i];
                assert(from[i] == k);
                assert(fewer[k] == apps[k]);
                assert(requests[i] == known[i]);
            } else {
                let list = argvs[last]->0@;
                assert(crate::text::texts(list).len() == list.len());
                assert forall|j: int| 0 <= j < list.len() implies #[trigger] requests[i].argv[j]
                    == list[j]@ by {
                    assert(crate::text::texts(list)[j] == list[j]@);
                }
            }
        }
        assert forall|i: int, j: int| 0 <= i < j < from.len() implies #[trigger] from[i]
            < #[trigger] from[j] by {
            assert(from[i] == before[i]);
            assert(0 <= before[i] < fewer.len());
            if j < before.len() {
                assert(from[j] == before[j]);
            }
        }
        from
    }
}

/// Nothing is left out: an application that can be launched, and is not under
/// way, has a request. Where all of them can be, nobody is told of a fault.
pub proof fn launchable_applications_are_requested(
    machine: Machine,
    apps: Seq<App>,
    argvs: Seq<Option<Vec<String>>>,
    terminal: bool,
    inflight: Inflight,
    k: int,
)
    requires
        argvs.len() >= apps.len(),
        0 <= k < apps.len(),
        !inflight.has(machine.name@, apps[k].id@),
        apps[k].terminal ==> terminal,
        exists|i: int|
            0 <= i < apps[k].command@.len() && !crate::text::white_space(
                #[trigger] apps[k].command@[i],
            ),
        argvs[k] is Some && argvs[k]->0@.len() > 0,
    ensures
        exists|i: int|
            0 <= i < planned(machine, apps, argvs, terminal, inflight).0.len() && (
            #[trigger] planned(machine, apps, argvs, terminal, inflight).0[i]).app_id
                == apps[k].id@,
        apps.len() == 1 ==> planned(machine, apps, argvs, terminal, inflight).1.len() == 0,
    decreases apps.len(),
{
    let fewer = apps.drop_last();
    let known = planned(machine, fewer, argvs, terminal, inflight).0;
    let requests = planned(machine, apps, argvs, terminal, inflight).0;
    reveal_with_fuel(planned, 2);
    crate::text::trimming_takes_only_the_ends(apps[k].command@);
    assert(crate::text::texts(argvs[k]->0@).len() == argvs[k]->0@.len());
    if k < fewer.len() {
        assert(fewer[k] == apps[k]);
        launchable_applications_are_requested(machine, fewer, argvs, terminal, inflight, k);
        let i = choose|i: int|
            0 <= i < known.len() && (#[trigger] known[i]).app_id == apps[k].id@;
        assert(requests[i] == known[i]);
    } else {
        assert(apps.last() == apps[k]);
        if requested(known, apps[k].id@) {
            let i = choose|i: int|
                0 <= i < known.len() && (#[trigger] known[i]).app_id == apps[k].id@;
            assert(requests[i].app_id == apps[k].id@);
        } else {
            assert(requests[known.len() as int].app_id == apps[k].id@);
        }
    }
}

/// The applications that started are those whose launch succeeded, in the order
/// of the requests: the list grows by the id of a request exactly where that
/// request started.
pub proof fn started_applications_are_told(requests: Seq<RequestView>, started: Seq<bool>, n: int)
    requires
        requests.len() == started.len(),
        0 <= n < requests.len(),
    ensures
        launched(requests.take(0), started).len() == 0,
        started[n] ==> launched(requests.take(n + 1), started) == launched(
            requests.take(n),
            started,
        ) + seq![requests[n].app_id],
        !started[n] ==> launched(requests.take(n + 1), started) == launched(
            requests.take(n),
            started,
        ),
{
    assert(requests.take(n + 1).drop_last() =~= requests.take(n));
    assert(requests.take(n + 1).last() == requests[n]);
    if started[n] {
        assert(launched(requests.take(n + 1), started) =~= launched(requests.take(n), started)
            + seq![requests[n].app_id]);
    }
}

/// What contracts say of a request is said of its fields.
pub proof fn requests_show_their_fields(request: LaunchRequest, i: int)
    ensures
        request@.app_id == request.app_id@,
        request@.app_name == request.app_name@,
        request@.machine_name == request.machine_name@,
        request@.argv.len() == request.argv@.len(),
        0 <= i < request.argv@.len() ==> request@.argv[i] == request.argv@[i]@,
{
}

/// An application that cannot be launched is complained of, with its reason: it
/// needs a terminal and none is configured, its command line is blank or names
/// nothing, or its column is read-only.
pub proof fn refusals_are_explained(
    machine: Machine,
    app: App,
    terminal: bool,
    argv: Option<Seq<Seq<char>>>,
)
    ensures
        app.terminal && !terminal ==> wish_of(machine, app, terminal, argv) == Wish::Complaint(
            app.name@ + " needs a terminal and none is configured (set `terminal` in config)"@,
        ),
        !(app.terminal && !terminal) && crate::text::trimmed(app.command@).len() == 0 ==> wish_of(
            machine,
            app,
            terminal,
            argv,
        ) == Wish::Complaint(app.name@ + " has an empty exec line"@),
        !(app.terminal && !terminal) && crate::text::trimmed(app.command@).len() > 0 && argv is None
            ==> wish_of(machine, app, terminal, argv) == Wish::Complaint(
            machine.name@ + " is a read-only column"@,
        ),
        !(app.terminal && !terminal) && crate::text::trimmed(app.command@).len() > 0 && argv is Some
            && argv->0.len() == 0 ==> wish_of(machine, app, terminal, argv) == Wish::Complaint(
            app.name@ + " has no exec line"@,
        ),
        !(app.terminal && !terminal) && crate::text::trimmed(app.command@).len() > 0 && argv is Some
            && argv->0.len() > 0 ==> wish_of(machine, app, terminal, argv) is Request,
{
}

/// Applications are gone through in order. One that is being launched, or was
/// asked for before in the same plan, adds nothing; every other adds its request
/// or its complaint behind the others.
pub proof fn plans_go_in_order(
    machine: Machine,
    apps: Seq<App>,
    app: App,
    argvs: Seq<Option<Vec<String>>>,
    terminal: bool,
    inflight: Inflight,
)
    ensures
        ({
            let (requests, complaints) = planned(machine, apps, argvs, terminal, inflight);
            let (more, others) = planned(machine, apps.push(app), argvs, terminal, inflight);
            let again = listed(inflight.keys@, machine.name@, app.id@) || exists|i: int|
                0 <= i < requests.len() && (#[trigger] requests[i]).app_id == app.id@;
            let wish = wish_of(machine, app, terminal, argv_of(argvs[apps.len() as int]));
            &&& again ==> more == requests && others == complaints
            &&& !again && wish is Request ==> more == requests.push(wish->Request_0) && others
                == complaints
            &&& !again && wish is Complaint ==> more == requests && others == complaints.push(
                wish->Complaint_0,
            )
        }),
{
    assert(apps.push(app).drop_last() =~= apps);
}

/// What is said of too large a set: how many applications it has, and how many
/// may be launched at once.
pub proof fn large_sets_are_refused_by_number(apps: nat)
    ensures
        too_many(apps) == "refusing to launch "@ + crate::text::decimal_text(apps)
            + " applications as one appset (maximum "@ + crate::text::decimal_text(
            MAX_APPSET_LAUNCH as nat,
        ) + ")"@,
        MAX_APPSET_LAUNCH == 64,
{
}

} // verus!
