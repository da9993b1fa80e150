//! The order of things: which directory is looked at next, when the command is
//! started in it, and when a report goes out.
//!
//! A `Walk` only decides. Its caller carries out what it requests, and hands
//! back what came of it as an `Event`.

use crate::path::EntryPath;
use crate::process::{OsError, ProcessError, Report};
use vstd::prelude::*;

verus! {

/// How far a walk is.
#[derive(Debug)]
enum Phase {
    /// The first directory is being opened.
    Root(EntryPath),
    /// The first directory is open, and the command is started in its entries.
    Streaming,
    /// An entry of the innermost open directory is awaited.
    Walking,
    /// A directory further down is being opened.
    Entering(EntryPath),
    /// A directory is open, and as many commands run as may.
    Waiting(EntryPath),
    /// A directory is open, and whatever else is done is being reported.
    Clearing(EntryPath),
    /// No directory is left, and commands still run.
    Draining,
    /// Nothing is left.
    Done,
}

/// What a phase holds.
pub enum PhaseView {
    Root(Seq<u8>),
    Streaming,
    Walking,
    Entering(Seq<u8>),
    Waiting(Seq<u8>),
    Clearing(Seq<u8>),
    Draining,
    Done,
}

impl View for Phase {
    type V = PhaseView;

    closed spec fn view(&self) -> PhaseView {
        match self {
            Phase::Root(path) => PhaseView::Root(path@),
            Phase::Streaming => PhaseView::Streaming,
            Phase::Walking => PhaseView::Walking,
            Phase::Entering(path) => PhaseView::Entering(path@),
            Phase::Waiting(path) => PhaseView::Waiting(path@),
            Phase::Clearing(path) => PhaseView::Clearing(path@),
            Phase::Draining => PhaseView::Draining,
            Phase::Done => PhaseView::Done,
        }
    }
}

/// What came of a request.
#[derive(Debug)]
pub enum Event {
    /// The directory is open.
    Opened,
    /// The directory cannot be listed.
    NotOpened(OsError),
    /// The next entry to run the command in, or why there is none.
    Found(Result<EntryPath, ProcessError>),
    /// There is no further entry.
    Exhausted,
    /// A command is done.
    Settled(Report),
    /// No command is done at the moment.
    Idle,
}

/// What an `Event` holds.
pub enum EventView {
    Opened,
    NotOpened(crate::process::OsErrorView),
    Found(Result<Seq<u8>, crate::process::ProcessErrorView>),
    Exhausted,
    Settled(crate::process::ReportView),
    Idle,
}

impl View for Event {
    type V = EventView;

    open spec fn view(&self) -> EventView {
        match self {
            Event::Opened => EventView::Opened,
            Event::NotOpened(origin) => EventView::NotOpened(origin@),
            Event::Found(Ok(path)) => EventView::Found(Ok(path@)),
            Event::Found(Err(error)) => EventView::Found(Err(error@)),
            Event::Exhausted => EventView::Exhausted,
            Event::Settled(report) => EventView::Settled(crate::process::report_view(*report)),
            Event::Idle => EventView::Idle,
        }
    }
}

/// What the walk needs to know next.
#[derive(Debug)]
pub enum Request {
    /// Open this directory: `Opened` or `NotOpened`.
    Open(EntryPath),
    /// Look for an entry of the innermost open directory: `Found` or
    /// `Exhausted`.
    Find,
    /// Wait for one of the commands: `Settled`.
    Wait,
    /// See whether one of the commands is done: `Settled` or `Idle`.
    Poll,
    /// Look for an entry of the open directory and wait for the commands, if
    /// any run, whichever comes first: `Found`, `Exhausted` or `Settled`.
    Next,
    /// Nothing: the walk is over.
    Finish,
}

/// What a `Request` holds.
pub enum RequestView {
    Open(Seq<u8>),
    Find,
    Wait,
    Poll,
    Next,
    Finish,
}

impl View for Request {
    type V = RequestView;

    open spec fn view(&self) -> RequestView {
        match self {
            Request::Open(path) => RequestView::Open(path@),
            Request::Find => RequestView::Find,
            Request::Wait => RequestView::Wait,
            Request::Poll => RequestView::Poll,
            Request::Next => RequestView::Next,
            Request::Finish => RequestView::Finish,
        }
    }
}

/// What to do, in this order: hand out a report, start the command in a
/// directory, and see to the request.
#[derive(Debug)]
pub struct Step {
    pub deliver: Option<Report>,
    pub start: Option<EntryPath>,
    pub request: Request,
}

/// What a `Step` holds.
pub struct StepView {
    pub deliver: Option<crate::process::ReportView>,
    pub start: Option<Seq<u8>>,
    pub request: RequestView,
}

impl View for Step {
    type V = StepView;

    open spec fn view(&self) -> StepView {
        StepView {
            deliver: match self.deliver {
                Some(report) => Some(crate::process::report_view(report)),
                None => None,
            },
            start: match self.start {
                Some(path) => Some(path@),
                None => None,
            },
            request: self.request@,
        }
    }
}

/// A walk over the directories below a first one.
#[derive(Debug)]
pub struct Walk {
    recursive: bool,
    jobs: usize,
    phase: Phase,
    open: Vec<EntryPath>,
    running: usize,
}

/// What a `Walk` holds: whether it goes down the tree, how many commands may
/// run at a time, how far it is, the open directories from the outermost to the
/// innermost, and how many commands run.
#[verifier::ext_equal]
pub struct WalkView {
    pub recursive: bool,
    pub jobs: nat,
    pub phase: PhaseView,
    pub open: Seq<Seq<u8>>,
    pub running: nat,
}

/// What a list of paths holds.
pub open spec fn path_views(paths: Seq<EntryPath>) -> Seq<Seq<u8>> {
    Seq::new(paths.len(), |i: int| paths[i]@)
}

impl View for Walk {
    type V = WalkView;

    closed spec fn view(&self) -> WalkView {
        WalkView {
            recursive: self.recursive,
            jobs: self.jobs as nat,
            phase: self.phase@,
            open: path_views(self.open@),
            running: self.running as nat,
        }
    }
}

impl WalkView {
    /// A walk that starts at `root`.
    pub open spec fn start(root: Seq<u8>, recursive: bool, jobs: nat) -> WalkView {
        WalkView { recursive, jobs, phase: PhaseView::Root(root), open: Seq::empty(), running: 0 }
    }

    /// How many commands may run at a time: one at least.
    pub open spec fn limit(self) -> nat {
        if self.jobs == 0 {
            1
        } else {
            self.jobs
        }
    }

    /// What a walk that stays at the first directory requests when `running`
    /// commands run: more entries, unless no more commands may run.
    pub open spec fn streams(self, running: nat) -> RequestView {
        if running < self.limit() {
            RequestView::Next
        } else {
            RequestView::Wait
        }
    }

    /// What holds of every walk.
    pub open spec fn well_formed(self) -> bool {
        match self.phase {
            PhaseView::Root(_) => self.open.len() == 0 && self.running == 0,
            PhaseView::Streaming => !self.recursive && self.open.len() == 1 && self.running
                <= self.limit(),
            PhaseView::Walking | PhaseView::Entering(_) => self.recursive && self.open.len() > 0
                && 0 < self.running <= self.limit(),
            PhaseView::Waiting(_) => self.recursive && self.open.len() > 0 && self.running
                == self.limit(),
            PhaseView::Clearing(_) => self.recursive && self.open.len() > 0 && self.running
                < self.limit(),
            PhaseView::Draining => self.open.len() == 0 && 0 < self.running <= self.limit(),
            PhaseView::Done => self.open.len() == 0 && self.running == 0,
        }
    }

    /// Whether `event` can come of what the walk has requested.
    pub open spec fn accepts(self, event: EventView) -> bool {
        match self.phase {
            PhaseView::Root(_) | PhaseView::Entering(_) => event is Opened || event is NotOpened,
            PhaseView::Streaming => if event is Settled {
                self.running > 0
            } else {
                (event is Found || event is Exhausted) && self.running < self.limit()
            },
            PhaseView::Walking => event is Found || event is Exhausted,
            PhaseView::Waiting(_) | PhaseView::Draining => event is Settled,
            PhaseView::Clearing(_) => event is Idle || (event is Settled && self.running > 0),
            PhaseView::Done => false,
        }
    }

    /// The walk one event later, and what is to be done on it.
    pub open spec fn step(self, event: EventView) -> (WalkView, StepView) {
        match (self.phase, event) {
            (PhaseView::Root(root), EventView::NotOpened(origin)) => (
                WalkView { phase: PhaseView::Done, ..self },
                StepView {
                    deliver: Some(
                        Err(crate::process::ProcessErrorView::SubDirectories { entry: root, origin }),
                    ),
                    start: None,
                    request: RequestView::Finish,
                },
            ),
            (PhaseView::Root(root), EventView::Opened) => if self.recursive {
                (
                    WalkView {
                        phase: PhaseView::Walking,
                        open: self.open.push(root),
                        running: self.running + 1,
                        ..self
                    },
                    StepView { deliver: None, start: Some(root), request: RequestView::Find },
                )
            } else {
                (
                    WalkView { phase: PhaseView::Streaming, open: self.open.push(root), ..self },
                    StepView { deliver: None, start: None, request: RequestView::Next },
                )
            },
            (PhaseView::Streaming, EventView::Found(Ok(path))) => (
                WalkView { running: self.running + 1, ..self },
                StepView {
                    deliver: None,
                    start: Some(path),
                    request: self.streams(self.running + 1),
                },
            ),
            (PhaseView::Streaming, EventView::Found(Err(error))) => (
                self,
                StepView { deliver: Some(Err(error)), start: None, request: RequestView::Next },
            ),
            (PhaseView::Streaming, EventView::Settled(report)) => (
                WalkView { running: (self.running - 1) as nat, ..self },
                StepView { deliver: Some(report), start: None, request: RequestView::Next },
            ),
            (PhaseView::Streaming, EventView::Exhausted) => if self.running > 0 {
                (
                    WalkView { phase: PhaseView::Draining, open: Seq::empty(), ..self },
                    StepView { deliver: None, start: None, request: RequestView::Wait },
                )
            } else {
                (
                    WalkView { phase: PhaseView::Done, open: Seq::empty(), ..self },
                    StepView { deliver: None, start: None, request: RequestView::Finish },
                )
            },
            (PhaseView::Walking, EventView::Found(Ok(path))) => (
                WalkView { phase: PhaseView::Entering(path), ..self },
                StepView { deliver: None, start: None, request: RequestView::Open(path) },
            ),
            (PhaseView::Walking, EventView::Found(Err(error))) => (
                self,
                StepView { deliver: Some(Err(error)), start: None, request: RequestView::Find },
            ),
            (PhaseView::Walking, EventView::Exhausted) => if self.open.len() > 1 {
                (
                    WalkView { open: self.open.drop_last(), ..self },
                    StepView { deliver: None, start: None, request: RequestView::Find },
                )
            } else {
                (
                    WalkView { phase: PhaseView::Draining, open: Seq::empty(), ..self },
                    StepView { deliver: None, start: None, request: RequestView::Wait },
                )
            },
            (PhaseView::Entering(path), EventView::NotOpened(origin)) => (
                WalkView { phase: PhaseView::Walking, ..self },
                StepView {
                    deliver: Some(
                        Err(crate::process::ProcessErrorView::SubDirectories { entry: path, origin }),
                    ),
                    start: None,
                    request: RequestView::Find,
                },
            ),
            (PhaseView::Entering(path), EventView::Opened) => if self.running >= self.jobs {
                (
                    WalkView {
                        phase: PhaseView::Waiting(path),
                        open: self.open.push(path),
                        ..self
                    },
                    StepView { deliver: None, start: None, request: RequestView::Wait },
                )
            } else {
                (
                    WalkView {
                        phase: PhaseView::Walking,
                        open: self.open.push(path),
                        running: self.running + 1,
                        ..self
                    },
                    StepView { deliver: None, start: Some(path), request: RequestView::Find },
                )
            },
            (PhaseView::Waiting(path), EventView::Settled(report)) => (
                WalkView {
                    phase: PhaseView::Clearing(path),
                    running: (self.running - 1) as nat,
                    ..self
                },
                StepView { deliver: Some(report), start: None, request: RequestView::Poll },
            ),
            (PhaseView::Clearing(_), EventView::Settled(report)) => (
                WalkView { running: (self.running - 1) as nat, ..self },
                StepView { deliver: Some(report), start: None, request: RequestView::Poll },
            ),
            (PhaseView::Clearing(path), EventView::Idle) => (
                WalkView { phase: PhaseView::Walking, running: self.running + 1, ..self },
                StepView { deliver: None, start: Some(path), request: RequestView::Find },
            ),
            (PhaseView::Draining, EventView::Settled(report)) => if self.running > 1 {
                (
                    WalkView { running: (self.running - 1) as nat, ..self },
                    StepView { deliver: Some(report), start: None, request: RequestView::Wait },
                )
            } else {
                (
                    WalkView { phase: PhaseView::Done, running: 0, ..self },
                    StepView { deliver: Some(report), start: None, request: RequestView::Finish },
                )
            },
            _ => (self, StepView { deliver: None, start: None, request: RequestView::Finish }),
        }
    }
}

impl Walk {
    #[verifier::type_invariant]
    spec fn always(self) -> bool {
        self@.well_formed()
    }

    /// A walk that starts at `root`, and its first request.
    pub fn new(root: EntryPath, recursive: bool, jobs: usize) -> (walk: (Walk, Request))
        ensures
            walk.0@ == WalkView::start(root@, recursive, jobs as nat),
            walk.1@ == RequestView::Open(root@),
    {
        let request: Request = Request::Open(root.clone());
        let open: Vec<EntryPath> = Vec::new();
        assert(path_views(open@) == Seq::<Seq<u8>>::empty());
        (Walk { recursive, jobs, phase: Phase::Root(root), open, running: 0 }, request)
    }

    /// Whether `event` can come of what the walk has requested.
    pub fn accepts(&self, event: &Event) -> (accepted: bool)
        ensures
            accepted == self@.accepts(event@),
    {
        match (&self.phase, event) {
            (Phase::Root(_), Event::Opened) | (Phase::Root(_), Event::NotOpened(_)) => true,
            (Phase::Entering(_), Event::Opened) | (Phase::Entering(_), Event::NotOpened(_)) => true,
            (Phase::Streaming, Event::Settled(_)) => self.running > 0,
            (Phase::Streaming, Event::Found(_)) | (Phase::Streaming, Event::Exhausted) =>
                self.running < self.jobs || self.running == 0,
            (Phase::Walking, Event::Found(_)) | (Phase::Walking, Event::Exhausted) => true,
            (Phase::Waiting(_), Event::Settled(_)) | (Phase::Draining, Event::Settled(_)) => true,
            (Phase::Clearing(_), Event::Idle) => true,
            (Phase::Clearing(_), Event::Settled(_)) => self.running > 0,
            _ => false,
        }
    }

    /// How many commands run.
    pub fn running(&self) -> (count: usize)
        ensures
            count == self@.running,
    {
        self.running
    }

    /// The walk one event later, and what is to be done on it.
    pub fn step(self, event: Event) -> (next: (Walk, Step))
        requires
            self@.accepts(event@),
        ensures
            (next.0@, next.1@) == self@.step(event@),
            event matches Event::Settled(report) ==> next.1.deliver == Some(report),
            event matches Event::Found(Err(error)) ==> next.1.deliver == Some(
                Err::<(EntryPath, crate::process::Output), ProcessError>(error),
            ),
            event matches Event::Found(Ok(path)) ==> if self@.recursive {
                next.1.request matches Request::Open(open) && open@ == path@
            } else {
                next.1.start matches Some(start) && start@ == path@
            },
    {
        proof {
            use_type_invariant(&self);
        }
        let Walk { recursive, jobs, phase, open, running } = self;
        let mut open: Vec<EntryPath> = open;
        let ghost opened = path_views(open@);
        match (phase, event) {
            (Phase::Root(root), Event::NotOpened(origin)) => {
                let report: Report = unlisted(root, origin);
                (
                    Walk { recursive, jobs, phase: Phase::Done, open, running },
                    Step { deliver: Some(report), start: None, request: Request::Finish },
                )
            },
            (Phase::Root(root), Event::Opened) => {
                if recursive {
                    open.push(root.clone());
                    assert(path_views(open@) == opened.push(root@));
                    (
                        Walk { recursive, jobs, phase: Phase::Walking, open, running: running + 1 },
                        Step { deliver: None, start: Some(root), request: Request::Find },
                    )
                } else {
                    open.push(root.clone());
                    assert(path_views(open@) == opened.push(root@));
                    (
                        Walk { recursive, jobs, phase: Phase::Streaming, open, running },
                        Step { deliver: None, start: None, request: Request::Next },
                    )
                }
            },
            (Phase::Streaming, Event::Found(Ok(path))) => {
                let running: usize = running + 1;
                let request: Request = if running < jobs {
                    Request::Next
                } else {
                    Request::Wait
                };
                (
                    Walk { recursive, jobs, phase: Phase::Streaming, open, running },
                    Step { deliver: None, start: Some(path), request },
                )
            },
            (Phase::Streaming, Event::Found(Err(error))) => (
                Walk { recursive, jobs, phase: Phase::Streaming, open, running },
                Step { deliver: Some(Err(error)), start: None, request: Request::Next },
            ),
            (Phase::Streaming, Event::Settled(report)) => (
                Walk { recursive, jobs, phase: Phase::Streaming, open, running: running - 1 },
                Step { deliver: Some(report), start: None, request: Request::Next },
            ),
            (Phase::Streaming, Event::Exhausted) => {
                open.pop();
                assert(path_views(open@) == Seq::<Seq<u8>>::empty());
                if running > 0 {
                    (
                        Walk { recursive, jobs, phase: Phase::Draining, open, running },
                        Step { deliver: None, start: None, request: Request::Wait },
                    )
                } else {
                    (
                        Walk { recursive, jobs, phase: Phase::Done, open, running },
                        Step { deliver: None, start: None, request: Request::Finish },
                    )
                }
            },
            (Phase::Walking, Event::Found(Ok(path))) => {
                let request: Request = Request::Open(path.clone());
                (
                    Walk { recursive, jobs, phase: Phase::Entering(path), open, running },
                    Step { deliver: None, start: None, request },
                )
            },
            (Phase::Walking, Event::Found(Err(error))) => (
                Walk { recursive, jobs, phase: Phase::Walking, open, running },
                Step { deliver: Some(Err(error)), start: None, request: Request::Find },
            ),
            (Phase::Walking, Event::Exhausted) => {
                open.pop();
                assert(path_views(open@) == opened.drop_last());
                if open.len() > 0 {
                    (
                        Walk { recursive, jobs, phase: Phase::Walking, open, running },
                        Step { deliver: None, start: None, request: Request::Find },
                    )
                } else {
                    (
                        Walk { recursive, jobs, phase: Phase::Draining, open, running },
                        Step { deliver: None, start: None, request: Request::Wait },
                    )
                }
            },
            (Phase::Entering(path), Event::NotOpened(origin)) => {
                let report: Report = unlisted(path, origin);
                (
                    Walk { recursive, jobs, phase: Phase::Walking, open, running },
                    Step { deliver: Some(report), start: None, request: Request::Find },
                )
            },
            (Phase::Entering(path), Event::Opened) => {
                open.push(path.clone());
                assert(path_views(open@) == opened.push(path@));
                if running >= jobs {
                    (
                        Walk { recursive, jobs, phase: Phase::Waiting(path), open, running },
                        Step { deliver: None, start: None, request: Request::Wait },
                    )
                } else {
                    (
                        Walk { recursive, jobs, phase: Phase::Walking, open, running: running + 1 },
                        Step { deliver: None, start: Some(path), request: Request::Find },
                    )
                }
            },
            (Phase::Waiting(path), Event::Settled(report)) | (
                Phase::Clearing(path),
                Event::Settled(report),
            ) => (
                Walk { recursive, jobs, phase: Phase::Clearing(path), open, running: running - 1 },
                Step { deliver: Some(report), start: None, request: Request::Poll },
            ),
            (Phase::Clearing(path), Event::Idle) => (
                Walk { recursive, jobs, phase: Phase::Walking, open, running: running + 1 },
                Step { deliver: None, start: Some(path), request: Request::Find },
            ),
            (Phase::Draining, Event::Settled(report)) => {
                if running > 1 {
                    (
                        Walk { recursive, jobs, phase: Phase::Draining, open, running: running - 1 },
                        Step { deliver: Some(report), start: None, request: Request::Wait },
                    )
                } else {
                    (
                        Walk { recursive, jobs, phase: Phase::Done, open, running: 0 },
                        Step { deliver: Some(report), start: None, request: Request::Finish },
                    )
                }
            },
            (phase, _) => (
                Walk { recursive, jobs, phase, open, running },
                Step { deliver: None, start: None, request: Request::Finish },
            ),
        }
    }
}

/// What is reported where the directory `path` cannot be listed.
fn unlisted(path: EntryPath, origin: OsError) -> (report: Report)
    ensures
        crate::process::report_view(report) == Err::<
            (Seq<u8>, crate::process::OutputView),
            crate::process::ProcessErrorView,
        >(crate::process::ProcessErrorView::SubDirectories { entry: path@, origin: origin@ }),
{
    Err(ProcessError::SubDirectories { entry: path, origin })
}

/// The walk after `events`.
pub open spec fn walk_after(walk: WalkView, events: Seq<EventView>) -> WalkView
    decreases events.len(),
{
    if events.len() == 0 {
        walk
    } else {
        walk_after(walk, events.drop_last()).step(events.last()).0
    }
}

/// Whether each event can come of what was requested before it.
pub open spec fn is_run(walk: WalkView, events: Seq<EventView>) -> bool
    decreases events.len(),
{
    events.len() == 0 || (is_run(walk, events.drop_last()) && walk_after(
        walk,
        events.drop_last(),
    ).accepts(events.last()))
}

/// The reports handed out over `events`, in order.
pub open spec fn delivered(walk: WalkView, events: Seq<EventView>) -> Seq<
    crate::process::ReportView,
>
    decreases events.len(),
{
    if events.len() == 0 {
        Seq::empty()
    } else {
        let before = delivered(walk, events.drop_last());
        match walk_after(walk, events.drop_last()).step(events.last()).1.deliver {
            Some(report) => before.push(report),
            None => before,
        }
    }
}

/// The directories that the command is started in over `events`, in order.
pub open spec fn started(walk: WalkView, events: Seq<EventView>) -> Seq<Seq<u8>>
    decreases events.len(),
{
    if events.len() == 0 {
        Seq::empty()
    } else {
        let before = started(walk, events.drop_last());
        match walk_after(walk, events.drop_last()).step(events.last()).1.start {
            Some(path) => before.push(path),
            None => before,
        }
    }
}

/// The directory that a walk is opening.
pub open spec fn opening(walk: WalkView) -> Option<Seq<u8>> {
    match walk.phase {
        PhaseView::Root(path) => Some(path),
        PhaseView::Entering(path) => Some(path),
        _ => None,
    }
}

/// The directories that were opened over `events`, in order.
pub open spec fn entered(walk: WalkView, events: Seq<EventView>) -> Seq<Seq<u8>>
    decreases events.len(),
{
    if events.len() == 0 {
        Seq::empty()
    } else {
        let before = entered(walk, events.drop_last());
        match (opening(walk_after(walk, events.drop_last())), events.last()) {
            (Some(path), EventView::Opened) => before.push(path),
            _ => before,
        }
    }
}

/// What an event has to say of some directory.
pub open spec fn news(walk: WalkView, event: EventView) -> Option<crate::process::ReportView> {
    match event {
        EventView::Settled(report) => Some(report),
        EventView::Found(Err(error)) => Some(Err(error)),
        EventView::NotOpened(origin) => match opening(walk) {
            Some(path) => Some(
                Err(crate::process::ProcessErrorView::SubDirectories { entry: path, origin }),
            ),
            None => None,
        },
        _ => None,
    }
}

/// What `events` have to say, in order.
pub open spec fn all_news(walk: WalkView, events: Seq<EventView>) -> Seq<crate::process::ReportView>
    decreases events.len(),
{
    if events.len() == 0 {
        Seq::empty()
    } else {
        let before = all_news(walk, events.drop_last());
        match news(walk_after(walk, events.drop_last()), events.last()) {
            Some(report) => before.push(report),
            None => before,
        }
    }
}

/// How many commands were done over `events`.
pub open spec fn count_settled(events: Seq<EventView>) -> nat
    decreases events.len(),
{
    if events.len() == 0 {
        0
    } else {
        count_settled(events.drop_last()) + if events.last() is Settled {
            1nat
        } else {
            0nat
        }
    }
}

/// How many times the entries of a directory came to their end over `events`.
pub open spec fn count_exhausted(events: Seq<EventView>) -> nat
    decreases events.len(),
{
    if events.len() == 0 {
        0
    } else {
        count_exhausted(events.drop_last()) + if events.last() is Exhausted {
            1nat
        } else {
            0nat
        }
    }
}

/// A walk stays well formed, and what it was set up with stays as it was.
pub proof fn walk_stays_well_formed(walk: WalkView, events: Seq<EventView>)
    requires
        walk.well_formed(),
        is_run(walk, events),
    ensures
        walk_after(walk, events).well_formed(),
        walk_after(walk, events).recursive == walk.recursive,
        walk_after(walk, events).jobs == walk.jobs,
    decreases events.len(),
{
    if events.len() > 0 {
        walk_stays_well_formed(walk, events.drop_last());
    }
}

/// At no point of a walk do more commands run than there are jobs.
pub proof fn never_more_than_jobs(
    root: Seq<u8>,
    recursive: bool,
    jobs: nat,
    events: Seq<EventView>,
)
    requires
        jobs > 0,
        is_run(WalkView::start(root, recursive, jobs), events),
    ensures
        walk_after(WalkView::start(root, recursive, jobs), events).running <= jobs,
{
    walk_stays_well_formed(WalkView::start(root, recursive, jobs), events);
}

/// Whatever can come of a request is accepted, and a wait is never for a
/// command when none runs.
pub proof fn answers_are_accepted(walk: WalkView, event: EventView, answer: EventView)
    requires
        walk.well_formed(),
        walk.accepts(event),
    ensures
        match walk.step(event).1.request {
            RequestView::Open(_) => answer is Opened || answer is NotOpened ==> walk.step(
                event,
            ).0.accepts(answer),
            RequestView::Find => answer is Found || answer is Exhausted ==> walk.step(
                event,
            ).0.accepts(answer),
            RequestView::Wait => walk.step(event).0.running > 0 && (answer is Settled ==> walk.step(
                event,
            ).0.accepts(answer)),
            RequestView::Poll => answer is Idle || (answer is Settled && walk.step(event).0.running
                > 0) ==> walk.step(event).0.accepts(answer),
            RequestView::Next => answer is Found || answer is Exhausted || (answer is Settled
                && walk.step(event).0.running > 0) ==> walk.step(event).0.accepts(answer),
            RequestView::Finish => walk.step(event).0.phase is Done,
        },
        walk.step(event).0.phase is Done ==> walk.step(event).1.request is Finish,
{
}

/// Every piece of news is handed out, once, in the order in which it came, and
/// nothing else is.
pub proof fn all_news_is_delivered(walk: WalkView, events: Seq<EventView>)
    requires
        walk.well_formed(),
        is_run(walk, events),
    ensures
        delivered(walk, events) == all_news(walk, events),
    decreases events.len(),
{
    if events.len() > 0 {
        all_news_is_delivered(walk, events.drop_last());
        walk_stays_well_formed(walk, events.drop_last());
    }
}

/// A walk down the tree starts the command once in every directory that it
/// opens, the first one included, in the order in which it opens them, and
/// nowhere else; the one that it opened last may still wait for its turn.
pub proof fn command_runs_where_opened(
    root: Seq<u8>,
    jobs: nat,
    events: Seq<EventView>,
)
    requires
        is_run(WalkView::start(root, true, jobs), events),
    ensures
        match walk_after(WalkView::start(root, true, jobs), events).phase {
            PhaseView::Waiting(path) | PhaseView::Clearing(path) => entered(
                WalkView::start(root, true, jobs),
                events,
            ) == started(WalkView::start(root, true, jobs), events).push(path),
            _ => entered(WalkView::start(root, true, jobs), events) == started(
                WalkView::start(root, true, jobs),
                events,
            ),
        },
    decreases events.len(),
{
    let walk = WalkView::start(root, true, jobs);
    if events.len() > 0 {
        command_runs_where_opened(root, jobs, events.drop_last());
        walk_stays_well_formed(walk, events.drop_last());
    }
}

/// A walk down the tree starts with the first directory: nothing is opened
/// before it, and the command is started in it before anywhere else.
pub proof fn root_comes_first(root: Seq<u8>, jobs: nat, events: Seq<EventView>)
    requires
        is_run(WalkView::start(root, true, jobs), events),
    ensures
        started(WalkView::start(root, true, jobs), events).len() > 0 ==> started(
            WalkView::start(root, true, jobs),
            events,
        )[0] == root,
        walk_after(WalkView::start(root, true, jobs), events).phase is Root <==> events.len() == 0,
        !(walk_after(WalkView::start(root, true, jobs), events).phase is Root
            || walk_after(WalkView::start(root, true, jobs), events).phase is Done) ==> started(
            WalkView::start(root, true, jobs),
            events,
        ).len() > 0,
    decreases events.len(),
{
    let walk = WalkView::start(root, true, jobs);
    if events.len() > 0 {
        root_comes_first(root, jobs, events.drop_last());
        walk_stays_well_formed(walk, events.drop_last());
    }
}

/// The commands that run are those that were started and are not done; a walk
/// that is over has waited for every one.
pub proof fn started_commands_settle(
    root: Seq<u8>,
    recursive: bool,
    jobs: nat,
    events: Seq<EventView>,
)
    requires
        is_run(WalkView::start(root, recursive, jobs), events),
    ensures
        started(WalkView::start(root, recursive, jobs), events).len() == count_settled(events)
            + walk_after(WalkView::start(root, recursive, jobs), events).running,
        walk_after(WalkView::start(root, recursive, jobs), events).phase is Done ==> started(
            WalkView::start(root, recursive, jobs),
            events,
        ).len() == count_settled(events),
    decreases events.len(),
{
    let walk = WalkView::start(root, recursive, jobs);
    walk_stays_well_formed(walk, events);
    if events.len() > 0 {
        started_commands_settle(root, recursive, jobs, events.drop_last());
        walk_stays_well_formed(walk, events.drop_last());
    }
}

/// How many directories and entries could not be looked at over `events`.
pub open spec fn count_failed(events: Seq<EventView>) -> nat
    decreases events.len(),
{
    if events.len() == 0 {
        0
    } else {
        count_failed(events.drop_last()) + match events.last() {
            EventView::NotOpened(_) => 1nat,
            EventView::Found(Err(_)) => 1nat,
            _ => 0nat,
        }
    }
}

/// A walk that is over has handed out one report for each command that it
/// started, and one for each directory or entry that could not be looked at.
pub proof fn one_report_for_each(
    root: Seq<u8>,
    recursive: bool,
    jobs: nat,
    events: Seq<EventView>,
)
    requires
        is_run(WalkView::start(root, recursive, jobs), events),
        walk_after(WalkView::start(root, recursive, jobs), events).phase is Done,
    ensures
        delivered(WalkView::start(root, recursive, jobs), events).len() == started(
            WalkView::start(root, recursive, jobs),
            events,
        ).len() + count_failed(events),
{
    started_commands_settle(root, recursive, jobs, events);
    deliveries_are_counted(WalkView::start(root, recursive, jobs), events);
}

/// The reports are as many as the commands that are done and the failures.
proof fn deliveries_are_counted(walk: WalkView, events: Seq<EventView>)
    requires
        walk.well_formed(),
        is_run(walk, events),
    ensures
        delivered(walk, events).len() == count_settled(events) + count_failed(events),
    decreases events.len(),
{
    if events.len() > 0 {
        deliveries_are_counted(walk, events.drop_last());
        walk_stays_well_formed(walk, events.drop_last());
    }
}

/// The open directories are those that were opened and have not come to their
/// end; a walk that is over has seen the end of each.
pub proof fn opened_directories_end(
    root: Seq<u8>,
    recursive: bool,
    jobs: nat,
    events: Seq<EventView>,
)
    requires
        is_run(WalkView::start(root, recursive, jobs), events),
    ensures
        entered(WalkView::start(root, recursive, jobs), events).len() == count_exhausted(events)
            + walk_after(WalkView::start(root, recursive, jobs), events).open.len(),
        walk_after(WalkView::start(root, recursive, jobs), events).phase is Done ==> entered(
            WalkView::start(root, recursive, jobs),
            events,
        ).len() == count_exhausted(events),
    decreases events.len(),
{
    let walk = WalkView::start(root, recursive, jobs);
    walk_stays_well_formed(walk, events);
    if events.len() > 0 {
        opened_directories_end(root, recursive, jobs, events.drop_last());
        walk_stays_well_formed(walk, events.drop_last());
    }
}

/// The directories that were found over `events`, in order.
pub open spec fn found(events: Seq<EventView>) -> Seq<Seq<u8>>
    decreases events.len(),
{
    if events.len() == 0 {
        Seq::empty()
    } else {
        match events.last() {
            EventView::Found(Ok(path)) => found(events.drop_last()).push(path),
            _ => found(events.drop_last()),
        }
    }
}

/// How many entries were found over `events`, directories and errors.
pub open spec fn count_found(events: Seq<EventView>) -> nat
    decreases events.len(),
{
    if events.len() == 0 {
        0
    } else {
        count_found(events.drop_last()) + if events.last() is Found {
            1nat
        } else {
            0nat
        }
    }
}

/// A walk that does not go down the tree opens the first directory alone, and
/// starts the command once in every directory that it finds there, in order,
/// and nowhere else.
pub proof fn flat_walk_stays_at_root(root: Seq<u8>, jobs: nat, events: Seq<EventView>)
    requires
        is_run(WalkView::start(root, false, jobs), events),
    ensures
        started(WalkView::start(root, false, jobs), events) == found(events),
        events.len() == 0 || events[0] is NotOpened ==> entered(
            WalkView::start(root, false, jobs),
            events,
        ) == Seq::<Seq<u8>>::empty(),
        events.len() > 0 && events[0] is Opened ==> entered(
            WalkView::start(root, false, jobs),
            events,
        ) == seq![root],
        walk_after(WalkView::start(root, false, jobs), events).phase is Root <==> events.len() == 0,
        !(walk_after(WalkView::start(root, false, jobs), events).phase is Entering),
    decreases events.len(),
{
    let walk = WalkView::start(root, false, jobs);
    walk_stays_well_formed(walk, events);
    if events.len() > 0 {
        flat_walk_stays_at_root(root, jobs, events.drop_last());
        walk_stays_well_formed(walk, events.drop_last());
        if events.len() == 1 {
            assert(events.drop_last() == Seq::<EventView>::empty());
        } else {
            assert(events.drop_last()[0] == events[0]);
        }
    }
}

/// The directories that `reports` name, in order.
pub open spec fn reported(reports: Seq<crate::process::ReportView>) -> Seq<Seq<u8>>
    decreases reports.len(),
{
    if reports.len() == 0 {
        Seq::empty()
    } else {
        match crate::process::reported_on(reports.last()) {
            Some(path) => reported(reports.drop_last()).push(path),
            None => reported(reports.drop_last()),
        }
    }
}

/// What the commands that were done over `events` came to, in order.
pub open spec fn settled(events: Seq<EventView>) -> Seq<crate::process::ReportView>
    decreases events.len(),
{
    if events.len() == 0 {
        Seq::empty()
    } else {
        match events.last() {
            EventView::Settled(report) => settled(events.drop_last()).push(report),
            _ => settled(events.drop_last()),
        }
    }
}

/// The errors that were found in place of directories over `events`, in order.
pub open spec fn failed(events: Seq<EventView>) -> Seq<crate::process::ReportView>
    decreases events.len(),
{
    if events.len() == 0 {
        Seq::empty()
    } else {
        match events.last() {
            EventView::Found(Err(error)) => failed(events.drop_last()).push(Err(error)),
            _ => failed(events.drop_last()),
        }
    }
}

/// The directories that the command was started in over `events` and not yet
/// reported on.
pub open spec fn unreported(walk: WalkView, events: Seq<EventView>) -> vstd::multiset::Multiset<
    Seq<u8>,
>
    decreases events.len(),
{
    if events.len() == 0 {
        vstd::multiset::Multiset::empty()
    } else {
        let before = unreported(walk, events.drop_last());
        let after = match events.last() {
            EventView::Settled(report) => match crate::process::reported_on(report) {
                Some(path) => before.remove(path),
                None => before,
            },
            _ => before,
        };
        match walk_after(walk, events.drop_last()).step(events.last()).1.start {
            Some(path) => after.insert(path),
            None => after,
        }
    }
}

/// Whether each command that is done over `events` is reported on under the
/// directory that it was started in.
pub open spec fn commands_report(walk: WalkView, events: Seq<EventView>) -> bool
    decreases events.len(),
{
    events.len() == 0 || {
        &&& commands_report(walk, events.drop_last())
        &&& events.last() matches EventView::Settled(report) ==> {
            &&& crate::process::reported_on(report) matches Some(path)
            &&& unreported(walk, events.drop_last()).contains(path)
        }
    }
}

/// Where commands report under their own directories, the directories that the
/// command was started in are those reported on and those still to come; a walk
/// that is over has a report on every one, as often as the command was started
/// there.
pub proof fn commands_report_once(
    root: Seq<u8>,
    recursive: bool,
    jobs: nat,
    events: Seq<EventView>,
)
    requires
        is_run(WalkView::start(root, recursive, jobs), events),
        commands_report(WalkView::start(root, recursive, jobs), events),
    ensures
        started(WalkView::start(root, recursive, jobs), events).to_multiset() == reported(
            settled(events),
        ).to_multiset().add(unreported(WalkView::start(root, recursive, jobs), events)),
        walk_after(WalkView::start(root, recursive, jobs), events).phase is Done ==> started(
            WalkView::start(root, recursive, jobs),
            events,
        ).to_multiset() == reported(settled(events)).to_multiset(),
    decreases events.len(),
{
    broadcast use vstd::seq_lib::group_to_multiset_ensures;

    let walk = WalkView::start(root, recursive, jobs);
    walk_stays_well_formed(walk, events);
    if events.len() > 0 {
        let before = events.drop_last();
        commands_report_once(root, recursive, jobs, before);
        walk_stays_well_formed(walk, before);
        if let EventView::Settled(report) = events.last() {
            assert(settled(before).push(report).drop_last() == settled(before));
        }
        assert(started(walk, events).to_multiset() =~= reported(
            settled(events),
        ).to_multiset().add(unreported(walk, events)));
    } else {
        assert(started(walk, events).to_multiset() =~= reported(
            settled(events),
        ).to_multiset().add(unreported(walk, events)));
    }
    if walk_after(walk, events).phase is Done {
        started_commands_settle(root, recursive, jobs, events);
        settled_are_named(walk, events);
        assert(started(walk, events).to_multiset().len() == reported(
            settled(events),
        ).to_multiset().len() + unreported(walk, events).len());
        vstd::multiset::lemma_multiset_empty_len(unreported(walk, events));
        assert(reported(settled(events)).to_multiset() =~= reported(
            settled(events),
        ).to_multiset().add(unreported(walk, events)));
    }
}

/// Where commands report under their own directories, each report names one.
proof fn settled_are_named(walk: WalkView, events: Seq<EventView>)
    requires
        commands_report(walk, events),
    ensures
        reported(settled(events)).len() == settled(events).len() == count_settled(events),
    decreases events.len(),
{
    if events.len() > 0 {
        settled_are_named(walk, events.drop_last());
        if let EventView::Settled(report) = events.last() {
            assert(settled(events.drop_last()).push(report).drop_last() == settled(
                events.drop_last(),
            ));
        }
    }
}

/// A walk that does not go down the tree, could list the first directory and is
/// over has handed out one report for each entry that it found there and none
/// besides: an error as it is, and for a directory what the command came to in
/// it.
pub proof fn one_report_for_each_entry(root: Seq<u8>, jobs: nat, events: Seq<EventView>)
    requires
        is_run(WalkView::start(root, false, jobs), events),
        walk_after(WalkView::start(root, false, jobs), events).phase is Done,
        events[0] is Opened,
        commands_report(WalkView::start(root, false, jobs), events),
    ensures
        delivered(WalkView::start(root, false, jobs), events).to_multiset() == failed(
            events,
        ).to_multiset().add(settled(events).to_multiset()),
        reported(settled(events)).to_multiset() == found(events).to_multiset(),
        delivered(WalkView::start(root, false, jobs), events).len() == count_found(events),
{
    let walk = WalkView::start(root, false, jobs);
    flat_walk_stays_at_root(root, jobs, events);
    commands_report_once(root, false, jobs, events);
    started_commands_settle(root, false, jobs, events);
    settled_are_named(walk, events);
    delivered_are_of_three_kinds(walk, events);
    steps_are_counted(root, false, jobs, events);
    found_are_counted(events);
    let unlisted = unlisted_reports(walk, events).to_multiset();
    vstd::seq_lib::to_multiset_len(unlisted_reports(walk, events));
    vstd::multiset::lemma_multiset_empty_len(unlisted);
    assert(delivered(walk, events).to_multiset() =~= failed(events).to_multiset().add(
        settled(events).to_multiset(),
    ));
}

/// What is found is directories and errors.
proof fn found_are_counted(events: Seq<EventView>)
    ensures
        count_found(events) == found(events).len() + failed(events).len(),
    decreases events.len(),
{
    if events.len() > 0 {
        found_are_counted(events.drop_last());
    }
}

/// The errors on directories that could not be listed over `events`, in order.
pub open spec fn unlisted_reports(walk: WalkView, events: Seq<EventView>) -> Seq<
    crate::process::ReportView,
>
    decreases events.len(),
{
    if events.len() == 0 {
        Seq::empty()
    } else {
        let before = unlisted_reports(walk, events.drop_last());
        match (opening(walk_after(walk, events.drop_last())), events.last()) {
            (Some(path), EventView::NotOpened(origin)) => before.push(
                Err(crate::process::ProcessErrorView::SubDirectories { entry: path, origin }),
            ),
            _ => before,
        }
    }
}

/// All that a walk hands out is what its commands came to, the errors that it
/// found in place of directories, and those on directories that could not be
/// listed: each of them once.
pub proof fn delivered_are_of_three_kinds(walk: WalkView, events: Seq<EventView>)
    requires
        walk.well_formed(),
        is_run(walk, events),
    ensures
        delivered(walk, events).to_multiset() == settled(events).to_multiset().add(
            failed(events).to_multiset(),
        ).add(unlisted_reports(walk, events).to_multiset()),
        delivered(walk, events).len() == settled(events).len() + failed(events).len()
            + unlisted_reports(walk, events).len(),
    decreases events.len(),
{
    broadcast use vstd::seq_lib::group_to_multiset_ensures;

    if events.len() > 0 {
        delivered_are_of_three_kinds(walk, events.drop_last());
        walk_stays_well_formed(walk, events.drop_last());
    }
    assert(delivered(walk, events).to_multiset() =~= settled(events).to_multiset().add(
        failed(events).to_multiset(),
    ).add(unlisted_reports(walk, events).to_multiset()));
}

/// The directories that the reports of a walk name are those that its commands
/// name, those that the errors it found name, and those that could not be
/// listed.
pub proof fn reported_are_of_three_kinds(walk: WalkView, events: Seq<EventView>)
    requires
        walk.well_formed(),
        is_run(walk, events),
    ensures
        reported(delivered(walk, events)).to_multiset() == reported(
            settled(events),
        ).to_multiset().add(reported(failed(events)).to_multiset()).add(
            reported(unlisted_reports(walk, events)).to_multiset(),
        ),
    decreases events.len(),
{
    broadcast use vstd::seq_lib::group_to_multiset_ensures;

    if events.len() > 0 {
        let before = events.drop_last();
        reported_are_of_three_kinds(walk, before);
        walk_stays_well_formed(walk, before);
        if let Some(report) = walk_after(walk, before).step(events.last()).1.deliver {
            assert(delivered(walk, before).push(report).drop_last() == delivered(walk, before));
            assert(settled(before).push(report).drop_last() == settled(before));
            assert(failed(before).push(report).drop_last() == failed(before));
            assert(unlisted_reports(walk, before).push(report).drop_last() == unlisted_reports(
                walk,
                before,
            ));
        }
    }
    assert(reported(delivered(walk, events)).to_multiset() =~= reported(
        settled(events),
    ).to_multiset().add(reported(failed(events)).to_multiset()).add(
        reported(unlisted_reports(walk, events)).to_multiset(),
    ));
}

/// The directories that a walk tried to open over `events`, in order, or those of
/// them alone that it opened.
pub open spec fn tried(walk: WalkView, events: Seq<EventView>, opened: bool) -> Seq<Seq<u8>>
    decreases events.len(),
{
    if events.len() == 0 {
        Seq::empty()
    } else {
        let before = tried(walk, events.drop_last(), opened);
        match (opening(walk_after(walk, events.drop_last())), events.last()) {
            (Some(path), EventView::Opened) => before.push(path),
            (Some(path), EventView::NotOpened(_)) => if opened {
                before
            } else {
                before.push(path)
            },
            _ => before,
        }
    }
}

/// What a walk tried to open is what it opened and what it reported as not to be
/// listed.
pub proof fn tried_are_opened_or_reported(walk: WalkView, events: Seq<EventView>)
    ensures
        tried(walk, events, true) == entered(walk, events),
        tried(walk, events, false).to_multiset() == entered(walk, events).to_multiset().add(
            reported(unlisted_reports(walk, events)).to_multiset(),
        ),
    decreases events.len(),
{
    broadcast use vstd::seq_lib::group_to_multiset_ensures;

    let unlisted = unlisted_reports(walk, events);
    if events.len() > 0 {
        let before = events.drop_last();
        tried_are_opened_or_reported(walk, before);
        if unlisted.len() > unlisted_reports(walk, before).len() {
            assert(unlisted.drop_last() == unlisted_reports(walk, before));
        }
    }
    assert(tried(walk, events, false).to_multiset() =~= entered(walk, events).to_multiset().add(
        reported(unlisted).to_multiset(),
    ));
}

/// A walk down the tree tries to open the first directory and every directory
/// that it finds, once each: those that it opened, those that it reported as
/// not to be listed, and the one that it is opening are, taken together, the
/// first directory and those found. None is left out of a walk that is over.
pub proof fn found_are_opened_or_reported(root: Seq<u8>, jobs: nat, events: Seq<EventView>)
    requires
        is_run(WalkView::start(root, true, jobs), events),
    ensures
        found(events).to_multiset().insert(root) == match opening(
            walk_after(WalkView::start(root, true, jobs), events),
        ) {
            Some(path) => entered(WalkView::start(root, true, jobs), events).to_multiset().add(
                reported(
                    unlisted_reports(WalkView::start(root, true, jobs), events),
                ).to_multiset(),
            ).insert(path),
            None => entered(WalkView::start(root, true, jobs), events).to_multiset().add(
                reported(
                    unlisted_reports(WalkView::start(root, true, jobs), events),
                ).to_multiset(),
            ),
        },
        walk_after(WalkView::start(root, true, jobs), events).phase is Done ==> found(
            events,
        ).to_multiset().insert(root) == started(
            WalkView::start(root, true, jobs),
            events,
        ).to_multiset().add(
            reported(unlisted_reports(WalkView::start(root, true, jobs), events)).to_multiset(),
        ),
    decreases events.len(),
{
    broadcast use vstd::seq_lib::group_to_multiset_ensures;

    let walk = WalkView::start(root, true, jobs);
    let unlisted = unlisted_reports(walk, events);
    command_runs_where_opened(root, jobs, events);
    walk_stays_well_formed(walk, events);
    if events.len() > 0 {
        let before = events.drop_last();
        found_are_opened_or_reported(root, jobs, before);
        walk_stays_well_formed(walk, before);
        if unlisted.len() > unlisted_reports(walk, before).len() {
            assert(unlisted.drop_last() == unlisted_reports(walk, before));
        }
    }
    let tried = entered(walk, events).to_multiset().add(reported(unlisted).to_multiset());
    match opening(walk_after(walk, events)) {
        Some(path) => {
            assert(found(events).to_multiset().insert(root) =~= tried.insert(path));
        },
        None => {
            assert(found(events).to_multiset().insert(root) =~= tried);
        },
    }
}

/// How many times no command was done at the moment over `events`.
pub open spec fn count_idle(events: Seq<EventView>) -> nat
    decreases events.len(),
{
    if events.len() == 0 {
        0
    } else {
        count_idle(events.drop_last()) + if events.last() is Idle {
            1nat
        } else {
            0nat
        }
    }
}

/// Every walk ends, where the entries do: it takes no more than five steps for
/// each directory that it finds, one for each error that it finds in place of
/// one, and four besides.
pub proof fn walks_end(root: Seq<u8>, recursive: bool, jobs: nat, events: Seq<EventView>)
    requires
        is_run(WalkView::start(root, recursive, jobs), events),
    ensures
        events.len() <= 5 * found(events).len() + failed(events).len() + 4,
{
    let walk = WalkView::start(root, recursive, jobs);
    steps_are_counted(root, recursive, jobs, events);
    started_commands_settle(root, recursive, jobs, events);
    opened_directories_end(root, recursive, jobs, events);
    if recursive {
        command_runs_where_opened(root, jobs, events);
    } else {
        flat_walk_stays_at_root(root, jobs, events);
    }
}

/// How often each kind of event can come.
proof fn steps_are_counted(root: Seq<u8>, recursive: bool, jobs: nat, events: Seq<EventView>)
    requires
        is_run(WalkView::start(root, recursive, jobs), events),
    ensures
        ({
            let walk = WalkView::start(root, recursive, jobs);
            let after = walk_after(walk, events);
            let opening = if opening(after) is Some {
                1nat
            } else {
                0nat
            };
            let waiting = if after.phase is Waiting || after.phase is Clearing {
                1nat
            } else {
                0nat
            };
            let tried = entered(walk, events).len() + unlisted_reports(walk, events).len();
            &&& events.len() == found(events).len() + failed(events).len() + tried
                + count_exhausted(events) + count_settled(events) + count_idle(events)
            &&& tried + opening == if recursive {
                found(events).len() + 1
            } else {
                1
            }
            &&& count_idle(events) + waiting <= entered(walk, events).len()
            &&& !recursive ==> count_idle(events) == 0
        }),
    decreases events.len(),
{
    let walk = WalkView::start(root, recursive, jobs);
    walk_stays_well_formed(walk, events);
    if events.len() > 0 {
        steps_are_counted(root, recursive, jobs, events.drop_last());
        walk_stays_well_formed(walk, events.drop_last());
    }
}

/// Whether `event` is an answer to `request` while `running` commands run.
pub open spec fn is_answer(request: RequestView, running: nat, event: EventView) -> bool {
    match request {
        RequestView::Open(_) => event is Opened || event is NotOpened,
        RequestView::Find => event is Found || event is Exhausted,
        RequestView::Wait => event is Settled,
        RequestView::Poll => event is Idle || (event is Settled && running > 0),
        RequestView::Next => event is Found || event is Exhausted || (event is Settled && running
            > 0),
        RequestView::Finish => false,
    }
}

/// A walk starts by opening the directory that it is given, with nothing running
/// and as many jobs as it is given.
pub proof fn walk_starts_at_root(root: Seq<u8>, recursive: bool, jobs: nat, answer: EventView)
    ensures
        opening(WalkView::start(root, recursive, jobs)) == Some(root),
        WalkView::start(root, recursive, jobs).recursive == recursive,
        WalkView::start(root, recursive, jobs).jobs == jobs,
        WalkView::start(root, recursive, jobs).running == 0,
        WalkView::start(root, recursive, jobs).open.len() == 0,
        WalkView::start(root, recursive, jobs).accepts(answer) == is_answer(
            RequestView::Open(root),
            0,
            answer,
        ),
{
}

/// A walk accepts exactly the answers to what it requested last.
pub proof fn only_answers_are_accepted(walk: WalkView, event: EventView, answer: EventView)
    requires
        walk.well_formed(),
        walk.accepts(event),
    ensures
        walk.step(event).0.accepts(answer) == is_answer(
            walk.step(event).1.request,
            walk.step(event).0.running,
            answer,
        ),
{
}

/// A request to open names the directory that the walk is then opening, and there
/// is one exactly where the walk is opening a directory. A directory that is found
/// on the way down the tree is the one to open next; elsewhere it is the one to
/// start the command in, and is not opened.
pub proof fn requests_name_what_is_opened(walk: WalkView, event: EventView)
    requires
        walk.well_formed(),
        walk.accepts(event),
    ensures
        match opening(walk.step(event).0) {
            Some(path) => walk.step(event).1.request == RequestView::Open(path),
            None => !(walk.step(event).1.request is Open),
        },
        event matches EventView::Found(Ok(path)) ==> if walk.recursive {
            walk.step(event).1.request == RequestView::Open(path) && walk.step(event).1.start is None
        } else {
            !(walk.step(event).1.request is Open) && walk.step(event).1.start == Some(path)
        },
        !(event matches EventView::Found(Ok(_))) ==> !(walk.step(event).1.request is Open),
        walk.step(event).1.request is Finish <==> walk.step(event).0.phase is Done,
{
}

/// The open directories form a stack: one that opens is put on top, and the end
/// of the entries takes off the one on top. The walk is over where none is open
/// and no command runs.
pub proof fn open_directories_are_a_stack(walk: WalkView, event: EventView)
    requires
        walk.well_formed(),
        walk.accepts(event),
    ensures
        match event {
            EventView::Opened => opening(walk) matches Some(path) && walk.step(event).0.open
                == walk.open.push(path),
            EventView::Exhausted => walk.open.len() > 0 && walk.step(event).0.open
                == walk.open.drop_last(),
            _ => walk.step(event).0.open == walk.open,
        },
        walk.step(event).0.running == walk.running + (if walk.step(event).1.start is Some {
            1int
        } else {
            0int
        }) - (if event is Settled {
            1int
        } else {
            0int
        }),
        walk.step(event).0.phase is Done <==> walk.step(event).0.open.len() == 0 && walk.step(
            event,
        ).0.running == 0,
{
}

/// The jobs are put to use. While a directory is open, the walk waits for
/// commands alone only where as many run as there are jobs; a directory that opens
/// on the way down while a job is free has the command started at once, and
/// otherwise waits for one. It then goes ahead as soon as no other command is
/// found done, and not before.
pub proof fn free_jobs_are_used(walk: WalkView, event: EventView)
    requires
        walk.well_formed(),
        walk.accepts(event),
    ensures
        walk.step(event).1.request is Wait && walk.step(event).0.open.len() > 0 ==> walk.step(
            event,
        ).0.running >= walk.jobs,
        event is Opened && walk.recursive ==> if walk.running < walk.jobs || walk.running == 0 {
            walk.step(event).1.start == opening(walk) && walk.step(event).1.request is Find
        } else {
            walk.step(event).1.start is None && walk.step(event).1.request is Wait
        },
        event is Opened && !walk.recursive ==> walk.step(event).1.start is None,
        event is Idle ==> walk.step(event).1.start is Some && walk.step(event).1.request is Find,
        event is Settled && walk.recursive && walk.open.len() > 0 ==> walk.step(
            event,
        ).1.request is Poll,
        event is Settled || event is Exhausted || event is NotOpened || (event matches EventView::Found(
            Err(_),
        )) ==> walk.step(event).1.start is None,
{
}

} // verus!
