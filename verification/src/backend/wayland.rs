//! Decision logic of the backend that talks to the compositor: which
//! sources are captured under the current capture filter, and which
//! protocol requests each command turns into.

use vstd::prelude::*;

use super::{CaptureFilter, CaptureImage, Cmd, Event, WlOutput, ZcosmicToplevelHandleV1, ZcosmicWorkspaceHandleV1};

verus! {

/// Identity of a seat.
#[derive(Clone, Copy, Debug, PartialEq, Eq, Structural)]
pub struct SeatId(pub u64);

/// Something that can be captured.
#[derive(Clone, Copy, Debug, PartialEq, Eq, Structural, Hash)]
pub enum CaptureSource {
    Toplevel(ZcosmicToplevelHandleV1),
    Workspace(ZcosmicWorkspaceHandleV1),
    Output(WlOutput),
}

/// What the backend knows of a toplevel.
#[derive(Debug)]
pub struct ToplevelRecord {
    pub handle: ZcosmicToplevelHandleV1,
    pub workspace: Vec<ZcosmicWorkspaceHandleV1>,
    /// The compositor's own handle of the toplevel is known.
    pub has_cosmic_toplevel: bool,
}

/// What the backend knows of a workspace.
#[derive(Clone, Copy, Debug)]
pub struct WorkspaceRecord {
    pub handle: ZcosmicWorkspaceHandleV1,
    /// Version of the compositor's own handle of the workspace, if known.
    pub cosmic_version: Option<u32>,
}

/// A group of workspaces shown on the same outputs.
#[derive(Debug)]
pub struct WorkspaceGroup {
    pub workspaces: Vec<ZcosmicWorkspaceHandleV1>,
    pub outputs: Vec<WlOutput>,
}

/// Protocol versions from which requests are available.
#[derive(Clone, Copy, Debug)]
pub struct RequestVersions {
    pub move_before_since: u32,
    pub move_after_since: u32,
    pub pin_since: u32,
}

/// A protocol request.
#[derive(Clone, Copy, Debug, PartialEq, Eq, Structural)]
pub enum Request {
    ActivateToplevel(ZcosmicToplevelHandleV1, SeatId),
    CloseToplevel(ZcosmicToplevelHandleV1),
    MoveToplevelToWorkspace(ZcosmicToplevelHandleV1, ZcosmicWorkspaceHandleV1, WlOutput),
    MoveWorkspaceBefore(ZcosmicWorkspaceHandleV1, ZcosmicWorkspaceHandleV1),
    MoveWorkspaceAfter(ZcosmicWorkspaceHandleV1, ZcosmicWorkspaceHandleV1),
    ActivateWorkspace(ZcosmicWorkspaceHandleV1),
    PinWorkspace(ZcosmicWorkspaceHandleV1),
    UnpinWorkspace(ZcosmicWorkspaceHandleV1),
    /// Apply the pending workspace requests.
    CommitWorkspaces,
    /// Start a capture session for the source.
    StartCapture(CaptureSource),
    /// End the capture session of the source.
    StopCapture(CaptureSource),
}

/// The backend's state, as far as its decisions read it.
#[derive(Debug)]
pub struct AppData {
    pub capture_filter: CaptureFilter,
    /// Each capture source, and whether a capture session is running.
    pub captures: Vec<(CaptureSource, bool)>,
    pub toplevels: Vec<ToplevelRecord>,
    pub workspaces: Vec<WorkspaceRecord>,
    pub workspace_groups: Vec<WorkspaceGroup>,
    pub seats: Vec<SeatId>,
    /// Version of the toplevel manager, if there is one.
    pub toplevel_manager_version: Option<u32>,
    pub has_workspace_manager: bool,
    pub versions: RequestVersions,
}

/// Some element of `a` is an element of `b`.
pub open spec fn overlaps<T>(a: Seq<T>, b: Seq<T>) -> bool {
    exists|i: int| 0 <= i < a.len() && b.contains(#[trigger] a[i])
}

/// `i` is the first toplevel record with handle `h`.
pub open spec fn is_first_toplevel(ts: Seq<ToplevelRecord>, h: ZcosmicToplevelHandleV1, i: int) -> bool {
    &&& 0 <= i < ts.len()
    &&& ts[i].handle == h
    &&& forall|j: int| 0 <= j < i ==> (#[trigger] ts[j]).handle != h
}

/// `i` is the first workspace record with handle `h`.
pub open spec fn is_first_workspace(ws: Seq<WorkspaceRecord>, h: ZcosmicWorkspaceHandleV1, i: int) -> bool {
    &&& 0 <= i < ws.len()
    &&& ws[i].handle == h
    &&& forall|j: int| 0 <= j < i ==> (#[trigger] ws[j]).handle != h
}

/// `i` is the first group holding workspace `h`.
pub open spec fn is_first_group(gs: Seq<WorkspaceGroup>, h: ZcosmicWorkspaceHandleV1, i: int) -> bool {
    &&& 0 <= i < gs.len()
    &&& gs[i].workspaces@.contains(h)
    &&& forall|j: int| 0 <= j < i ==> !(#[trigger] gs[j]).workspaces@.contains(h)
}

/// Whether the capture filter selects `source`: a toplevel when it is on
/// one of the filter's workspaces, a workspace when its group is on one of
/// the filter's outputs, an output never. An unknown toplevel or workspace
/// is not selected.
pub open spec fn source_matches(s: AppData, source: CaptureSource) -> bool {
    match source {
        CaptureSource::Toplevel(t) => exists|i: int| is_first_toplevel(s.toplevels@, t, i)
            && overlaps(s.toplevels@[i].workspace@, s.capture_filter.toplevels_on_workspaces@),
        CaptureSource::Workspace(w) => exists|i: int| is_first_group(s.workspace_groups@, w, i)
            && overlaps(s.workspace_groups@[i].outputs@, s.capture_filter.workspaces_on_outputs@),
        CaptureSource::Output(_) => false,
    }
}

/// No source occurs twice among the captures, as keys of a map.
pub open spec fn sources_unique(cs: Seq<(CaptureSource, bool)>) -> bool {
    forall|i: int, j: int| 0 <= i < cs.len() && 0 <= j < cs.len() && i != j ==> cs[i].0 != cs[j].0
}

fn contains_workspace(v: &Vec<ZcosmicWorkspaceHandleV1>, h: &ZcosmicWorkspaceHandleV1) -> (r: bool)
    ensures
        r == v@.contains(*h),
{
    let mut i: usize = 0;
    while i < v.len()
        invariant
            i <= v@.len(),
            forall|j: int| 0 <= j < i ==> v@[j] != *h,
        decreases v@.len() - i,
    {
        if v[i] == *h {
            assert(v@[i as int] == *h);
            return true;
        }
        i = i + 1;
    }
    false
}

fn contains_output(v: &Vec<WlOutput>, h: &WlOutput) -> (r: bool)
    ensures
        r == v@.contains(*h),
{
    let mut i: usize = 0;
    while i < v.len()
        invariant
            i <= v@.len(),
            forall|j: int| 0 <= j < i ==> v@[j] != *h,
        decreases v@.len() - i,
    {
        if v[i] == *h {
            assert(v@[i as int] == *h);
            return true;
        }
        i = i + 1;
    }
    false
}

fn workspaces_overlap(a: &Vec<ZcosmicWorkspaceHandleV1>, b: &Vec<ZcosmicWorkspaceHandleV1>) -> (r: bool)
    ensures
        r == overlaps(a@, b@),
{
    let mut i: usize = 0;
    while i < a.len()
        invariant
            i <= a@.len(),
            forall|j: int| 0 <= j < i ==> !b@.contains(#[trigger] a@[j]),
        decreases a@.len() - i,
    {
        if contains_workspace(b, &a[i]) {
            return true;
        }
        i = i + 1;
    }
    false
}

fn outputs_overlap(a: &Vec<WlOutput>, b: &Vec<WlOutput>) -> (r: bool)
    ensures
        r == overlaps(a@, b@),
{
    let mut i: usize = 0;
    while i < a.len()
        invariant
            i <= a@.len(),
            forall|j: int| 0 <= j < i ==> !b@.contains(#[trigger] a@[j]),
        decreases a@.len() - i,
    {
        if contains_output(b, &a[i]) {
            return true;
        }
        i = i + 1;
    }
    false
}

impl AppData {
    /// Index of the first toplevel record with handle `h`.
    pub fn toplevel_info(&self, h: &ZcosmicToplevelHandleV1) -> (r: Option<usize>)
        ensures
            r matches Some(i) ==> is_first_toplevel(self.toplevels@, *h, i as int),
            r is None ==> forall|j: int| 0 <= j < self.toplevels@.len() ==> (#[trigger] self.toplevels@[j]).handle != *h,
    {
        let mut i: usize = 0;
        while i < self.toplevels.len()
            invariant
                i <= self.toplevels@.len(),
                forall|j: int| 0 <= j < i ==> (#[trigger] self.toplevels@[j]).handle != *h,
            decreases self.toplevels@.len() - i,
        {
            if self.toplevels[i].handle == *h {
                return Some(i);
            }
            i = i + 1;
        }
        None
    }

    /// Index of the first workspace record with handle `h`.
    pub fn workspace_info(&self, h: &ZcosmicWorkspaceHandleV1) -> (r: Option<usize>)
        ensures
            r matches Some(i) ==> is_first_workspace(self.workspaces@, *h, i as int),
            r is None ==> forall|j: int| 0 <= j < self.workspaces@.len() ==> (#[trigger] self.workspaces@[j]).handle != *h,
    {
        let mut i: usize = 0;
        while i < self.workspaces.len()
            invariant
                i <= self.workspaces@.len(),
                forall|j: int| 0 <= j < i ==> (#[trigger] self.workspaces@[j]).handle != *h,
            decreases self.workspaces@.len() - i,
        {
            if self.workspaces[i].handle == *h {
                return Some(i);
            }
            i = i + 1;
        }
        None
    }

    /// Index of the first workspace group holding `h`.
    pub fn group_of(&self, h: &ZcosmicWorkspaceHandleV1) -> (r: Option<usize>)
        ensures
            r matches Some(i) ==> is_first_group(self.workspace_groups@, *h, i as int),
            r is None ==> forall|j: int| 0 <= j < self.workspace_groups@.len() ==> !(#[trigger] self.workspace_groups@[j]).workspaces@.contains(*h),
    {
        let mut i: usize = 0;
        while i < self.workspace_groups.len()
            invariant
                i <= self.workspace_groups@.len(),
                forall|j: int| 0 <= j < i ==> !(#[trigger] self.workspace_groups@[j]).workspaces@.contains(*h),
            decreases self.workspace_groups@.len() - i,
        {
            if contains_workspace(&self.workspace_groups[i].workspaces, h) {
                return Some(i);
            }
            i = i + 1;
        }
        None
    }

    /// Whether the capture filter selects `source`.
    pub fn matches_capture_filter(&self, source: &CaptureSource) -> (r: bool)
        ensures
            r == source_matches(*self, *source),
    {
        match source {
            CaptureSource::Toplevel(t) => {
                match self.toplevel_info(t) {
                    Some(i) => workspaces_overlap(
                        &self.toplevels[i].workspace,
                        &self.capture_filter.toplevels_on_workspaces,
                    ),
                    None => false,
                }
            },
            CaptureSource::Workspace(w) => {
                match self.group_of(w) {
                    Some(i) => outputs_overlap(
                        &self.workspace_groups[i].outputs,
                        &self.capture_filter.workspaces_on_outputs,
                    ),
                    None => false,
                }
            },
            CaptureSource::Output(_) => false,
        }
    }

    /// The event that a finished frame of `source` is reported with: a
    /// toplevel capture only while the toplevel is still known, a workspace
    /// capture always. Outputs are never captured.
    pub fn capture_event(&self, source: CaptureSource, image: CaptureImage) -> (r: Option<Event>)
        requires
            !(source is Output),
        ensures
            match source {
                CaptureSource::Toplevel(t) => {
                    &&& (r is Some <==> exists|j: int| 0 <= j < self.toplevels@.len() && (#[trigger] self.toplevels@[j]).handle == t)
                    &&& (r is Some ==> r == Some(Event::ToplevelCapture(t, image)))
                },
                CaptureSource::Workspace(w) => r == Some(Event::WorkspaceCapture(w, image)),
                CaptureSource::Output(_) => false,
            },
    {
        match source {
            CaptureSource::Toplevel(t) => {
                match self.toplevel_info(&t) {
                    Some(_) => Some(Event::ToplevelCapture(t, image)),
                    None => None,
                }
            },
            CaptureSource::Workspace(w) => Some(Event::WorkspaceCapture(w, image)),
            CaptureSource::Output(_) => None,
        }
    }
}


/// The requests that bring the captures `cs` in line with the filter of
/// `s`: a start for each source selected but not running, a stop for each
/// source running but not selected, in order.
pub open spec fn capture_transitions(s: AppData, cs: Seq<(CaptureSource, bool)>) -> Seq<Request>
    decreases cs.len(),
{
    if cs.len() == 0 {
        Seq::empty()
    } else {
        let rest = capture_transitions(s, cs.drop_last());
        let (src, running) = cs.last();
        let m = source_matches(s, src);
        if m && !running {
            rest.push(Request::StartCapture(src))
        } else if !m && running {
            rest.push(Request::StopCapture(src))
        } else {
            rest
        }
    }
}

/// The index of the capture of `source`, if any.
pub open spec fn capture_index(cs: Seq<(CaptureSource, bool)>, source: CaptureSource) -> Option<int> {
    if exists|i: int| 0 <= i < cs.len() && cs[i].0 == source {
        Some(choose|i: int| 0 <= i < cs.len() && cs[i].0 == source)
    } else {
        None
    }
}

/// The requests a command other than a capture filter turns into.
pub open spec fn cmd_requests(s: AppData, cmd: Cmd) -> Seq<Request> {
    match cmd {
        Cmd::CaptureFilter(_) => Seq::empty(),
        Cmd::ActivateToplevel(t) => if toplevel_is_managed(s, t) && s.toplevel_manager_version is Some {
            s.seats@.map_values(|seat: SeatId| Request::ActivateToplevel(t, seat))
        } else {
            Seq::empty()
        },
        Cmd::CloseToplevel(t) => if toplevel_is_managed(s, t) && s.toplevel_manager_version is Some {
            seq![Request::CloseToplevel(t)]
        } else {
            Seq::empty()
        },
        Cmd::MoveToplevelToWorkspace(t, w, o) => if toplevel_is_managed(s, t)
            && (s.toplevel_manager_version matches Some(v) && v >= 2) {
            seq![Request::MoveToplevelToWorkspace(t, w, o)]
        } else {
            Seq::empty()
        },
        Cmd::MoveWorkspaceBefore(w, other) => if s.has_workspace_manager
            && workspace_supports(s, w, s.versions.move_before_since) {
            seq![Request::MoveWorkspaceBefore(w, other), Request::CommitWorkspaces]
        } else {
            Seq::empty()
        },
        Cmd::MoveWorkspaceAfter(w, other) => if s.has_workspace_manager
            && workspace_supports(s, w, s.versions.move_after_since) {
            seq![Request::MoveWorkspaceAfter(w, other), Request::CommitWorkspaces]
        } else {
            Seq::empty()
        },
        Cmd::ActivateWorkspace(w) => if s.has_workspace_manager {
            seq![Request::ActivateWorkspace(w), Request::CommitWorkspaces]
        } else {
            Seq::empty()
        },
        Cmd::SetWorkspacePinned(w, pinned) => if s.has_workspace_manager
            && workspace_supports(s, w, s.versions.pin_since) {
            seq![if pinned { Request::PinWorkspace(w) } else { Request::UnpinWorkspace(w) }, Request::CommitWorkspaces]
        } else {
            Seq::empty()
        },
    }
}

/// The first record of toplevel `t` has the compositor's own handle.
pub open spec fn toplevel_is_managed(s: AppData, t: ZcosmicToplevelHandleV1) -> bool {
    exists|i: int| is_first_toplevel(s.toplevels@, t, i) && s.toplevels@[i].has_cosmic_toplevel
}

/// The first record of workspace `w` has the compositor's own handle, at a
/// version of at least `since`.
pub open spec fn workspace_supports(s: AppData, w: ZcosmicWorkspaceHandleV1, since: u32) -> bool {
    exists|i: int| is_first_workspace(s.workspaces@, w, i)
        && (s.workspaces@[i].cosmic_version matches Some(v) && v >= since)
}

/// `b` is `a` with at most the captures changed.
pub open spec fn same_but_captures(a: AppData, b: AppData) -> bool {
    &&& a.capture_filter == b.capture_filter
    &&& a.toplevels == b.toplevels
    &&& a.workspaces == b.workspaces
    &&& a.workspace_groups == b.workspace_groups
    &&& a.seats == b.seats
    &&& a.toplevel_manager_version == b.toplevel_manager_version
    &&& a.has_workspace_manager == b.has_workspace_manager
    &&& a.versions == b.versions
}

impl AppData {
    /// A state with no captures, records or seats, the empty capture filter
    /// and no managers.
    pub fn new(versions: RequestVersions) -> (r: Self)
        ensures
            r.wf(),
            r.captures@.len() == 0,
            r.toplevels@.len() == 0,
            r.workspaces@.len() == 0,
            r.workspace_groups@.len() == 0,
            r.seats@.len() == 0,
            r.capture_filter.workspaces_on_outputs@.len() == 0,
            r.capture_filter.toplevels_on_workspaces@.len() == 0,
            r.toplevel_manager_version is None,
            !r.has_workspace_manager,
            r.versions == versions,
    {
        AppData {
            capture_filter: CaptureFilter::new(),
            captures: Vec::new(),
            toplevels: Vec::new(),
            workspaces: Vec::new(),
            workspace_groups: Vec::new(),
            seats: Vec::new(),
            toplevel_manager_version: None,
            has_workspace_manager: false,
            versions,
        }
    }

    /// Well-formedness: each source has at most one capture.
    pub open spec fn wf(&self) -> bool {
        sources_unique(self.captures@)
    }

    /// Starts the captures the filter selects and stops those it does not.
    pub fn invalidate_capture_filter(&mut self) -> (r: Vec<Request>)
        requires
            old(self).wf(),
        ensures
            final(self).wf(),
            same_but_captures(*old(self), *final(self)),
            final(self).captures@.len() == old(self).captures@.len(),
            forall|i: int| 0 <= i < old(self).captures@.len() ==> #[trigger] final(self).captures@[i] == (
                old(self).captures@[i].0,
                source_matches(*old(self), old(self).captures@[i].0),
            ),
            r@ == capture_transitions(*old(self), old(self).captures@),
    {
        let ghost s0 = *self;
        let ghost cs0 = self.captures@;
        let mut r: Vec<Request> = Vec::new();
        let mut i: usize = 0;
        proof {
            assert(cs0.take(0) =~= Seq::<(CaptureSource, bool)>::empty());
        }
        while i < self.captures.len()
            invariant
                i <= self.captures@.len(),
                self.captures@.len() == cs0.len(),
                same_but_captures(s0, *self),
                forall|j: int| 0 <= j < i ==> #[trigger] self.captures@[j] == (cs0[j].0, source_matches(s0, cs0[j].0)),
                forall|j: int| i <= j < cs0.len() ==> #[trigger] self.captures@[j] == cs0[j],
                r@ == capture_transitions(s0, cs0.take(i as int)),
            decreases cs0.len() - i,
        {
            let (src, running) = self.captures[i];
            let m = self.matches_capture_filter(&src);
            proof {
                assert(source_matches(*self, src) == source_matches(s0, src));
                assert(cs0.take(i + 1).drop_last() =~= cs0.take(i as int));
                assert(cs0.take(i + 1).last() == cs0[i as int]);
            }
            if m && !running {
                r.push(Request::StartCapture(src));
            } else if !m && running {
                r.push(Request::StopCapture(src));
            }
            self.captures.set(i, (src, m));
            i = i + 1;
        }
        proof {
            assert(cs0.take(cs0.len() as int) =~= cs0);
            assert forall|a: int, b: int| 0 <= a < self.captures@.len() && 0 <= b < self.captures@.len() && a != b
            implies self.captures@[a].0 != self.captures@[b].0 by {
                assert(cs0[a].0 != cs0[b].0);
            }
        }
        r
    }

    fn capture_for(&self, source: &CaptureSource) -> (r: Option<usize>)
        requires
            self.wf(),
        ensures
            r matches Some(i) ==> capture_index(self.captures@, *source) == Some(i as int),
            r is None ==> capture_index(self.captures@, *source) is None,
            r matches Some(i) ==> self.captures@[i as int].0 == *source,
    {
        let mut i: usize = 0;
        while i < self.captures.len()
            invariant
                i <= self.captures@.len(),
                self.wf(),
                forall|j: int| 0 <= j < i ==> self.captures@[j].0 != *source,
            decreases self.captures@.len() - i,
        {
            if self.captures[i].0 == *source {
                proof {
                    assert(self.captures@[i as int].0 == *source);
                    let k = choose|k: int| 0 <= k < self.captures@.len() && self.captures@[k].0 == *source;
                    if k != i {
                        assert(self.captures@[k].0 != self.captures@[i as int].0);
                    }
                }
                return Some(i);
            }
            i = i + 1;
        }
        None
    }

    /// Registers a capture of `source`, started when the filter selects it.
    /// A source that is already registered is left as it is.
    pub fn add_capture_source(&mut self, source: CaptureSource) -> (r: Vec<Request>)
        requires
            old(self).wf(),
        ensures
            final(self).wf(),
            same_but_captures(*old(self), *final(self)),
            capture_index(old(self).captures@, source) is Some ==> {
                &&& final(self).captures == old(self).captures
                &&& r@.len() == 0
            },
            capture_index(old(self).captures@, source) is None ==> {
                let m = source_matches(*old(self), source);
                &&& final(self).captures@ == old(self).captures@.push((source, m))
                &&& r@ == if m { seq![Request::StartCapture(source)] } else { Seq::<Request>::empty() }
            },
    {
        let mut r: Vec<Request> = Vec::new();
        if self.capture_for(&source).is_none() {
            let m = self.matches_capture_filter(&source);
            let ghost cs = self.captures@;
            self.captures.push((source, m));
            proof {
                assert forall|j: int| 0 <= j < cs.len() implies cs[j].0 != source by {}
            }
            if m {
                r.push(Request::StartCapture(source));
            }
        }
        r
    }

    /// Unregisters the capture of `source`, stopping it when it runs.
    pub fn remove_capture_source(&mut self, source: CaptureSource) -> (r: Vec<Request>)
        requires
            old(self).wf(),
        ensures
            final(self).wf(),
            same_but_captures(*old(self), *final(self)),
            match capture_index(old(self).captures@, source) {
                Some(i) => {
                    &&& final(self).captures@ == old(self).captures@.remove(i)
                    &&& r@ == if old(self).captures@[i].1 { seq![Request::StopCapture(source)] } else { Seq::<Request>::empty() }
                },
                None => {
                    &&& final(self).captures == old(self).captures
                    &&& r@.len() == 0
                },
            },
            forall|j: int| 0 <= j < final(self).captures@.len() ==> (#[trigger] final(self).captures@[j]).0 != source,
    {
        let mut r: Vec<Request> = Vec::new();
        match self.capture_for(&source) {
            Some(i) => {
                let ghost cs = self.captures@;
                let (_, running) = self.captures.remove(i);
                if running {
                    r.push(Request::StopCapture(source));
                }
                proof {
                    assert forall|a: int, b: int| 0 <= a < self.captures@.len() && 0 <= b < self.captures@.len() && a != b
                    implies self.captures@[a].0 != self.captures@[b].0 by {
                        let a0 = if a < i { a } else { a + 1 };
                        let b0 = if b < i { b } else { b + 1 };
                        assert(self.captures@[a] == cs[a0]);
                        assert(self.captures@[b] == cs[b0]);
                    }
                    assert forall|j: int| 0 <= j < self.captures@.len() implies (#[trigger] self.captures@[j]).0 != source by {
                        let j0 = if j < i { j } else { j + 1 };
                        assert(self.captures@[j] == cs[j0]);
                        assert(cs[i as int].0 == source);
                    }
                }
            },
            None => {},
        }
        r
    }
}


impl AppData {
    fn is_managed(&self, t: &ZcosmicToplevelHandleV1) -> (r: bool)
        ensures
            r == toplevel_is_managed(*self, *t),
    {
        match self.toplevel_info(t) {
            Some(i) => self.toplevels[i].has_cosmic_toplevel,
            None => {
                assert forall|i: int| !is_first_toplevel(self.toplevels@, *t, i) by {
                    if 0 <= i < self.toplevels@.len() {
                        assert(self.toplevels@[i].handle != *t);
                    }
                }
                false
            },
        }
    }

    fn supports(&self, w: &ZcosmicWorkspaceHandleV1, since: u32) -> (r: bool)
        ensures
            r == workspace_supports(*self, *w, since),
    {
        match self.workspace_info(w) {
            Some(i) => match self.workspaces[i].cosmic_version {
                Some(v) => v >= since,
                None => false,
            },
            None => {
                assert forall|i: int| !is_first_workspace(self.workspaces@, *w, i) by {
                    if 0 <= i < self.workspaces@.len() {
                        assert(self.workspaces@[i].handle != *w);
                    }
                }
                false
            },
        }
    }

    /// Handles a command from the overview: a capture filter replaces the
    /// current one and the captures follow it; any other command turns into
    /// the protocol requests that the compositor's objects support.
    pub fn handle_cmd(&mut self, cmd: Cmd) -> (r: Vec<Request>)
        requires
            old(self).wf(),
        ensures
            final(self).wf(),
            match cmd {
                Cmd::CaptureFilter(f) => {
                    let s = AppData { capture_filter: f, ..*old(self) };
                    &&& same_but_captures(s, *final(self))
                    &&& final(self).captures@.len() == old(self).captures@.len()
                    &&& forall|i: int| 0 <= i < old(self).captures@.len() ==> #[trigger] final(self).captures@[i] == (
                        old(self).captures@[i].0,
                        source_matches(s, old(self).captures@[i].0),
                    )
                    &&& r@ == capture_transitions(s, old(self).captures@)
                },
                _ => {
                    &&& same_but_captures(*old(self), *final(self))
                    &&& final(self).captures == old(self).captures
                    &&& r@ == cmd_requests(*old(self), cmd)
                },
            },
    {
        let mut r: Vec<Request> = Vec::new();
        match cmd {
            Cmd::CaptureFilter(f) => {
                self.capture_filter = f;
                return self.invalidate_capture_filter();
            },
            Cmd::ActivateToplevel(t) => {
                if self.is_managed(&t) && self.toplevel_manager_version.is_some() {
                    let mut k: usize = 0;
                    while k < self.seats.len()
                        invariant
                            k <= self.seats@.len(),
                            r@ == self.seats@.take(k as int).map_values(|seat: SeatId| Request::ActivateToplevel(t, seat)),
                        decreases self.seats@.len() - k,
                    {
                        r.push(Request::ActivateToplevel(t, self.seats[k]));
                        proof {
                            assert(self.seats@.take(k + 1).map_values(|seat: SeatId| Request::ActivateToplevel(t, seat))
                                =~= self.seats@.take(k as int).map_values(|seat: SeatId| Request::ActivateToplevel(t, seat)).push(
                                Request::ActivateToplevel(t, self.seats@[k as int]),
                            ));
                        }
                        k = k + 1;
                    }
                    proof {
                        assert(self.seats@.take(self.seats@.len() as int) =~= self.seats@);
                    }
                }
            },
            Cmd::CloseToplevel(t) => {
                if self.is_managed(&t) && self.toplevel_manager_version.is_some() {
                    r.push(Request::CloseToplevel(t));
                }
            },
            Cmd::MoveToplevelToWorkspace(t, w, o) => {
                let version_ok = match self.toplevel_manager_version {
                    Some(v) => v >= 2,
                    None => false,
                };
                if self.is_managed(&t) && version_ok {
                    r.push(Request::MoveToplevelToWorkspace(t, w, o));
                }
            },
            Cmd::MoveWorkspaceBefore(w, other) => {
                if self.has_workspace_manager && self.supports(&w, self.versions.move_before_since) {
                    r.push(Request::MoveWorkspaceBefore(w, other));
                    r.push(Request::CommitWorkspaces);
                }
            },
            Cmd::MoveWorkspaceAfter(w, other) => {
                if self.has_workspace_manager && self.supports(&w, self.versions.move_after_since) {
                    r.push(Request::MoveWorkspaceAfter(w, other));
                    r.push(Request::CommitWorkspaces);
                }
            },
            Cmd::ActivateWorkspace(w) => {
                if self.has_workspace_manager {
                    r.push(Request::ActivateWorkspace(w));
                    r.push(Request::CommitWorkspaces);
                }
            },
            Cmd::SetWorkspacePinned(w, pinned) => {
                if self.has_workspace_manager && self.supports(&w, self.versions.pin_since) {
                    if pinned {
                        r.push(Request::PinWorkspace(w));
                    } else {
                        r.push(Request::UnpinWorkspace(w));
                    }
                    r.push(Request::CommitWorkspaces);
                }
            },
        }
        r
    }
}

/// The outputs among `outputs` whose names are known (`named`), in order.
pub open spec fn named_outputs(outputs: Seq<WlOutput>, named: Seq<WlOutput>) -> Seq<WlOutput> {
    outputs.filter(|o: WlOutput| named.contains(o))
}

/// What a group contributes to the workspace list: each of its workspaces
/// with the group's outputs whose names are known, unless no such output
/// exists.
pub open spec fn group_listing(g: WorkspaceGroup, named: Seq<WlOutput>) -> Seq<(Seq<WlOutput>, ZcosmicWorkspaceHandleV1)> {
    let outs = named_outputs(g.outputs@, named);
    if outs.len() > 0 {
        g.workspaces@.map_values(|w: ZcosmicWorkspaceHandleV1| (outs, w))
    } else {
        Seq::empty()
    }
}

/// The workspace list reported to the overview: the listings of the groups,
/// in order.
pub open spec fn workspace_listing(groups: Seq<WorkspaceGroup>, named: Seq<WlOutput>) -> Seq<(Seq<WlOutput>, ZcosmicWorkspaceHandleV1)>
    decreases groups.len(),
{
    if groups.len() == 0 {
        Seq::empty()
    } else {
        workspace_listing(groups.drop_last(), named) + group_listing(groups.last(), named)
    }
}

/// The captures and requests after registering a capture of each workspace
/// of `hs` in turn, from the captures `cs`, as `add_capture_source` does.
pub open spec fn with_workspace_sources(s: AppData, cs: Seq<(CaptureSource, bool)>, hs: Seq<ZcosmicWorkspaceHandleV1>) -> (
    Seq<(CaptureSource, bool)>,
    Seq<Request>,
)
    decreases hs.len(),
{
    if hs.len() == 0 {
        (cs, Seq::empty())
    } else {
        let prev = with_workspace_sources(s, cs, hs.drop_last());
        let src = CaptureSource::Workspace(hs.last());
        if capture_index(prev.0, src) is Some {
            prev
        } else {
            let m = source_matches(s, src);
            (prev.0.push((src, m)), if m { prev.1.push(Request::StartCapture(src)) } else { prev.1 })
        }
    }
}

/// The views of listed workspaces.
pub open spec fn listing_view(v: Seq<(Vec<WlOutput>, ZcosmicWorkspaceHandleV1)>) -> Seq<(Seq<WlOutput>, ZcosmicWorkspaceHandleV1)> {
    v.map_values(|e: (Vec<WlOutput>, ZcosmicWorkspaceHandleV1)| (e.0@, e.1))
}

impl AppData {
    /// The group's outputs whose names are known.
    fn named_outputs_of(outputs: &Vec<WlOutput>, named: &Vec<WlOutput>) -> (r: Vec<WlOutput>)
        ensures
            r@ == named_outputs(outputs@, named@),
    {
        let ghost pred = |o: WlOutput| named@.contains(o);
        let mut r: Vec<WlOutput> = Vec::new();
        let mut i: usize = 0;
        while i < outputs.len()
            invariant
                i <= outputs@.len(),
                pred == (|o: WlOutput| named@.contains(o)),
                r@ == outputs@.take(i as int).filter(pred),
            decreases outputs@.len() - i,
        {
            proof {
                reveal(Seq::filter);
                assert(outputs@.take(i + 1).drop_last() =~= outputs@.take(i as int));
                assert(outputs@.take(i + 1).last() == outputs@[i as int]);
            }
            if contains_output(named, &outputs[i]) {
                r.push(outputs[i]);
            }
            i = i + 1;
        }
        proof {
            assert(outputs@.take(outputs@.len() as int) =~= outputs@);
        }
        r
    }

    /// The workspace groups were reported complete: lists each workspace of
    /// a group with the group's outputs whose names are known (`named`),
    /// leaving out groups with no such output, and registers a capture of
    /// each listed workspace. Returns the list for the overview and the
    /// requests the registrations need.
    pub fn workspaces_done(&mut self, named: &Vec<WlOutput>) -> (r: (Vec<(Vec<WlOutput>, ZcosmicWorkspaceHandleV1)>, Vec<Request>))
        requires
            old(self).wf(),
        ensures
            final(self).wf(),
            same_but_captures(*old(self), *final(self)),
            listing_view(r.0@) == workspace_listing(old(self).workspace_groups@, named@),
            (final(self).captures@, r.1@) == with_workspace_sources(
                *old(self),
                old(self).captures@,
                workspace_listing(old(self).workspace_groups@, named@).map_values(
                    |e: (Seq<WlOutput>, ZcosmicWorkspaceHandleV1)| e.1,
                ),
            ),
    {
        let ghost s0 = *self;
        let ghost cs0 = self.captures@;
        let mut list: Vec<(Vec<WlOutput>, ZcosmicWorkspaceHandleV1)> = Vec::new();
        let mut reqs: Vec<Request> = Vec::new();
        let ghost handles_of = |l: Seq<(Seq<WlOutput>, ZcosmicWorkspaceHandleV1)>| l.map_values(
            |e: (Seq<WlOutput>, ZcosmicWorkspaceHandleV1)| e.1,
        );
        let mut g: usize = 0;
        proof {
            assert(s0.workspace_groups@.take(0) =~= Seq::<WorkspaceGroup>::empty());
            assert(listing_view(list@) =~= Seq::<(Seq<WlOutput>, ZcosmicWorkspaceHandleV1)>::empty());
            assert(handles_of(listing_view(list@)) =~= Seq::<ZcosmicWorkspaceHandleV1>::empty());
        }
        while g < self.workspace_groups.len()
            invariant
                g <= self.workspace_groups@.len(),
                self.wf(),
                same_but_captures(s0, *self),
                cs0 == s0.captures@,
                handles_of == (|l: Seq<(Seq<WlOutput>, ZcosmicWorkspaceHandleV1)>| l.map_values(
                    |e: (Seq<WlOutput>, ZcosmicWorkspaceHandleV1)| e.1,
                )),
                listing_view(list@) == workspace_listing(s0.workspace_groups@.take(g as int), named@),
                (self.captures@, reqs@) == with_workspace_sources(s0, cs0, handles_of(listing_view(list@))),
            decreases self.workspace_groups@.len() - g,
        {
            let outs = Self::named_outputs_of(&self.workspace_groups[g].outputs, named);
            let ghost list_g = listing_view(list@);
            let ghost grp = self.workspace_groups@[g as int];
            proof {
                assert(s0.workspace_groups@.take(g + 1).drop_last() =~= s0.workspace_groups@.take(g as int));
                assert(s0.workspace_groups@.take(g + 1).last() == grp);
            }
            if outs.len() > 0 {
                let n = self.workspace_groups[g].workspaces.len();
                let mut k: usize = 0;
                proof {
                    assert(grp.workspaces@.take(0).map_values(|w: ZcosmicWorkspaceHandleV1| (outs@, w)) =~= Seq::<(Seq<WlOutput>, ZcosmicWorkspaceHandleV1)>::empty());
                    assert(list_g + Seq::<(Seq<WlOutput>, ZcosmicWorkspaceHandleV1)>::empty() =~= list_g);
                }
                while k < n
                    invariant
                        k <= n,
                        g < self.workspace_groups@.len(),
                        n == grp.workspaces@.len(),
                        grp == self.workspace_groups@[g as int],
                        self.wf(),
                        same_but_captures(s0, *self),
                        cs0 == s0.captures@,
                        handles_of == (|l: Seq<(Seq<WlOutput>, ZcosmicWorkspaceHandleV1)>| l.map_values(
                            |e: (Seq<WlOutput>, ZcosmicWorkspaceHandleV1)| e.1,
                        )),
                        listing_view(list@) == list_g + grp.workspaces@.take(k as int).map_values(
                            |w: ZcosmicWorkspaceHandleV1| (outs@, w),
                        ),
                        (self.captures@, reqs@) == with_workspace_sources(s0, cs0, handles_of(listing_view(list@))),
                    decreases n - k,
                {
                    let w = self.workspace_groups[g].workspaces[k];
                    let ghost before = listing_view(list@);
                    let ghost reqs_before = reqs@;
                    let ghost caps_before = self.captures@;
                    let mut copy: Vec<WlOutput> = Vec::new();
                    let mut q: usize = 0;
                    while q < outs.len()
                        invariant
                            q <= outs@.len(),
                            copy@ == outs@.take(q as int),
                        decreases outs@.len() - q,
                    {
                        copy.push(outs[q]);
                        proof {
                            assert(outs@.take(q + 1) =~= outs@.take(q as int).push(outs@[q as int]));
                        }
                        q = q + 1;
                    }
                    proof {
                        assert(outs@.take(outs@.len() as int) =~= outs@);
                    }
                    list.push((copy, w));
                    let mut more = self.add_capture_source(CaptureSource::Workspace(w));
                    reqs.append(&mut more);
                    proof {
                        assert(listing_view(list@) =~= before.push((outs@, w)));
                        assert(grp.workspaces@.take(k + 1).map_values(|w: ZcosmicWorkspaceHandleV1| (outs@, w))
                            =~= grp.workspaces@.take(k as int).map_values(|w: ZcosmicWorkspaceHandleV1| (outs@, w)).push((outs@, w)));
                        assert(handles_of(listing_view(list@)) =~= handles_of(before).push(w));
                        assert(handles_of(listing_view(list@)).drop_last() =~= handles_of(before));
                    }
                    k = k + 1;
                }
                proof {
                    assert(grp.workspaces@.take(n as int) =~= grp.workspaces@);
                    assert(group_listing(grp, named@) == grp.workspaces@.map_values(|w: ZcosmicWorkspaceHandleV1| (outs@, w)));
                }
            } else {
                proof {
                    assert(group_listing(grp, named@) =~= Seq::<(Seq<WlOutput>, ZcosmicWorkspaceHandleV1)>::empty());
                    assert(list_g + Seq::<(Seq<WlOutput>, ZcosmicWorkspaceHandleV1)>::empty() =~= list_g);
                }
            }
            g = g + 1;
        }
        proof {
            assert(s0.workspace_groups@.take(g as int) =~= s0.workspace_groups@);
        }
        (list, reqs)
    }
}

/// After a capture filter is applied, exactly the selected sources are
/// captured: every capture runs if and only if the filter selects its source.
pub proof fn lemma_filter_applied(before: AppData, f: CaptureFilter, after: AppData, r: Seq<Request>)
    requires
        ({
            let s = AppData { capture_filter: f, ..before };
            &&& same_but_captures(s, after)
            &&& after.captures@.len() == before.captures@.len()
            &&& forall|i: int| 0 <= i < before.captures@.len() ==> #[trigger] after.captures@[i] == (
                before.captures@[i].0,
                source_matches(s, before.captures@[i].0),
            )
        }),
    ensures
        forall|i: int| 0 <= i < after.captures@.len() ==> (#[trigger] after.captures@[i]).1 == source_matches(after, after.captures@[i].0),
{
    let s = AppData { capture_filter: f, ..before };
    assert forall|i: int| 0 <= i < after.captures@.len() implies (#[trigger] after.captures@[i]).1 == source_matches(after, after.captures@[i].0) by {
        let src = after.captures@[i].0;
        assert(source_matches(after, src) == source_matches(s, src));
    }
}

/// Applying the same capture filter twice in a row asks for nothing the
/// second time.
pub proof fn lemma_filter_idempotent(s: AppData)
    requires
        forall|i: int| 0 <= i < s.captures@.len() ==> (#[trigger] s.captures@[i]).1 == source_matches(s, s.captures@[i].0),
    ensures
        capture_transitions(s, s.captures@) == Seq::<Request>::empty(),
{
    lemma_no_transitions(s, s.captures@);
}

proof fn lemma_no_transitions(s: AppData, cs: Seq<(CaptureSource, bool)>)
    requires
        forall|i: int| 0 <= i < cs.len() ==> (#[trigger] cs[i]).1 == source_matches(s, cs[i].0),
    ensures
        capture_transitions(s, cs) == Seq::<Request>::empty(),
    decreases cs.len(),
{
    if cs.len() > 0 {
        assert forall|i: int| 0 <= i < cs.drop_last().len() implies (#[trigger] cs.drop_last()[i]).1 == source_matches(s, cs.drop_last()[i].0) by {
            assert(cs.drop_last()[i] == cs[i]);
        }
        lemma_no_transitions(s, cs.drop_last());
        assert(cs.last() == cs[cs.len() - 1]);
    }
}

} // verus!
