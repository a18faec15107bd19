//! Object identities of the mock backend, and the mock backend itself: a
//! backend without a compositor, which makes up four workspaces of three
//! windows for each output it is asked to capture.

use super::{CaptureFilter, Cmd, Event, ToplevelInfo, ToplevelState, Workspace, WorkspaceState};
use crate::decimal::{decimal, push_decimal};
use vstd::prelude::*;

verus! {

/// Identity of a backend object: an integer by which the object is found again.
#[derive(Eq, PartialEq, Structural, Clone, Copy, Debug, Hash)]
pub struct MockObjectId(pub usize);

/// Source of fresh object identities; each identity is the counter's value
/// before it is advanced, and the counter wraps around as an atomic counter does.
#[derive(Debug)]
pub struct MockIdCounter {
    pub next: usize,
}

impl MockIdCounter {
    /// A counter whose first identity is 0.
    pub fn new() -> (r: Self)
        ensures
            r.next == 0,
    {
        MockIdCounter { next: 0 }
    }
}

impl MockObjectId {
    /// Takes the next identity from `counter`.
    pub fn new(counter: &mut MockIdCounter) -> (r: Self)
        ensures
            r.0 == old(counter).next,
            final(counter).next == (if old(counter).next == usize::MAX {
                0
            } else {
                (old(counter).next + 1) as usize
            }),
    {
        let id = counter.next;
        counter.next = counter.next.wrapping_add(1);
        MockObjectId(id)
    }
}

/// Handle of a workspace.
#[derive(Eq, PartialEq, Structural, Clone, Copy, Debug, Hash)]
pub struct ZcosmicWorkspaceHandleV1(pub MockObjectId);

/// Handle of a toplevel window.
#[derive(Eq, PartialEq, Structural, Clone, Copy, Debug, Hash)]
pub struct ZcosmicToplevelHandleV1(pub MockObjectId);

/// Handle of an output (a monitor).
#[derive(Eq, PartialEq, Structural, Clone, Copy, Debug, Hash)]
pub struct WlOutput(pub MockObjectId);


/// The colour of a solid capture image.
#[derive(Clone, Copy, Debug, PartialEq, Eq, Structural)]
pub struct SolidColor {
    pub r: u8,
    pub g: u8,
    pub b: u8,
}

/// Colour of the made-up toplevel captures.
pub open spec fn toplevel_color() -> SolidColor {
    SolidColor { r: 255, g: 0, b: 0 }
}

/// Colour of the made-up workspace captures.
pub open spec fn workspace_color() -> SolidColor {
    SolidColor { r: 0, g: 255, b: 0 }
}

/// What the mock backend sends: an event, or a capture whose image is a
/// solid colour, which the frontend side paints before sending it on.
#[derive(Debug)]
pub enum MockEvent {
    Send(Event),
    ToplevelCaptureSolid(ZcosmicToplevelHandleV1, SolidColor),
    WorkspaceCaptureSolid(ZcosmicWorkspaceHandleV1, WlOutput, SolidColor),
}

/// Number of workspaces made up for each output.
pub const WORKSPACES_PER_OUTPUT: usize = 4;

/// Number of toplevels made up for each workspace.
pub const TOPLEVELS_PER_WORKSPACE: usize = 3;

/// State of the mock backend: the outputs it knows, the workspaces it made
/// up with the outputs they are on, and where its identities come from.
#[derive(Debug)]
pub struct AppData {
    pub outputs: Vec<WlOutput>,
    pub workspaces: Vec<(Vec<WlOutput>, Workspace)>,
    pub ids: MockIdCounter,
}

/// The identity `k` steps after `c`, wrapping around.
pub open spec fn id_after(c: usize, k: int) -> usize {
    ((c + k) % (usize::MAX + 1)) as usize
}

/// Identities used per output: each workspace takes one, then one for each
/// of its toplevels.
pub open spec fn ids_per_output() -> int {
    16
}

/// Handle of workspace `i` made up from identity `c` on.
pub open spec fn mock_workspace_handle(c: usize, i: int) -> ZcosmicWorkspaceHandleV1 {
    ZcosmicWorkspaceHandleV1(MockObjectId(id_after(c, i * 4)))
}

/// Handle of toplevel `j` of workspace `i` made up from identity `c` on.
pub open spec fn mock_toplevel_handle(c: usize, i: int, j: int) -> ZcosmicToplevelHandleV1 {
    ZcosmicToplevelHandleV1(MockObjectId(id_after(c, i * 4 + 1 + j)))
}

/// Workspace `i` made up from identity `c` on: named `Workspace i`, and
/// active when it is the first.
pub open spec fn is_mock_workspace(w: Workspace, c: usize, i: int) -> bool {
    &&& w.handle == mock_workspace_handle(c, i)
    &&& w.name@ == "Workspace "@ + decimal(i as nat)
    &&& w.state@ == if i == 0 {
        seq![WorkspaceState::Active]
    } else {
        Seq::<WorkspaceState>::empty()
    }
}

/// Toplevel `j` of workspace `i` made up from identity `c` on, for
/// `output`: titled `App j`, on that workspace and output, and activated
/// when its workspace is the first.
pub open spec fn is_mock_toplevel(info: ToplevelInfo, c: usize, i: int, j: int, output: WlOutput) -> bool {
    &&& info.title@ == "App "@ + decimal(j as nat)
    &&& info.app_id@ == "com.example.app"@
    &&& info.state@ == if i == 0 {
        seq![ToplevelState::Activated]
    } else {
        Seq::<ToplevelState>::empty()
    }
    &&& info.output@ == seq![output]
    &&& info.workspace@ == seq![mock_workspace_handle(c, i)]
}

/// The event announces toplevel `j` of workspace `i` made up from identity
/// `c` on, for `output`.
pub open spec fn is_mock_toplevel_event(e: MockEvent, c: usize, i: int, j: int, output: WlOutput) -> bool {
    match e {
        MockEvent::Send(Event::NewToplevel(h, info)) => h == mock_toplevel_handle(c, i, j)
            && is_mock_toplevel(info, c, i, j, output),
        _ => false,
    }
}

/// The event carries a workspace list with the same contents as `ws`.
pub open spec fn is_workspace_list_event(e: MockEvent, ws: Seq<(Vec<WlOutput>, Workspace)>) -> bool {
    match e {
        MockEvent::Send(Event::Workspaces(list)) => same_workspace_lists(list@, ws),
        _ => false,
    }
}

/// Two workspace lists hold the same outputs and workspaces.
pub open spec fn same_workspace_lists(a: Seq<(Vec<WlOutput>, Workspace)>, b: Seq<(Vec<WlOutput>, Workspace)>) -> bool {
    &&& a.len() == b.len()
    &&& forall|k: int| 0 <= k < a.len() ==> {
        &&& (#[trigger] a[k]).0@ == b[k].0@
        &&& a[k].1.handle == b[k].1.handle
        &&& a[k].1.name@ == b[k].1.name@
        &&& a[k].1.state@ == b[k].1.state@
    }
}

/// The workspaces from position `start` on are the four made up from
/// identity `c` on for `output`.
pub open spec fn has_mock_workspaces(ws: Seq<(Vec<WlOutput>, Workspace)>, start: int, c: usize, output: WlOutput) -> bool {
    &&& 0 <= start
    &&& start + 4 <= ws.len()
    &&& forall|i: int| 0 <= i < 4 ==> {
        &&& (#[trigger] ws[start + i]).0@ == seq![output]
        &&& is_mock_workspace(ws[start + i].1, c, i)
    }
}

/// The `k`-th of the toplevel events for a new output, made up from
/// identity `c` on: for each workspace in turn, for each of its toplevels in
/// turn, the new toplevel and then its capture.
pub open spec fn is_toplevel_event_at(e: MockEvent, c: usize, k: int, output: WlOutput) -> bool {
    let i = k / 6;
    let j = (k % 6) / 2;
    if k % 2 == 0 {
        is_mock_toplevel_event(e, c, i, j, output)
    } else {
        e == MockEvent::ToplevelCaptureSolid(mock_toplevel_handle(c, i, j), toplevel_color())
    }
}

/// Number of events sent for a new output.
pub open spec fn events_per_output() -> int {
    29
}

/// The events for a new output, made up from identity `c` on, after which
/// the workspaces are `ws`: for each workspace in turn, for each of its
/// toplevels in turn, the new toplevel and its capture; then the whole
/// workspace list; then the capture of each new workspace.
pub open spec fn is_output_events(events: Seq<MockEvent>, c: usize, output: WlOutput, ws: Seq<(Vec<WlOutput>, Workspace)>) -> bool {
    &&& events.len() == events_per_output()
    &&& forall|k: int| 0 <= k < 24 ==> is_toplevel_event_at(#[trigger] events[k], c, k, output)
    &&& is_workspace_list_event(events[24], ws)
    &&& forall|i: int|
        0 <= i < 4 ==> events[25 + i] == MockEvent::WorkspaceCaptureSolid(
            #[trigger] mock_workspace_handle(c, i),
            output,
            workspace_color(),
        )
}

proof fn lemma_event_index(i: int, j: int)
    requires
        0 <= i,
        0 <= j < 3,
    ensures
        (i * 6 + 2 * j) / 6 == i,
        ((i * 6 + 2 * j) % 6) / 2 == j,
        (i * 6 + 2 * j) % 2 == 0,
        (i * 6 + 2 * j + 1) / 6 == i,
        ((i * 6 + 2 * j + 1) % 6) / 2 == j,
        (i * 6 + 2 * j + 1) % 2 == 1,
{
    vstd::arithmetic::div_mod::lemma_fundamental_div_mod_converse(i * 6 + 2 * j, 6, i, 2 * j);
    vstd::arithmetic::div_mod::lemma_fundamental_div_mod_converse(i * 6 + 2 * j + 1, 6, i, 2 * j + 1);
    vstd::arithmetic::div_mod::lemma_fundamental_div_mod_converse(i * 6 + 2 * j, 2, i * 3 + j, 0);
    vstd::arithmetic::div_mod::lemma_fundamental_div_mod_converse(i * 6 + 2 * j + 1, 2, i * 3 + j, 1);
    vstd::arithmetic::div_mod::lemma_fundamental_div_mod_converse(2 * j, 2, j, 0);
    vstd::arithmetic::div_mod::lemma_fundamental_div_mod_converse(2 * j + 1, 2, j, 1);
}

/// The outputs of `wanted` that are not in `known`, each once, in the order
/// they first appear.
pub open spec fn unknown_outputs(known: Seq<WlOutput>, wanted: Seq<WlOutput>) -> Seq<WlOutput>
    decreases wanted.len(),
{
    if wanted.len() == 0 {
        Seq::empty()
    } else {
        let prev = unknown_outputs(known, wanted.drop_last());
        if (known + prev).contains(wanted.last()) {
            prev
        } else {
            prev.push(wanted.last())
        }
    }
}

/// Of the outputs wanted, at most as many are unknown as are wanted.
proof fn lemma_unknown_outputs_len(known: Seq<WlOutput>, wanted: Seq<WlOutput>)
    ensures
        unknown_outputs(known, wanted).len() <= wanted.len(),
    decreases wanted.len(),
{
    if wanted.len() > 0 {
        lemma_unknown_outputs_len(known, wanted.drop_last());
    }
}

/// The state and events after the outputs `added` were added one after the
/// other, from the state `(outputs, ws, c)`.
pub open spec fn outputs_added(
    outputs: Seq<WlOutput>,
    ws: Seq<(Vec<WlOutput>, Workspace)>,
    c: usize,
    added: Seq<WlOutput>,
    final_outputs: Seq<WlOutput>,
    final_ws: Seq<(Vec<WlOutput>, Workspace)>,
    final_c: usize,
    events: Seq<MockEvent>,
) -> bool {
    &&& final_outputs == outputs + added
    &&& final_c == id_after(c, ids_per_output() * added.len())
    &&& final_ws.len() == ws.len() + WORKSPACES_PER_OUTPUT * added.len()
    &&& final_ws.take(ws.len() as int) == ws
    &&& forall|m: int|
        0 <= m < added.len() ==> has_mock_workspaces(
            final_ws,
            ws.len() + WORKSPACES_PER_OUTPUT * m,
            id_after(c, ids_per_output() * m),
            #[trigger] added[m],
        )
    &&& events.len() == events_per_output() * added.len()
    &&& forall|m: int|
        0 <= m < added.len() ==> is_output_events(
            events.subrange(events_per_output() * m, events_per_output() * m + events_per_output()),
            id_after(c, ids_per_output() * m),
            #[trigger] added[m],
            final_ws.take(ws.len() + WORKSPACES_PER_OUTPUT * (m + 1)),
        )
}

proof fn lemma_id_after_add(c: usize, a: int, b: int)
    requires
        a >= 0,
        b >= 0,
    ensures
        id_after(id_after(c, a), b) == id_after(c, a + b),
{
    let m = usize::MAX + 1;
    vstd::arithmetic::div_mod::lemma_mod_bound(c + a, m);
    vstd::arithmetic::div_mod::lemma_add_mod_noop_right(b, c + a, m);
    assert((c + a) % m + b == b + (c + a) % m);
    assert(c + a + b == b + (c + a));
}

/// Every workspace handle was made from an identity taken before `next`.
pub open spec fn handles_below(ws: Seq<(Vec<WlOutput>, Workspace)>, next: usize) -> bool {
    forall|k: int| 0 <= k < ws.len() ==> (#[trigger] ws[k]).1.handle.0.0 < next
}

/// Identities counted up from `c` without passing the largest one add.
proof fn lemma_id_after_adds(c: usize, k: int)
    requires
        0 <= k,
        c + k <= usize::MAX,
    ensures
        id_after(c, k) == c + k,
{
    vstd::arithmetic::div_mod::lemma_small_mod((c + k) as nat, (usize::MAX + 1) as nat);
}

/// The identities made up for an output from identity `c` on are new: each
/// lies from `c` up to `c + 16`, no two of them are equal, and none is the
/// identity of a workspace made earlier, as long as the counter does not
/// run past the largest identity.
pub proof fn lemma_mock_handles_fresh(ws: Seq<(Vec<WlOutput>, Workspace)>, c: usize)
    requires
        handles_below(ws, c),
        c + ids_per_output() <= usize::MAX,
    ensures
        forall|i: int| 0 <= i < 4 ==> c <= (#[trigger] mock_workspace_handle(c, i)).0.0 < c + ids_per_output(),
        forall|i: int, j: int| 0 <= i < 4 && 0 <= j < 3 ==> c <= (#[trigger] mock_toplevel_handle(c, i, j)).0.0 < c + ids_per_output(),
        forall|i: int, i2: int| 0 <= i < 4 && 0 <= i2 < 4 && i != i2 ==> #[trigger] mock_workspace_handle(c, i) != #[trigger] mock_workspace_handle(c, i2),
        forall|i: int, j: int, i2: int, j2: int|
            0 <= i < 4 && 0 <= j < 3 && 0 <= i2 < 4 && 0 <= j2 < 3 && (i != i2 || j != j2)
                ==> #[trigger] mock_toplevel_handle(c, i, j) != #[trigger] mock_toplevel_handle(c, i2, j2),
        forall|i: int, i2: int, j2: int| 0 <= i < 4 && 0 <= i2 < 4 && 0 <= j2 < 3
            ==> (#[trigger] mock_workspace_handle(c, i)).0 != (#[trigger] mock_toplevel_handle(c, i2, j2)).0,
        forall|i: int, k: int| 0 <= i < 4 && 0 <= k < ws.len() ==> #[trigger] mock_workspace_handle(c, i) != (#[trigger] ws[k]).1.handle,
{
    assert forall|k: int| 0 <= k < 16 implies #[trigger] id_after(c, k) == c + k by {
        lemma_id_after_adds(c, k);
    }
    assert forall|i: int| 0 <= i < 4 implies c <= (#[trigger] mock_workspace_handle(c, i)).0.0 < c + ids_per_output() by {
        assert(id_after(c, i * 4) == c + i * 4);
    }
    assert forall|i: int, j: int| 0 <= i < 4 && 0 <= j < 3 implies c <= (#[trigger] mock_toplevel_handle(c, i, j)).0.0 < c + ids_per_output() by {
        assert(id_after(c, i * 4 + 1 + j) == c + i * 4 + 1 + j);
    }
    assert forall|i: int, i2: int| 0 <= i < 4 && 0 <= i2 < 4 && i != i2 implies #[trigger] mock_workspace_handle(c, i) != #[trigger] mock_workspace_handle(c, i2) by {
        assert(id_after(c, i * 4) == c + i * 4);
        assert(id_after(c, i2 * 4) == c + i2 * 4);
    }
    assert forall|i: int, j: int, i2: int, j2: int|
        0 <= i < 4 && 0 <= j < 3 && 0 <= i2 < 4 && 0 <= j2 < 3 && (i != i2 || j != j2)
        implies #[trigger] mock_toplevel_handle(c, i, j) != #[trigger] mock_toplevel_handle(c, i2, j2) by {
        assert(id_after(c, i * 4 + 1 + j) == c + i * 4 + 1 + j);
        assert(id_after(c, i2 * 4 + 1 + j2) == c + i2 * 4 + 1 + j2);
        if i != i2 {
            if i < i2 {
                assert(i * 4 + 1 + j < i2 * 4 + 1 + j2);
            } else {
                assert(i2 * 4 + 1 + j2 < i * 4 + 1 + j);
            }
        }
    }
    assert forall|i: int, i2: int, j2: int| 0 <= i < 4 && 0 <= i2 < 4 && 0 <= j2 < 3
        implies (#[trigger] mock_workspace_handle(c, i)).0 != (#[trigger] mock_toplevel_handle(c, i2, j2)).0 by {
        assert(id_after(c, i * 4) == c + i * 4);
        assert(id_after(c, i2 * 4 + 1 + j2) == c + i2 * 4 + 1 + j2);
        if i <= i2 {
            assert(i * 4 < i2 * 4 + 1 + j2);
        } else {
            assert(i2 * 4 + 1 + j2 < i * 4);
        }
    }
    assert forall|i: int, k: int| 0 <= i < 4 && 0 <= k < ws.len() implies #[trigger] mock_workspace_handle(c, i) != (#[trigger] ws[k]).1.handle by {
        assert(id_after(c, i * 4) == c + i * 4);
    }
}

/// Adding an output keeps every workspace handle below the counter, as long
/// as the counter does not run past the largest identity.
proof fn lemma_add_output_keeps_handles_below(
    ws0: Seq<(Vec<WlOutput>, Workspace)>,
    ws1: Seq<(Vec<WlOutput>, Workspace)>,
    c: usize,
    output: WlOutput,
)
    requires
        handles_below(ws0, c),
        c + ids_per_output() <= usize::MAX,
        ws1.len() == ws0.len() + 4,
        ws1.take(ws0.len() as int) == ws0,
        has_mock_workspaces(ws1, ws0.len() as int, c, output),
    ensures
        handles_below(ws1, id_after(c, ids_per_output())),
{
    lemma_id_after_adds(c, ids_per_output());
    lemma_mock_handles_fresh(ws0, c);
    assert forall|k: int| 0 <= k < ws1.len() implies (#[trigger] ws1[k]).1.handle.0.0 < id_after(c, ids_per_output()) by {
        if k < ws0.len() {
            assert(ws1[k] == ws1.take(ws0.len() as int)[k]);
        } else {
            let i = k - ws0.len();
            assert(ws1[ws0.len() + i] == ws1[k]);
            assert(is_mock_workspace(ws1[ws0.len() + i].1, c, i));
            assert(c <= mock_workspace_handle(c, i).0.0 < c + ids_per_output());
        }
    }
}

/// Stepping the identity counter once more.
proof fn lemma_id_step(c: usize, k: int)
    requires
        k >= 0,
    ensures
        id_after(c, k + 1) == (if id_after(c, k) == usize::MAX {
            0
        } else {
            (id_after(c, k) + 1) as usize
        }),
{
    let m = usize::MAX + 1;
    let x = c + k;
    assert(m > 0);
    vstd::arithmetic::div_mod::lemma_add_mod_noop(x, 1, m);
    vstd::arithmetic::div_mod::lemma_mod_bound(x, m);
    vstd::arithmetic::div_mod::lemma_small_mod(1nat, m as nat);
    let r = x % m;
    if r == usize::MAX {
        assert((r + 1) % m == 0) by {
            vstd::arithmetic::div_mod::lemma_mod_self_0(m);
        }
    } else {
        assert((r + 1) % m == r + 1) by {
            vstd::arithmetic::div_mod::lemma_small_mod((r + 1) as nat, m as nat);
        }
    }
}

proof fn lemma_id_after_zero(c: usize)
    ensures
        id_after(c, 0) == c,
{
    vstd::arithmetic::div_mod::lemma_small_mod(c as nat, (usize::MAX + 1) as nat);
}

/// A copy of a list of outputs.
fn copy_outputs(v: &Vec<WlOutput>) -> (r: Vec<WlOutput>)
    ensures
        r@ == v@,
{
    let mut r: Vec<WlOutput> = Vec::new();
    let mut i: usize = 0;
    while i < v.len()
        invariant
            i <= v@.len(),
            r@ == v@.take(i as int),
        decreases v@.len() - i,
    {
        r.push(v[i]);
        proof {
            assert(v@.take(i + 1) =~= v@.take(i as int).push(v@[i as int]));
        }
        i = i + 1;
    }
    proof {
        assert(v@.take(v@.len() as int) =~= v@);
    }
    r
}

/// A copy of a list of workspace states.
fn copy_states(v: &Vec<WorkspaceState>) -> (r: Vec<WorkspaceState>)
    ensures
        r@ == v@,
{
    let mut r: Vec<WorkspaceState> = Vec::new();
    let mut i: usize = 0;
    while i < v.len()
        invariant
            i <= v@.len(),
            r@ == v@.take(i as int),
        decreases v@.len() - i,
    {
        r.push(v[i]);
        proof {
            assert(v@.take(i + 1) =~= v@.take(i as int).push(v@[i as int]));
        }
        i = i + 1;
    }
    proof {
        assert(v@.take(v@.len() as int) =~= v@);
    }
    r
}

/// A copy of a workspace list.
fn copy_workspace_list(v: &Vec<(Vec<WlOutput>, Workspace)>) -> (r: Vec<(Vec<WlOutput>, Workspace)>)
    ensures
        same_workspace_lists(r@, v@),
{
    let mut r: Vec<(Vec<WlOutput>, Workspace)> = Vec::new();
    let mut i: usize = 0;
    while i < v.len()
        invariant
            i <= v@.len(),
            same_workspace_lists(r@, v@.take(i as int)),
        decreases v@.len() - i,
    {
        let (outputs, w) = &v[i];
        let entry = (
            copy_outputs(outputs),
            Workspace { handle: w.handle, name: w.name.clone(), state: copy_states(&w.state) },
        );
        r.push(entry);
        i = i + 1;
    }
    proof {
        assert(v@.take(v@.len() as int) =~= v@);
    }
    r
}

impl AppData {
    /// Every workspace handle was made from an identity the counter already
    /// handed out.
    pub open spec fn wf(&self) -> bool {
        handles_below(self.workspaces@, self.ids.next)
    }

    /// A mock backend that knows no output yet.
    pub fn new() -> (r: Self)
        ensures
            r.wf(),
            r.outputs@ == Seq::<WlOutput>::empty(),
            r.workspaces@ == Seq::<(Vec<WlOutput>, Workspace)>::empty(),
            r.ids.next == 0,
    {
        AppData { outputs: Vec::new(), workspaces: Vec::new(), ids: MockIdCounter::new() }
    }

    /// Makes up the workspaces and toplevels of a new output: four
    /// workspaces on it, the first active, each with three toplevels, the
    /// toplevels of the first workspace activated. Returns what to send.
    pub fn add_output(&mut self, output: &WlOutput) -> (r: Vec<MockEvent>)
        ensures
            final(self).ids.next == id_after(old(self).ids.next, ids_per_output()),
            final(self).outputs@ == old(self).outputs@.push(*output),
            final(self).workspaces@.len() == old(self).workspaces@.len() + WORKSPACES_PER_OUTPUT,
            final(self).workspaces@.take(old(self).workspaces@.len() as int) == old(self).workspaces@,
            has_mock_workspaces(final(self).workspaces@, old(self).workspaces@.len() as int, old(self).ids.next, *output),
            is_output_events(r@, old(self).ids.next, *output, final(self).workspaces@),
            old(self).wf() && old(self).ids.next + ids_per_output() <= usize::MAX ==> final(self).wf(),
    {
        let ghost c = self.ids.next;
        let ghost ws0 = self.workspaces@;
        let mut events: Vec<MockEvent> = Vec::new();
        let mut new_workspaces: Vec<ZcosmicWorkspaceHandleV1> = Vec::new();
        proof {
            lemma_id_after_zero(c);
        }
        let mut i: usize = 0;
        while i < WORKSPACES_PER_OUTPUT
            invariant
                i <= 4,
                c == old(self).ids.next,
                self.ids.next == id_after(c, i * 4),
                self.outputs@ == old(self).outputs@,
                ws0 == old(self).workspaces@,
                self.workspaces@.len() == ws0.len() + i,
                self.workspaces@.take(ws0.len() as int) == ws0,
                forall|k: int| 0 <= k < i ==> {
                    &&& (#[trigger] self.workspaces@[ws0.len() + k]).0@ == seq![*output]
                    &&& is_mock_workspace(self.workspaces@[ws0.len() + k].1, c, k)
                },
                new_workspaces@.len() == i,
                forall|k: int| 0 <= k < i ==> #[trigger] new_workspaces@[k] == mock_workspace_handle(c, k),
                events@.len() == i * 6,
                forall|k: int| 0 <= k < events@.len() ==> is_toplevel_event_at(#[trigger] events@[k], c, k, *output),
            decreases 4 - i,
        {
            let ghost base = i * 4;
            let workspace_handle = ZcosmicWorkspaceHandleV1(MockObjectId::new(&mut self.ids));
            proof {
                lemma_id_step(c, base);
            }
            let mut name = "Workspace ".to_owned();
            push_decimal(&mut name, i as u64);
            let mut state: Vec<WorkspaceState> = Vec::new();
            if i == 0 {
                state.push(WorkspaceState::Active);
            }
            let workspace = Workspace { handle: workspace_handle, name, state };
            proof {
                reveal_strlit("Workspace ");
                assert(is_mock_workspace(workspace, c, i as int));
            }
            let ghost ws_mid = self.workspaces@;
            let mut j: usize = 0;
            while j < TOPLEVELS_PER_WORKSPACE
                invariant
                    j <= 3,
                    i < 4,
                    base == i * 4,
                    c == old(self).ids.next,
                    self.ids.next == id_after(c, base + 1 + j),
                    self.outputs@ == old(self).outputs@,
                    self.workspaces@ == ws_mid,
                    workspace_handle == mock_workspace_handle(c, i as int),
                    events@.len() == i * 6 + 2 * j,
                    forall|k: int| 0 <= k < events@.len() ==> is_toplevel_event_at(#[trigger] events@[k], c, k, *output),
                decreases 3 - j,
            {
                let toplevel_handle = ZcosmicToplevelHandleV1(MockObjectId::new(&mut self.ids));
                proof {
                    lemma_id_step(c, base + 1 + j);
                }
                let mut title = "App ".to_owned();
                push_decimal(&mut title, j as u64);
                let mut state: Vec<ToplevelState> = Vec::new();
                if i == 0 {
                    state.push(ToplevelState::Activated);
                }
                let mut on_outputs: Vec<WlOutput> = Vec::new();
                on_outputs.push(*output);
                let mut on_workspaces: Vec<ZcosmicWorkspaceHandleV1> = Vec::new();
                on_workspaces.push(workspace_handle);
                let toplevel_info = ToplevelInfo {
                    title,
                    app_id: "com.example.app".to_owned(),
                    state,
                    output: on_outputs,
                    workspace: on_workspaces,
                };
                proof {
                    reveal_strlit("App ");
                    reveal_strlit("com.example.app");
                    assert(toplevel_handle == mock_toplevel_handle(c, i as int, j as int));
                    assert(is_mock_toplevel(toplevel_info, c, i as int, j as int, *output));
                    lemma_event_index(i as int, j as int);
                }
                events.push(MockEvent::Send(Event::NewToplevel(toplevel_handle, toplevel_info)));
                events.push(
                    MockEvent::ToplevelCaptureSolid(toplevel_handle, SolidColor { r: 255, g: 0, b: 0 }),
                );
                j = j + 1;
            }
            let mut on_outputs: Vec<WlOutput> = Vec::new();
            on_outputs.push(*output);
            self.workspaces.push((on_outputs, workspace));
            new_workspaces.push(workspace_handle);
            proof {
                assert(self.workspaces@.take(ws0.len() as int) =~= ws_mid.take(ws0.len() as int));
            }
            i = i + 1;
        }
        let list = copy_workspace_list(&self.workspaces);
        events.push(MockEvent::Send(Event::Workspaces(list)));
        let ghost n = events@.len();
        let mut k: usize = 0;
        while k < new_workspaces.len()
            invariant
                k <= new_workspaces@.len(),
                new_workspaces@.len() == 4,
                forall|q: int| 0 <= q < 4 ==> #[trigger] new_workspaces@[q] == mock_workspace_handle(c, q),
                n == 25,
                events@.len() == n + k,
                forall|q: int| 0 <= q < 24 ==> is_toplevel_event_at(#[trigger] events@[q], c, q, *output),
                is_workspace_list_event(events@[24], self.workspaces@),
                forall|q: int| 0 <= q < k ==> #[trigger] events@[n + q] == MockEvent::WorkspaceCaptureSolid(
                    mock_workspace_handle(c, q),
                    *output,
                    workspace_color(),
                ),
            decreases new_workspaces@.len() - k,
        {
            events.push(
                MockEvent::WorkspaceCaptureSolid(new_workspaces[k], *output, SolidColor { r: 0, g: 255, b: 0 }),
            );
            k = k + 1;
        }
        proof {
            assert forall|q: int| 0 <= q < 4 implies events@[25 + q] == MockEvent::WorkspaceCaptureSolid(
                #[trigger] mock_workspace_handle(c, q),
                *output,
                workspace_color(),
            ) by {
                assert(events@[n + q] == events@[25 + q]);
            }
        }
        self.outputs.push(*output);
        proof {
            if handles_below(ws0, c) && c + ids_per_output() <= usize::MAX {
                lemma_add_output_keeps_handles_below(ws0, self.workspaces@, c, *output);
            }
        }
        events
    }

    /// Whether the backend knows `output`.
    fn knows_output(&self, output: &WlOutput) -> (r: bool)
        ensures
            r == self.outputs@.contains(*output),
    {
        let mut i: usize = 0;
        while i < self.outputs.len()
            invariant
                i <= self.outputs@.len(),
                forall|k: int| 0 <= k < i ==> self.outputs@[k] != *output,
            decreases self.outputs@.len() - i,
        {
            if self.outputs[i] == *output {
                proof {
                    assert(self.outputs@[i as int] == *output);
                }
                return true;
            }
            i = i + 1;
        }
        false
    }

    /// Handles a command: a capture filter adds, in order, each output it
    /// names that the backend does not know yet; every other command
    /// changes nothing. Returns what to send.
    pub fn handle_cmd(&mut self, cmd: Cmd) -> (r: Vec<MockEvent>)
        ensures
            match cmd {
                Cmd::CaptureFilter(filter) => outputs_added(
                    old(self).outputs@,
                    old(self).workspaces@,
                    old(self).ids.next,
                    unknown_outputs(old(self).outputs@, filter.workspaces_on_outputs@),
                    final(self).outputs@,
                    final(self).workspaces@,
                    final(self).ids.next,
                    r@,
                ),
                _ => {
                    &&& r@.len() == 0
                    &&& final(self).outputs@ == old(self).outputs@
                    &&& final(self).workspaces@ == old(self).workspaces@
                    &&& final(self).ids.next == old(self).ids.next
                },
            },
            old(self).wf() && (cmd matches Cmd::CaptureFilter(f)
                ==> old(self).ids.next + ids_per_output() * f.workspaces_on_outputs@.len() <= usize::MAX)
                ==> final(self).wf(),
    {
        match cmd {
            Cmd::CaptureFilter(filter) => {
                let wanted = &filter.workspaces_on_outputs;
                let ghost outputs0 = self.outputs@;
                let ghost ws0 = self.workspaces@;
                let ghost c = self.ids.next;
                let mut events: Vec<MockEvent> = Vec::new();
                let mut p: usize = 0;
                proof {
                    lemma_id_after_zero(c);
                    assert(wanted@.take(0) =~= Seq::<WlOutput>::empty());
                    assert(outputs0 + Seq::<WlOutput>::empty() =~= outputs0);
                    assert(ws0.take(ws0.len() as int) =~= ws0);
                }
                while p < wanted.len()
                    invariant
                        p <= wanted@.len(),
                        outputs0 == old(self).outputs@,
                        ws0 == old(self).workspaces@,
                        c == old(self).ids.next,
                        unknown_outputs(outputs0, wanted@.take(p as int)).len() <= p,
                        old(self).wf() && c + ids_per_output() * wanted@.len() <= usize::MAX ==> self.wf(),
                        outputs_added(
                            outputs0,
                            ws0,
                            c,
                            unknown_outputs(outputs0, wanted@.take(p as int)),
                            self.outputs@,
                            self.workspaces@,
                            self.ids.next,
                            events@,
                        ),
                    decreases wanted@.len() - p,
                {
                    let output = wanted[p];
                    let ghost added = unknown_outputs(outputs0, wanted@.take(p as int));
                    proof {
                        assert(wanted@.take(p + 1).drop_last() =~= wanted@.take(p as int));
                        assert(wanted@.take(p + 1).last() == output);
                    }
                    if !self.knows_output(&output) {
                        let ghost ws_before = self.workspaces@;
                        let ghost c_before = self.ids.next;
                        let ghost ev_before = events@;
                        proof {
                            if old(self).wf() && c + ids_per_output() * wanted@.len() <= usize::MAX {
                                let n = added.len();
                                assert(ids_per_output() * n + ids_per_output() <= ids_per_output() * wanted@.len());
                                lemma_id_after_adds(c, ids_per_output() * n);
                            }
                        }
                        let mut more = self.add_output(&output);
                        let ghost ev_more = more@;
                        events.append(&mut more);
                        proof {
                            let added2 = added.push(output);
                            let n = added.len();
                            assert(unknown_outputs(outputs0, wanted@.take(p + 1)) == added2);
                            assert(self.outputs@ =~= outputs0 + added2);
                            lemma_id_after_add(c, ids_per_output() * n, ids_per_output());
                            assert(ids_per_output() * n + ids_per_output() == ids_per_output() * (n + 1));
                            assert(self.workspaces@.take(ws0.len() as int) =~= ws_before.take(ws0.len() as int));
                            assert(ws_before.take(ws0.len() as int) == ws0);
                            assert(events@ =~= ev_before + ev_more);
                            assert forall|m: int| 0 <= m < added2.len() implies has_mock_workspaces(
                                self.workspaces@,
                                ws0.len() + WORKSPACES_PER_OUTPUT * m,
                                id_after(c, ids_per_output() * m),
                                #[trigger] added2[m],
                            ) by {
                                if m < n {
                                    assert(added2[m] == added[m]);
                                    assert(has_mock_workspaces(ws_before, ws0.len() + WORKSPACES_PER_OUTPUT * m, id_after(c, ids_per_output() * m), added[m]));
                                    assert forall|i: int| 0 <= i < 4 implies #[trigger] self.workspaces@[ws0.len() + WORKSPACES_PER_OUTPUT * m + i] == ws_before[ws0.len() + WORKSPACES_PER_OUTPUT * m + i] by {
                                        assert(self.workspaces@.take(ws_before.len() as int)[ws0.len() + WORKSPACES_PER_OUTPUT * m + i] == self.workspaces@[ws0.len() + WORKSPACES_PER_OUTPUT * m + i]);
                                    }
                                }
                            }
                            assert forall|m: int| 0 <= m < added2.len() implies is_output_events(
                                events@.subrange(events_per_output() * m, events_per_output() * m + events_per_output()),
                                id_after(c, ids_per_output() * m),
                                #[trigger] added2[m],
                                self.workspaces@.take(ws0.len() + WORKSPACES_PER_OUTPUT * (m + 1)),
                            ) by {
                                if m < n {
                                    assert(added2[m] == added[m]);
                                    assert(is_output_events(
                                        ev_before.subrange(events_per_output() * m, events_per_output() * m + events_per_output()),
                                        id_after(c, ids_per_output() * m),
                                        added[m],
                                        ws_before.take(ws0.len() + WORKSPACES_PER_OUTPUT * (m + 1)),
                                    ));
                                    assert(events@.subrange(events_per_output() * m, events_per_output() * m + events_per_output())
                                        =~= ev_before.subrange(events_per_output() * m, events_per_output() * m + events_per_output()));
                                    assert(self.workspaces@.take(ws0.len() + WORKSPACES_PER_OUTPUT * (m + 1))
                                        =~= ws_before.take(ws0.len() + WORKSPACES_PER_OUTPUT * (m + 1)));
                                } else {
                                    assert(events@.subrange(events_per_output() * m, events_per_output() * m + events_per_output()) =~= ev_more);
                                    assert(self.workspaces@.take(ws0.len() + WORKSPACES_PER_OUTPUT * (m + 1)) =~= self.workspaces@);
                                }
                            }
                        }
                    } else {
                        proof {
                            assert(unknown_outputs(outputs0, wanted@.take(p + 1)) == added);
                        }
                    }
                    proof {
                        lemma_unknown_outputs_len(outputs0, wanted@.take(p + 1));
                    }
                    p = p + 1;
                }
                proof {
                    assert(wanted@.take(wanted@.len() as int) =~= wanted@);
                }
                events
            },
            _ => Vec::new(),
        }
    }
}

/// Every output a capture filter names is known once the filter was
/// handled: it was known before, or it was added.
pub proof fn lemma_filter_outputs_known(known: Seq<WlOutput>, wanted: Seq<WlOutput>)
    ensures
        forall|k: int|
            0 <= k < wanted.len() ==> (known + unknown_outputs(known, wanted)).contains(
                #[trigger] wanted[k],
            ),
    decreases wanted.len(),
{
    if wanted.len() > 0 {
        let prev_w = wanted.drop_last();
        lemma_filter_outputs_known(known, prev_w);
        let prev = unknown_outputs(known, prev_w);
        let now = unknown_outputs(known, wanted);
        assert forall|k: int| 0 <= k < wanted.len() implies (known + now).contains(#[trigger] wanted[k]) by {
            if k < wanted.len() - 1 {
                assert(prev_w[k] == wanted[k]);
                assert((known + prev).contains(prev_w[k]));
                let x = choose|x: int| 0 <= x < (known + prev).len() && (known + prev)[x] == wanted[k];
                if !(known + prev).contains(wanted.last()) {
                    assert((known + now)[x] == wanted[k]);
                } else {
                    assert(now == prev);
                }
            } else {
                if (known + prev).contains(wanted.last()) {
                    assert(now == prev);
                } else {
                    assert((known + now)[(known.len() + prev.len()) as int] == wanted.last());
                }
            }
        }
    }
}

/// Outputs that are all known add nothing.
pub proof fn lemma_known_outputs_add_nothing(known: Seq<WlOutput>, wanted: Seq<WlOutput>)
    requires
        forall|k: int| 0 <= k < wanted.len() ==> known.contains(#[trigger] wanted[k]),
    ensures
        unknown_outputs(known, wanted) == Seq::<WlOutput>::empty(),
    decreases wanted.len(),
{
    if wanted.len() > 0 {
        let prev_w = wanted.drop_last();
        assert forall|k: int| 0 <= k < prev_w.len() implies known.contains(#[trigger] prev_w[k]) by {
            assert(prev_w[k] == wanted[k]);
        }
        lemma_known_outputs_add_nothing(known, prev_w);
        assert(known + Seq::<WlOutput>::empty() =~= known);
        assert(known.contains(wanted[wanted.len() - 1]));
    }
}

/// Handling the same capture filter a second time adds no output, so the
/// backend makes up nothing more and sends nothing.
pub proof fn lemma_capture_filter_idempotent(known: Seq<WlOutput>, wanted: Seq<WlOutput>)
    ensures
        unknown_outputs(known + unknown_outputs(known, wanted), wanted) == Seq::<WlOutput>::empty(),
{
    lemma_filter_outputs_known(known, wanted);
    lemma_known_outputs_add_nothing(known + unknown_outputs(known, wanted), wanted);
}

} // verus!
