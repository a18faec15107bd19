//! A screencopy session's swapchain: the buffers captures are written to,
//! which one is shown, and the damage each one has to catch up on.
//!
//! The first buffer is the front buffer, the one last captured and shown;
//! the second is the back buffer, the one the next capture writes to.

use vstd::prelude::*;

verus! {

/// Number of buffers to swap between.
pub const BUFFER_COUNT: usize = 2;

/// A damaged rectangle of a buffer.
#[derive(Clone, Copy, Debug, PartialEq, Eq, Structural)]
pub struct Rect {
    pub x: i32,
    pub y: i32,
    pub width: i32,
    pub height: i32,
}

/// A buffer of the swapchain: the key under which the backend keeps it,
/// its size, and the damage accumulated since it was last written.
#[derive(Debug)]
pub struct SwapBuffer {
    pub key: u64,
    pub width: u32,
    pub height: u32,
    pub damage: Vec<Rect>,
}

/// What to do after the session reported its formats.
#[derive(Clone, Copy, Debug, PartialEq, Eq, Structural)]
pub enum InitAction {
    /// Allocate the buffers, then attach the back buffer and commit.
    AllocateAndCommit,
    /// The buffers exist already.
    Nothing,
}

/// What to do after a capture failed.
#[derive(Clone, Copy, Debug, PartialEq, Eq, Structural)]
pub enum FailureAction {
    /// Reallocate the buffers for the known formats, then attach the back
    /// buffer and commit.
    ReallocateAndCommit,
    /// Attach the back buffer and commit again.
    Commit,
    /// Stop capturing.
    Stop,
}

/// Why a capture failed.
#[derive(Clone, Copy, Debug, PartialEq, Eq, Structural)]
pub enum FailureReason {
    /// The buffer does not meet the compositor's constraints.
    BufferConstraints,
    Stopped,
    Unknown,
}

/// A captured frame is ready in the front buffer.
#[derive(Clone, Copy, Debug, PartialEq, Eq, Structural)]
pub struct FrameReady {
    pub key: u64,
    pub width: u32,
    pub height: u32,
}

/// A capture session, as far as its decisions read it: whether the
/// compositor reported the formats it accepts, and the swapchain's buffers.
#[derive(Debug)]
pub struct ScreencopySession {
    pub has_formats: bool,
    pub buffers: Option<Vec<SwapBuffer>>,
}

/// The damage of buffer `i` after a frame with damage `frame` arrived on
/// buffers `b`: the buffers rotate by one, the new front buffer has no
/// damage, and every other buffer adds the frame's damage to its own.
pub open spec fn damage_after_frame(b: Seq<SwapBuffer>, frame: Seq<Rect>, i: int) -> Seq<Rect> {
    if i == 0 {
        Seq::empty()
    } else {
        b[(i + 1) % (b.len() as int)].damage@ + frame
    }
}

impl ScreencopySession {
    /// A session that knows no formats and has no buffers yet.
    pub fn new() -> (r: Self)
        ensures
            !r.has_formats,
            r.buffers is None,
    {
        ScreencopySession { has_formats: false, buffers: None }
    }

    /// Well-formedness: when there are buffers, there are `BUFFER_COUNT` of them.
    pub open spec fn wf(&self) -> bool {
        self.buffers matches Some(b) ==> b@.len() == BUFFER_COUNT
    }

    /// The session reported its formats: they are kept, and the buffers are
    /// allocated when there are none yet.
    pub fn init_done(&mut self) -> (r: InitAction)
        requires
            old(self).wf(),
        ensures
            final(self).wf(),
            final(self).has_formats,
            final(self).buffers == old(self).buffers,
            r == (if old(self).buffers is None { InitAction::AllocateAndCommit } else { InitAction::Nothing }),
    {
        self.has_formats = true;
        if self.buffers.is_none() {
            InitAction::AllocateAndCommit
        } else {
            InitAction::Nothing
        }
    }

    /// Installs newly allocated buffers.
    pub fn set_buffers(&mut self, buffers: Vec<SwapBuffer>)
        requires
            buffers@.len() == BUFFER_COUNT,
        ensures
            final(self).wf(),
            final(self).has_formats == old(self).has_formats,
            final(self).buffers == Some(buffers),
    {
        self.buffers = Some(buffers);
    }

    /// The buffer to attach for the next capture, with its damage: the back
    /// buffer, if there are buffers.
    pub fn back_buffer(&self) -> (r: Option<&SwapBuffer>)
        requires
            self.wf(),
        ensures
            match self.buffers {
                Some(b) => r == Some(&b@[1]),
                None => r is None,
            },
    {
        match &self.buffers {
            Some(b) => Some(&b[1]),
            None => None,
        }
    }

    /// A capture failed: on unmet buffer constraints the buffers are
    /// reallocated when the formats are known, and the capture is retried;
    /// for any other reason capturing stops.
    pub fn failed(&self, reason: FailureReason) -> (r: FailureAction)
        ensures
            r == (if reason == FailureReason::BufferConstraints {
                if self.has_formats { FailureAction::ReallocateAndCommit } else { FailureAction::Commit }
            } else {
                FailureAction::Stop
            }),
    {
        if reason == FailureReason::BufferConstraints {
            if self.has_formats {
                FailureAction::ReallocateAndCommit
            } else {
                FailureAction::Commit
            }
        } else {
            FailureAction::Stop
        }
    }

    /// A frame with damage `frame` was captured into the back buffer: the
    /// buffers swap, so that it becomes the front buffer, which has no
    /// damage left; every other buffer adds the frame's damage. Returns the
    /// front buffer, or nothing when there are no buffers.
    pub fn ready(&mut self, frame: &Vec<Rect>) -> (r: Option<FrameReady>)
        requires
            old(self).wf(),
        ensures
            final(self).wf(),
            final(self).has_formats == old(self).has_formats,
            match old(self).buffers {
                None => {
                    &&& r is None
                    &&& final(self).buffers is None
                },
                Some(b) => {
                    &&& final(self).buffers matches Some(nb) && {
                        &&& nb@.len() == b@.len()
                        &&& forall|i: int| 0 <= i < b@.len() ==> {
                            let src = b@[(i + 1) % (b@.len() as int)];
                            &&& (#[trigger] nb@[i]).key == src.key
                            &&& nb@[i].width == src.width
                            &&& nb@[i].height == src.height
                            &&& nb@[i].damage@ == damage_after_frame(b@, frame@, i)
                        }
                    }
                    &&& r == Some(FrameReady { key: b@[1].key, width: b@[1].width, height: b@[1].height })
                },
            },
    {
        let buffers = self.buffers.take();
        match buffers {
            None => None,
            Some(mut b) => {
                let ghost old_b = b@;
                // rotate left by one
                let first = b.remove(0);
                b.push(first);
                proof {
                    assert forall|i: int| 0 <= i < BUFFER_COUNT implies #[trigger] b@[i] == old_b[(i + 1) % 2] by {}
                }
                let mut nb: Vec<SwapBuffer> = Vec::new();
                let mut i: usize = 0;
                while b.len() > 0
                    invariant
                        i + b@.len() == BUFFER_COUNT,
                        old_b.len() == BUFFER_COUNT,
                        forall|j: int| 0 <= j < b@.len() ==> #[trigger] b@[j] == old_b[(i + j + 1) % 2],
                        nb@.len() == i,
                        forall|j: int| 0 <= j < i ==> {
                            let src = old_b[(j + 1) % 2];
                            &&& (#[trigger] nb@[j]).key == src.key
                            &&& nb@[j].width == src.width
                            &&& nb@[j].height == src.height
                            &&& nb@[j].damage@ == damage_after_frame(old_b, frame@, j)
                        },
                    decreases b@.len(),
                {
                    let buf = b.remove(0);
                    let mut damage = buf.damage;
                    if i == 0 {
                        damage = Vec::new();
                    } else {
                        let mut k: usize = 0;
                        let ghost d0 = damage@;
                        while k < frame.len()
                            invariant
                                k <= frame@.len(),
                                damage@ == d0 + frame@.take(k as int),
                            decreases frame@.len() - k,
                        {
                            damage.push(frame[k]);
                            proof {
                                assert(d0 + frame@.take(k + 1) =~= (d0 + frame@.take(k as int)).push(frame@[k as int]));
                            }
                            k = k + 1;
                        }
                        proof {
                            assert(frame@.take(frame@.len() as int) =~= frame@);
                        }
                    }
                    nb.push(SwapBuffer { key: buf.key, width: buf.width, height: buf.height, damage });
                    i = i + 1;
                }
                let front = FrameReady { key: nb[0].key, width: nb[0].width, height: nb[0].height };
                self.buffers = Some(nb);
                Some(front)
            },
        }
    }
}

/// With two buffers, the back buffer after two frames carries exactly the
/// damage of the second frame: the damage since it was last shown.
pub proof fn lemma_back_buffer_damage(b0: Seq<SwapBuffer>, b1: Seq<SwapBuffer>, b2: Seq<SwapBuffer>, d1: Seq<Rect>, d2: Seq<Rect>)
    requires
        b0.len() == 2,
        b1.len() == 2,
        b2.len() == 2,
        forall|i: int| 0 <= i < 2 ==> (#[trigger] b1[i]).damage@ == damage_after_frame(b0, d1, i),
        forall|i: int| 0 <= i < 2 ==> (#[trigger] b2[i]).damage@ == damage_after_frame(b1, d2, i),
    ensures
        b2[1].damage@ == d2,
        b2[0].damage@.len() == 0,
{
    assert(b1[0].damage@ == damage_after_frame(b0, d1, 0));
    assert(b2[1].damage@ == damage_after_frame(b1, d2, 1));
    assert(b1[0].damage@ + d2 =~= d2);
}

} // verus!
