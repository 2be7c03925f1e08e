//! The two frame slots that the difference stage reads.
//!
//! A frame is `width`×`height` RGBA8 samples, four bytes each.  The store owns
//! two backing slots and two labels, `current` and `prev`, that say which slot
//! is which.  A new frame is written into the slot that holds the older frame,
//! and the labels are then exchanged: the slot that readers know as `current`
//! is never written, and no frame is ever copied from one slot to the other.
use vstd::prelude::*;

verus! {

/// Number of bytes of one sample.
pub const BYTES_PER_PIXEL: usize = 4;

/// Name of one of the two backing slots.
#[derive(Clone, Copy, Debug, PartialEq, Eq, Structural)]
pub enum Slot {
    A,
    B,
}

/// Why a frame was not taken.
#[derive(Clone, Copy, Debug, PartialEq, Eq, Structural)]
pub enum FrameError {
    /// The frame does not have `width`×`height` samples.
    WrongSize,
}

/// The frame store: two slots, their labels, the frame size and the flag
/// that tells the compute stages of a frame they have not seen.
#[derive(Debug)]
pub struct CameraTextures {
    pub slot_a: Vec<u8>,
    pub slot_b: Vec<u8>,
    pub current: Slot,
    pub prev: Slot,
    pub size: (u32, u32),
    pub new_frame: bool,
}

/// Number of bytes of a frame of `width` by `height` samples.
pub open spec fn frame_len(width: u32, height: u32) -> int {
    width * height * BYTES_PER_PIXEL
}

/// The frame store as its content: the two slots, the labels, the frame size
/// and the flag.
pub struct FrameRing {
    pub slot_a: Seq<u8>,
    pub slot_b: Seq<u8>,
    pub current: Slot,
    pub prev: Slot,
    pub size: (u32, u32),
    pub new_frame: bool,
}

impl FrameRing {
    /// What the slot `slot` holds.
    pub open spec fn slot(self, slot: Slot) -> Seq<u8> {
        match slot {
            Slot::A => self.slot_a,
            Slot::B => self.slot_b,
        }
    }

    /// The newest frame.
    pub open spec fn current_frame(self) -> Seq<u8> {
        self.slot(self.current)
    }

    /// The frame before the newest.
    pub open spec fn previous_frame(self) -> Seq<u8> {
        self.slot(self.prev)
    }

    /// The labels name different slots, and both slots hold a frame of the
    /// store's size.
    pub open spec fn wf(self) -> bool {
        &&& self.current != self.prev
        &&& self.slot_a.len() == frame_len(self.size.0, self.size.1)
        &&& self.slot_b.len() == frame_len(self.size.0, self.size.1)
    }

    /// Whether `frame` has the store's size.
    pub open spec fn accepts(self, frame: Seq<u8>) -> bool {
        frame.len() == frame_len(self.size.0, self.size.1)
    }

    /// The store after `frame` was taken: the frame stands in the slot that
    /// held the older frame, the labels are exchanged and the flag is set.
    pub open spec fn ingest(self, frame: Seq<u8>) -> FrameRing {
        FrameRing {
            slot_a: if self.prev == Slot::A {
                frame
            } else {
                self.slot_a
            },
            slot_b: if self.prev == Slot::B {
                frame
            } else {
                self.slot_b
            },
            current: self.prev,
            prev: self.current,
            size: self.size,
            new_frame: true,
        }
    }

    /// The store after the frames of `frames` were taken one after the other.
    pub open spec fn ingest_all(self, frames: Seq<Seq<u8>>) -> FrameRing
        decreases frames.len(),
    {
        if frames.len() == 0 {
            self
        } else {
            self.ingest_all(frames.drop_last()).ingest(frames.last())
        }
    }
}

impl View for CameraTextures {
    type V = FrameRing;

    open spec fn view(&self) -> FrameRing {
        FrameRing {
            slot_a: self.slot_a@,
            slot_b: self.slot_b@,
            current: self.current,
            prev: self.prev,
            size: self.size,
            new_frame: self.new_frame,
        }
    }
}

impl CameraTextures {
    /// A store for frames of `width` by `height` samples that holds
    /// `base_frame` in both slots, as after the first capture, with the flag
    /// set.  `None` where `base_frame` does not have that size.
    pub fn new(width: u32, height: u32, base_frame: Vec<u8>) -> (r: Option<CameraTextures>)
        ensures
            r is Some <==> base_frame@.len() == frame_len(width, height),
            r is Some ==> {
                let ring = r->Some_0@;
                &&& ring.wf()
                &&& ring.size == (width, height)
                &&& ring.current_frame() == base_frame@
                &&& ring.previous_frame() == base_frame@
                &&& ring.current == Slot::A
                &&& ring.new_frame
            },
    {
        if !has_frame_len(&base_frame, width, height) {
            return None;
        }
        let copy = copy_frame(&base_frame);
        Some(
            CameraTextures {
                slot_a: base_frame,
                slot_b: copy,
                current: Slot::A,
                prev: Slot::B,
                size: (width, height),
                new_frame: true,
            },
        )
    }

    /// Tells whether the store is well formed: the labels name different
    /// slots and both slots hold a frame of the store's size.
    pub fn is_valid(&self) -> (r: bool)
        ensures
            r == self@.wf(),
    {
        let distinct = match (self.current, self.prev) {
            (Slot::A, Slot::B) => true,
            (Slot::B, Slot::A) => true,
            _ => false,
        };
        distinct && has_frame_len(&self.slot_a, self.size.0, self.size.1) && has_frame_len(
            &self.slot_b,
            self.size.0,
            self.size.1,
        )
    }

    /// Whether a frame was taken since the flag was last cleared.  The flag
    /// stays as it is.
    pub fn consume_flag(&self) -> (r: bool)
        ensures
            r == self@.new_frame,
    {
        self.new_frame
    }

    /// The newest frame.
    pub fn current_frame(&self) -> (frame: &Vec<u8>)
        ensures
            frame@ == self@.current_frame(),
    {
        match self.current {
            Slot::A => &self.slot_a,
            Slot::B => &self.slot_b,
        }
    }

    /// The frame before the newest.
    pub fn previous_frame(&self) -> (frame: &Vec<u8>)
        ensures
            frame@ == self@.previous_frame(),
    {
        match self.prev {
            Slot::A => &self.slot_a,
            Slot::B => &self.slot_b,
        }
    }
}

/// Tells whether `frame` has `width`×`height` samples.
fn has_frame_len(frame: &Vec<u8>, width: u32, height: u32) -> (r: bool)
    ensures
        r == (frame@.len() == frame_len(width, height)),
{
    assert(width * height * 4 <= 0xFFFF_FFFF * 0xFFFF_FFFF * 4) by (nonlinear_arith)
        requires
            0 <= width <= 0xFFFF_FFFF,
            0 <= height <= 0xFFFF_FFFF,
    ;
    let wanted: u128 = width as u128 * height as u128 * 4;
    frame.len() as u128 == wanted
}

/// A second buffer with the content of `frame`.
fn copy_frame(frame: &Vec<u8>) -> (copy: Vec<u8>)
    ensures
        copy@ == frame@,
{
    let mut copy: Vec<u8> = Vec::with_capacity(frame.len());
    let mut i: usize = 0;
    while i < frame.len()
        invariant
            i <= frame@.len(),
            copy@ == frame@.take(i as int),
        decreases frame@.len() - i,
    {
        copy.push(frame[i]);
        assert(copy@ =~= frame@.take(i + 1));
        i += 1;
    }
    assert(frame@.take(frame@.len() as int) =~= frame@);
    copy
}

/// Clears the flag at the start of a cycle, before a frame is taken, so that
/// a flag set in this cycle is seen by exactly one dispatch.
pub fn new_frame_reset(cam_text: &mut CameraTextures)
    ensures
        final(cam_text)@ == (FrameRing { new_frame: false, ..old(cam_text)@ }),
{
    cam_text.new_frame = false;
}

/// Takes the frame that the camera delivered: writes it into the slot of the
/// older frame, makes that slot the current one and sets the flag.  A frame of
/// another size is refused and leaves the store as it was.
pub fn camera_to_texture(cam_text: &mut CameraTextures, frame: Vec<u8>) -> (r: Result<
    (),
    FrameError,
>)
    requires
        old(cam_text)@.wf(),
    ensures
        r is Ok <==> old(cam_text)@.accepts(frame@),
        r is Ok ==> final(cam_text)@ == old(cam_text)@.ingest(frame@),
        r is Err ==> r == Err::<(), FrameError>(FrameError::WrongSize) && final(cam_text)@ == old(
            cam_text,
        )@,
        final(cam_text)@.wf(),
{
    if !has_frame_len(&frame, cam_text.size.0, cam_text.size.1) {
        return Err(FrameError::WrongSize);
    }
    let older = cam_text.prev;
    match older {
        Slot::A => {
            cam_text.slot_a = frame;
        },
        Slot::B => {
            cam_text.slot_b = frame;
        },
    }
    cam_text.prev = cam_text.current;
    cam_text.current = older;
    cam_text.new_frame = true;
    Ok(())
}

/// Taking a frame keeps the store well formed, leaves the slot that was
/// current untouched and relabels it as the previous one.
pub proof fn lemma_ingest_rotates(ring: FrameRing, frame: Seq<u8>)
    requires
        ring.wf(),
        ring.accepts(frame),
    ensures
        ring.ingest(frame).wf(),
        ring.ingest(frame).current_frame() == frame,
        ring.ingest(frame).previous_frame() == ring.current_frame(),
        ring.ingest(frame).slot(ring.current) == ring.slot(ring.current),
        ring.ingest(frame).current == ring.prev,
        ring.ingest(frame).prev == ring.current,
        ring.ingest(frame).new_frame,
{
}

/// After any number of frames were taken, at least one, the current frame is
/// the last one taken, and the previous frame is the one taken before it, or,
/// after a single frame, the frame that was current at the start.
pub proof fn lemma_ingest_all(ring: FrameRing, frames: Seq<Seq<u8>>)
    requires
        ring.wf(),
        frames.len() >= 1,
        forall|k: int| 0 <= k < frames.len() ==> ring.accepts(#[trigger] frames[k]),
    ensures
        ring.ingest_all(frames).wf(),
        ring.ingest_all(frames).size == ring.size,
        ring.ingest_all(frames).new_frame,
        ring.ingest_all(frames).current_frame() == frames.last(),
        ring.ingest_all(frames).previous_frame() == if frames.len() >= 2 {
            frames[frames.len() - 2]
        } else {
            ring.current_frame()
        },
    decreases frames.len(),
{
    let head = frames.drop_last();
    if head.len() == 0 {
        assert(ring.ingest_all(head) == ring);
    } else {
        assert forall|k: int| 0 <= k < head.len() implies ring.accepts(#[trigger] head[k]) by {
            assert(head[k] == frames[k]);
        }
        lemma_ingest_all(ring, head);
        assert(head.last() == frames[frames.len() - 2]);
    }
}

} // verus!
