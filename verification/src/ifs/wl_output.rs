//! Outputs as clients see them.

use vstd::prelude::*;
use crate::client::{ClientError, MsgParserError};
use crate::rect::Rect;
use crate::transform::Transform;

verus! {

pub const SP_UNKNOWN: i32 = 0;
pub const SP_NONE: i32 = 1;
pub const SP_HORIZONTAL_RGB: i32 = 2;
pub const SP_HORIZONTAL_BGR: i32 = 3;
pub const SP_VERTICAL_RGB: i32 = 4;
pub const SP_VERTICAL_BGR: i32 = 5;

pub const MODE_CURRENT: u32 = 1;
pub const MODE_PREFERRED: u32 = 2;

pub const SEND_DONE_SINCE: u32 = 2;
pub const SEND_SCALE_SINCE: u32 = 2;
pub const SEND_NAME_SINCE: u32 = 4;
pub const RELEASE_SINCE: u32 = 3;

/// What tells one monitor from another.
#[derive(Clone, Debug, PartialEq, Eq, Hash)]
pub struct OutputId {
    pub connector: String,
    pub manufacturer: String,
    pub model: String,
    pub serial_number: String,
}

#[derive(Copy, Clone, Debug, PartialEq, Eq, Structural)]
pub enum WlOutputError {
    ClientError(ClientError),
    MsgParserError(MsgParserError),
}

/// A video mode of an output.
#[derive(Copy, Clone, Debug, PartialEq, Eq, Structural)]
pub struct Mode {
    pub width: i32,
    pub height: i32,
    pub refresh_rate_millihz: u32,
}

/// A scale in 120ths.
#[derive(Copy, Clone, Debug, PartialEq, Eq, Structural)]
pub struct Scale(pub u32);

impl Scale {
    pub open spec fn spec_round_up(self) -> u32 {
        ((self.0 as int + 119) / 120) as u32
    }

    pub fn from_int(f: u32) -> (r: Scale)
        ensures
            r.0 as int == if f as int * 120 > u32::MAX {
                u32::MAX as int
            } else {
                f as int * 120
            },
    {
        let v: u64 = f as u64 * 120;
        if v > u32::MAX as u64 {
            Scale(u32::MAX)
        } else {
            Scale(v as u32)
        }
    }

    /// The smallest integer scale that is not below the scale.
    pub fn round_up(self) -> (r: u32)
        ensures
            r == self.spec_round_up(),
    {
        ((self.0 as u64 + 119) / 120) as u32
    }
}

/// What persists of an output while its monitor is unplugged.
#[derive(Copy, Clone, Debug)]
pub struct PersistentOutputState {
    pub transform: Transform,
    pub scale: Scale,
    pub pos: (i32, i32),
}

/// A client's binding of an output.
#[derive(Copy, Clone, Debug, PartialEq, Eq, Structural)]
pub struct WlOutput {
    pub client: u64,
    pub id: u32,
    pub version: u32,
}

/// An event of an output to one of its bindings.
#[derive(Copy, Clone, Debug, PartialEq, Eq, Structural)]
pub enum OutputEvent {
    Geometry { binding: WlOutput },
    Mode { binding: WlOutput },
    Scale { binding: WlOutput },
    Name { binding: WlOutput },
    Done { binding: WlOutput },
}

/// `a / b` rounded to the nearest integer, halves up, for a dividend that is not
/// negative and a positive divisor.
pub open spec fn div_round(a: int, b: int) -> int {
    (2 * a + b) / (2 * b)
}

/// The size of an output as content sees it: the size of the mode, turned as the
/// transform says and divided by the scale.
pub open spec fn spec_logical_size(mode: (i32, i32), transform: Transform, scale: Scale) -> (
    int,
    int,
) {
    let size = transform.spec_maybe_swap(mode);
    if scale.0 == 120 || scale.0 == 0 {
        (size.0 as int, size.1 as int)
    } else {
        (div_round(size.0 * 120, scale.0 as int), div_round(size.1 * 120, scale.0 as int))
    }
}

pub fn scaled_length(v: i32, scale: Scale) -> (r: i32)
    requires
        v >= 0,
        scale.0 > 0,
    ensures
        r == crate::rect::clamp_i32(div_round(v * 120, scale.0 as int)),
        r >= 0,
{
    let a: i64 = v as i64 * 120;
    let b: i64 = scale.0 as i64;
    let q: i64 = (2 * a + b) / (2 * b);
    assert(q >= 0) by (nonlinear_arith)
        requires
            q == (2 * a + b) / (2 * b),
            a >= 0,
            b > 0,
    ;
    if q > i32::MAX as i64 {
        i32::MAX
    } else {
        q as i32
    }
}

/// The size of an output as content sees it.
pub fn calculate_logical_size(mode: (i32, i32), transform: Transform, scale: Scale) -> (r: (
    i32,
    i32,
))
    requires
        mode.0 >= 0,
        mode.1 >= 0,
    ensures
        r.0 == crate::rect::clamp_i32(spec_logical_size(mode, transform, scale).0),
        r.1 == crate::rect::clamp_i32(spec_logical_size(mode, transform, scale).1),
        r.0 >= 0,
        r.1 >= 0,
{
    let size = transform.maybe_swap(mode);
    if scale.0 == 120 || scale.0 == 0 {
        size
    } else {
        (scaled_length(size.0, scale), scaled_length(size.1, scale))
    }
}

/// An output and the clients that have bound it.
#[derive(Debug)]
pub struct WlOutputGlobal {
    pub name: u32,
    pub pos: Rect,
    pub mode: Mode,
    pub modes: Vec<Mode>,
    pub width_mm: i32,
    pub height_mm: i32,
    pub bindings: Vec<WlOutput>,
    pub destroyed: bool,
    pub legacy_scale: u32,
    pub persistent: PersistentOutputState,
    /// Whether the output is part of the tree of what is shown.
    pub has_node: bool,
}

/// The events that a binding of the given version gets when it is made.
pub open spec fn bind_events(binding: WlOutput) -> Seq<OutputEvent> {
    seq![OutputEvent::Geometry { binding }, OutputEvent::Mode { binding }] + (if binding.version
        >= SEND_SCALE_SINCE {
        seq![OutputEvent::Scale { binding }]
    } else {
        seq![]
    }) + (if binding.version >= SEND_NAME_SINCE {
        seq![OutputEvent::Name { binding }]
    } else {
        seq![]
    }) + (if binding.version >= SEND_DONE_SINCE {
        seq![OutputEvent::Done { binding }]
    } else {
        seq![]
    })
}

/// The events that tell the first `n` bindings of a new mode.
pub open spec fn mode_events(bindings: Seq<WlOutput>, n: int) -> Seq<OutputEvent>
    decreases n,
{
    if n <= 0 || n > bindings.len() {
        seq![]
    } else {
        let binding = bindings[n - 1];
        mode_events(bindings, n - 1) + seq![
            OutputEvent::Geometry { binding },
            OutputEvent::Mode { binding },
            OutputEvent::Scale { binding },
            OutputEvent::Done { binding },
        ]
    }
}

/// Those of the first `n` bindings that are not the binding `id` of `client`.
pub open spec fn bindings_without(bindings: Seq<WlOutput>, client: u64, id: u32, n: int) -> Seq<
    WlOutput,
>
    decreases n,
{
    if n <= 0 || n > bindings.len() {
        seq![]
    } else if bindings[n - 1].client == client && bindings[n - 1].id == id {
        bindings_without(bindings, client, id, n - 1)
    } else {
        bindings_without(bindings, client, id, n - 1).push(bindings[n - 1])
    }
}

/// Those of the first `n` bindings that `client` made.
pub open spec fn bindings_of(bindings: Seq<WlOutput>, client: u64, n: int) -> Seq<WlOutput>
    decreases n,
{
    if n <= 0 || n > bindings.len() {
        seq![]
    } else if bindings[n - 1].client == client {
        bindings_of(bindings, client, n - 1).push(bindings[n - 1])
    } else {
        bindings_of(bindings, client, n - 1)
    }
}

impl WlOutputGlobal {
    pub open spec fn wf(self) -> bool {
        self.pos.wf() && self.mode.width >= 0 && self.mode.height >= 0
    }

    /// An output at the position and with the transform and scale that persist for
    /// its monitor.
    pub fn new(
        name: u32,
        modes: Vec<Mode>,
        mode: Mode,
        width_mm: i32,
        height_mm: i32,
        persistent: PersistentOutputState,
    ) -> (o: WlOutputGlobal)
        requires
            mode.width >= 0,
            mode.height >= 0,
        ensures
            o.wf() && o.name == name && o.mode == mode && o.modes == modes
                && o.width_mm == width_mm && o.height_mm == height_mm && o.bindings@.len() == 0
                && !o.destroyed && !o.has_node && o.legacy_scale == persistent.scale.spec_round_up()
                && o.persistent.transform == persistent.transform && o.persistent.scale
                == persistent.scale && o.persistent.pos == persistent.pos && o.pos
                == Rect::spec_sized(
                persistent.pos.0,
                persistent.pos.1,
                crate::rect::clamp_i32(
                    spec_logical_size(
                        (mode.width, mode.height),
                        persistent.transform,
                        persistent.scale,
                    ).0,
                ),
                crate::rect::clamp_i32(
                    spec_logical_size(
                        (mode.width, mode.height),
                        persistent.transform,
                        persistent.scale,
                    ).1,
                ),
            ),
    {
        let (width, height) = calculate_logical_size(
            (mode.width, mode.height),
            persistent.transform,
            persistent.scale,
        );
        let pos = match Rect::new_sized(persistent.pos.0, persistent.pos.1, width, height) {
            Some(pos) => pos,
            None => Rect::new_empty(persistent.pos.0, persistent.pos.1),
        };
        WlOutputGlobal {
            name,
            pos,
            mode,
            modes,
            width_mm,
            height_mm,
            bindings: Vec::new(),
            destroyed: false,
            legacy_scale: persistent.scale.round_up(),
            persistent,
            has_node: false,
        }
    }

    /// Takes the output out of the tree and forgets its bindings.
    pub fn clear(&mut self)
        ensures
            final(self).bindings@.len() == 0,
            !final(self).has_node,
            (WlOutputGlobal { bindings: old(self).bindings, has_node: old(self).has_node, ..*final(self) })
                == *old(self),
    {
        self.has_node = false;
        self.bindings.clear();
    }

    pub fn position(&self) -> (r: Rect)
        ensures
            r == self.pos,
    {
        self.pos
    }

    /// The size of the mode, turned as the transform of the output says.
    pub fn pixel_size(&self) -> (r: (i32, i32))
        ensures
            r == self.persistent.transform.spec_maybe_swap((self.mode.width, self.mode.height)),
    {
        self.persistent.transform.maybe_swap((self.mode.width, self.mode.height))
    }

    /// The bindings that the client made.
    pub fn for_each_binding(&self, client: u64) -> (r: Vec<WlOutput>)
        ensures
            r@ == bindings_of(self.bindings@, client, self.bindings@.len() as int),
    {
        let mut out: Vec<WlOutput> = Vec::new();
        let mut i: usize = 0;
        while i < self.bindings.len()
            invariant
                0 <= i <= self.bindings.len(),
                out@ == bindings_of(self.bindings@, client, i as int),
            decreases self.bindings.len() - i,
        {
            if self.bindings[i].client == client {
                out.push(self.bindings[i]);
            }
            i += 1;
        }
        out
    }

    /// The bindings through which the client of a surface is told that the surface
    /// entered the output.
    pub fn send_enter(&self, client: u64) -> (r: Vec<WlOutput>)
        ensures
            r@ == bindings_of(self.bindings@, client, self.bindings@.len() as int),
    {
        self.for_each_binding(client)
    }

    /// The bindings through which the client of a surface is told that the surface
    /// left the output.
    pub fn send_leave(&self, client: u64) -> (r: Vec<WlOutput>)
        ensures
            r@ == bindings_of(self.bindings@, client, self.bindings@.len() as int),
    {
        self.for_each_binding(client)
    }

    /// The steps for the captures of the output that wait, in their order.
    pub fn perform_screencopies(&self, captures: &Vec<Capture>) -> (r: Vec<Vec<CaptureStep>>)
        ensures
            r@.len() == captures@.len(),
            forall|i: int|
                0 <= i < captures@.len() ==> (#[trigger] r@[i])@ == capture_steps(
                    captures@[i].buffer,
                    captures@[i].with_damage,
                ),
    {
        let mut out: Vec<Vec<CaptureStep>> = Vec::new();
        let mut i: usize = 0;
        while i < captures.len()
            invariant
                0 <= i <= captures.len(),
                out@.len() == i,
                forall|j: int|
                    0 <= j < i ==> (#[trigger] out@[j])@ == capture_steps(
                        captures@[j].buffer,
                        captures@[j].with_damage,
                    ),
            decreases captures.len() - i,
        {
            out.push(perform_screencopy(captures[i].buffer, captures[i].with_damage));
            i += 1;
        }
        out
    }

    /// A client binds the output; the events that the binding gets come back.
    pub fn bind_(&mut self, binding: WlOutput) -> (r: Vec<OutputEvent>)
        ensures
            r@ == bind_events(binding),
            final(self).bindings@ == old(self).bindings@.push(binding),
            (WlOutputGlobal { bindings: old(self).bindings, ..*final(self) }) == *old(self),
    {
        self.bindings.push(binding);
        let mut events: Vec<OutputEvent> = Vec::new();
        events.push(OutputEvent::Geometry { binding });
        events.push(OutputEvent::Mode { binding });
        if binding.version >= SEND_SCALE_SINCE {
            events.push(OutputEvent::Scale { binding });
        }
        if binding.version >= SEND_NAME_SINCE {
            events.push(OutputEvent::Name { binding });
        }
        if binding.version >= SEND_DONE_SINCE {
            events.push(OutputEvent::Done { binding });
        }
        assert(events@ =~= bind_events(binding));
        events
    }

    /// The events that tell every binding of the mode of the output.
    pub fn send_mode(&self) -> (r: Vec<OutputEvent>)
        ensures
            r@ == mode_events(self.bindings@, self.bindings@.len() as int),
    {
        let mut events: Vec<OutputEvent> = Vec::new();
        let mut i: usize = 0;
        while i < self.bindings.len()
            invariant
                0 <= i <= self.bindings.len(),
                events@ == mode_events(self.bindings@, i as int),
            decreases self.bindings.len() - i,
        {
            let binding = self.bindings[i];
            let ghost before = events@;
            events.push(OutputEvent::Geometry { binding });
            events.push(OutputEvent::Mode { binding });
            events.push(OutputEvent::Scale { binding });
            events.push(OutputEvent::Done { binding });
            assert(events@ =~= before + seq![
                OutputEvent::Geometry { binding },
                OutputEvent::Mode { binding },
                OutputEvent::Scale { binding },
                OutputEvent::Done { binding },
            ]);
            i += 1;
        }
        events
    }

    /// Forgets the binding `id` of `client`.
    pub fn remove_binding(&mut self, client: u64, id: u32)
        ensures
            final(self).bindings@ == bindings_without(
                old(self).bindings@,
                client,
                id,
                old(self).bindings@.len() as int,
            ),
            (WlOutputGlobal { bindings: old(self).bindings, ..*final(self) }) == *old(self),
    {
        let mut kept: Vec<WlOutput> = Vec::new();
        let mut i: usize = 0;
        while i < self.bindings.len()
            invariant
                0 <= i <= self.bindings.len(),
                *self == *old(self),
                kept@ == bindings_without(self.bindings@, client, id, i as int),
            decreases self.bindings.len() - i,
        {
            let b = self.bindings[i];
            if !(b.client == client && b.id == id) {
                kept.push(b);
            }
            i += 1;
        }
        self.bindings = kept;
    }
}

/// The number of the request to release a binding.
pub const RELEASE: u32 = 0;

impl WlOutputGlobal {
    /// Carries out a request of a client to one of its bindings: the only request
    /// releases the binding, takes no arguments, and is there from the third
    /// version on.
    pub fn handle_request(&mut self, binding: WlOutput, request: u32, payload_len: usize) -> (r:
        Result<(), WlOutputError>)
        ensures
            r == spec_request_verdict(binding, request, payload_len),
            r.is_ok() ==> final(self).bindings@ == bindings_without(
                old(self).bindings@,
                binding.client,
                binding.id,
                old(self).bindings@.len() as int,
            ) && (WlOutputGlobal { bindings: old(self).bindings, ..*final(self) }) == *old(self),
            r.is_err() ==> *final(self) == *old(self),
    {
        if request != RELEASE || binding.version < RELEASE_SINCE {
            return Err(WlOutputError::ClientError(ClientError::InvalidMethod));
        }
        if payload_len != 0 {
            return Err(WlOutputError::MsgParserError(MsgParserError::TrailingData));
        }
        self.remove_binding(binding.client, binding.id);
        Ok(())
    }
}

/// Whether a request to a binding is accepted.
pub open spec fn spec_request_verdict(binding: WlOutput, request: u32, payload_len: usize) -> Result<
    (),
    WlOutputError,
> {
    if request != RELEASE || binding.version < RELEASE_SINCE {
        Err(WlOutputError::ClientError(ClientError::InvalidMethod))
    } else if payload_len != 0 {
        Err(WlOutputError::MsgParserError(MsgParserError::TrailingData))
    } else {
        Ok(())
    }
}

impl WlOutput {
    /// Whether the binding has the request to release it.
    pub fn can_release(&self) -> (r: bool)
        ensures
            r == (self.version >= RELEASE_SINCE),
    {
        self.version >= RELEASE_SINCE
    }

    pub fn send_done(&self) -> (r: OutputEvent)
        ensures
            r == (OutputEvent::Done { binding: *self }),
    {
        OutputEvent::Done { binding: *self }
    }
}

/// What a capture of an output finds when its turn comes.
#[derive(Copy, Clone, Debug, PartialEq, Eq, Structural)]
pub enum CaptureBuffer {
    /// No buffer is attached to the capture.
    Missing,
    /// The client has destroyed the buffer.
    Destroyed,
    /// The buffer lies in shared memory.
    Shm,
    /// The buffer lies in memory of the graphics device, with or without a framebuffer.
    Device { has_framebuffer: bool },
}

/// A capture of an output that waits for the next frame.
#[derive(Copy, Clone, Debug, PartialEq, Eq, Structural)]
pub struct Capture {
    pub buffer: CaptureBuffer,
    /// Whether the client asked to be told of the damage.
    pub with_damage: bool,
}

/// What is done for a capture.
#[derive(Copy, Clone, Debug, PartialEq, Eq, Structural)]
pub enum CaptureStep {
    Failed,
    CopyToShm,
    CopyToFramebuffer,
    SendDamage,
    SendReady,
}

/// The steps for a capture: a capture without a usable buffer fails; any other
/// one is copied, tells of the damage if it was asked to, and is ready.
pub open spec fn capture_steps(buffer: CaptureBuffer, with_damage: bool) -> Seq<CaptureStep> {
    match buffer {
        CaptureBuffer::Missing | CaptureBuffer::Destroyed | CaptureBuffer::Device {
            has_framebuffer: false,
        } => seq![CaptureStep::Failed],
        _ => seq![
            if buffer is Shm {
                CaptureStep::CopyToShm
            } else {
                CaptureStep::CopyToFramebuffer
            },
        ] + (if with_damage {
            seq![CaptureStep::SendDamage]
        } else {
            seq![]
        }) + seq![CaptureStep::SendReady],
    }
}

/// The steps for one pending capture of an output.
pub fn perform_screencopy(buffer: CaptureBuffer, with_damage: bool) -> (r: Vec<CaptureStep>)
    ensures
        r@ == capture_steps(buffer, with_damage),
{
    let mut steps: Vec<CaptureStep> = Vec::new();
    match buffer {
        CaptureBuffer::Missing | CaptureBuffer::Destroyed => {
            steps.push(CaptureStep::Failed);
        },
        CaptureBuffer::Device { has_framebuffer } => {
            if !has_framebuffer {
                steps.push(CaptureStep::Failed);
            } else {
                steps.push(CaptureStep::CopyToFramebuffer);
                if with_damage {
                    steps.push(CaptureStep::SendDamage);
                }
                steps.push(CaptureStep::SendReady);
            }
        },
        CaptureBuffer::Shm => {
            steps.push(CaptureStep::CopyToShm);
            if with_damage {
                steps.push(CaptureStep::SendDamage);
            }
            steps.push(CaptureStep::SendReady);
        },
    }
    assert(steps@ =~= capture_steps(buffer, with_damage));
    steps
}

} // verus!
