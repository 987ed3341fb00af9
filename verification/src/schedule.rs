//! The per-frame dispatch schedule.
//!
//! A frame is a fixed, ordered list of operations appended to one command
//! stream: compute dispatches for the simulation pipeline, then the draw
//! requests. Ordering within the stream is the only synchronization, so
//! the order here is the correctness-critical decision; the host that owns
//! the stream performs each operation in turn.

use vstd::prelude::*;

verus! {

/// Which drawing material a render request uses.
#[derive(Clone, Copy, PartialEq, Eq, Hash, Structural, Debug)]
pub enum MaterialType {
    Line,
    Particle,
}

/// One compute dispatch of the simulation pipeline.
#[derive(Clone, Copy, PartialEq, Eq, Structural, Debug)]
pub enum ComputeKernel {
    /// Write each particle's (cell id, particle index) record.
    FillLookup,
    /// Zero the 256 bucket counters for one sort pass.
    ClearCounters { pass: u32 },
    /// Histogram one digit block of every key.
    FillCounters { pass: u32 },
    /// Exclusive prefix scan of the bucket counters.
    Prescan { pass: u32 },
    /// Scatter the records to their scanned bucket offsets.
    Reorder { pass: u32 },
    /// Copy the scattered records back over the input buffers.
    CopyBack { pass: u32 },
    /// Write each cell's start offset over the sorted records.
    BuildCellIndex,
    /// Density pass over the fluid particles.
    Density,
    /// Force pass over the fluid particles.
    Force,
    /// Integration pass over the fluid particles.
    Integrate,
    /// Write the draw-ready (position, color) vertex buffer.
    Display,
}

/// One operation a frame appends to the command stream.
#[derive(Clone, Copy, PartialEq, Eq, Structural, Debug)]
pub enum FrameOp {
    Compute(ComputeKernel),
    Draw(MaterialType),
}

/// The frame schedule. A paused frame submits no compute work at all and
/// only redraws from the last written display buffer; a running frame
/// rebuilds the lookup (fill, four sort passes, index), then runs density,
/// force, integration and display, then draws the box lines and the
/// particle instances.
pub open spec fn frame_plan_spec(paused: bool) -> Seq<FrameOp> {
    if paused {
        seq![FrameOp::Draw(MaterialType::Line), FrameOp::Draw(MaterialType::Particle)]
    } else {
        seq![
            FrameOp::Compute(ComputeKernel::FillLookup),
            FrameOp::Compute(ComputeKernel::ClearCounters { pass: 0 }),
            FrameOp::Compute(ComputeKernel::FillCounters { pass: 0 }),
            FrameOp::Compute(ComputeKernel::Prescan { pass: 0 }),
            FrameOp::Compute(ComputeKernel::Reorder { pass: 0 }),
            FrameOp::Compute(ComputeKernel::CopyBack { pass: 0 }),
            FrameOp::Compute(ComputeKernel::ClearCounters { pass: 1 }),
            FrameOp::Compute(ComputeKernel::FillCounters { pass: 1 }),
            FrameOp::Compute(ComputeKernel::Prescan { pass: 1 }),
            FrameOp::Compute(ComputeKernel::Reorder { pass: 1 }),
            FrameOp::Compute(ComputeKernel::CopyBack { pass: 1 }),
            FrameOp::Compute(ComputeKernel::ClearCounters { pass: 2 }),
            FrameOp::Compute(ComputeKernel::FillCounters { pass: 2 }),
            FrameOp::Compute(ComputeKernel::Prescan { pass: 2 }),
            FrameOp::Compute(ComputeKernel::Reorder { pass: 2 }),
            FrameOp::Compute(ComputeKernel::CopyBack { pass: 2 }),
            FrameOp::Compute(ComputeKernel::ClearCounters { pass: 3 }),
            FrameOp::Compute(ComputeKernel::FillCounters { pass: 3 }),
            FrameOp::Compute(ComputeKernel::Prescan { pass: 3 }),
            FrameOp::Compute(ComputeKernel::Reorder { pass: 3 }),
            FrameOp::Compute(ComputeKernel::CopyBack { pass: 3 }),
            FrameOp::Compute(ComputeKernel::BuildCellIndex),
            FrameOp::Compute(ComputeKernel::Density),
            FrameOp::Compute(ComputeKernel::Force),
            FrameOp::Compute(ComputeKernel::Integrate),
            FrameOp::Compute(ComputeKernel::Display),
            FrameOp::Draw(MaterialType::Line),
            FrameOp::Draw(MaterialType::Particle),
        ]
    }
}

/// Build the frame schedule as a value the command-stream owner iterates.
pub fn frame_plan(paused: bool) -> (ops: Vec<FrameOp>)
    ensures
        ops@ == frame_plan_spec(paused),
{
    let mut ops: Vec<FrameOp> = Vec::new();
    if !paused {
        ops.push(FrameOp::Compute(ComputeKernel::FillLookup));
        let mut pass: u32 = 0;
        while pass < 4
            invariant
                pass <= 4,
                ops@.len() == 1 + 5 * pass,
                ops@ == frame_plan_spec(false).take(1 + 5 * pass as int),
            decreases 4 - pass,
        {
            ops.push(FrameOp::Compute(ComputeKernel::ClearCounters { pass }));
            ops.push(FrameOp::Compute(ComputeKernel::FillCounters { pass }));
            ops.push(FrameOp::Compute(ComputeKernel::Prescan { pass }));
            ops.push(FrameOp::Compute(ComputeKernel::Reorder { pass }));
            ops.push(FrameOp::Compute(ComputeKernel::CopyBack { pass }));
            proof {
                assert(ops@ =~= frame_plan_spec(false).take(1 + 5 * (pass + 1)));
            }
            pass = pass + 1;
        }
        ops.push(FrameOp::Compute(ComputeKernel::BuildCellIndex));
        ops.push(FrameOp::Compute(ComputeKernel::Density));
        ops.push(FrameOp::Compute(ComputeKernel::Force));
        ops.push(FrameOp::Compute(ComputeKernel::Integrate));
        ops.push(FrameOp::Compute(ComputeKernel::Display));
    }
    ops.push(FrameOp::Draw(MaterialType::Line));
    ops.push(FrameOp::Draw(MaterialType::Particle));
    proof {
        assert(ops@ =~= frame_plan_spec(paused));
    }
    ops
}

} // verus!
