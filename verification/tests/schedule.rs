use fluid_sim::schedule::{frame_plan, ComputeKernel, FrameOp, MaterialType};
use fluid_sim::workgroup_count;

#[test]
fn paused_frame_only_draws() {
    let ops = frame_plan(true);
    assert_eq!(
        ops,
        vec![
            FrameOp::Draw(MaterialType::Line),
            FrameOp::Draw(MaterialType::Particle),
        ]
    );
}

#[test]
fn running_frame_orders_the_pipeline() {
    let ops = frame_plan(false);
    assert_eq!(ops.len(), 28);
    assert_eq!(ops[0], FrameOp::Compute(ComputeKernel::FillLookup));
    // four sort passes of five dispatches each
    for pass in 0..4u32 {
        let base = 1 + 5 * pass as usize;
        assert_eq!(ops[base], FrameOp::Compute(ComputeKernel::ClearCounters { pass }));
        assert_eq!(ops[base + 1], FrameOp::Compute(ComputeKernel::FillCounters { pass }));
        assert_eq!(ops[base + 2], FrameOp::Compute(ComputeKernel::Prescan { pass }));
        assert_eq!(ops[base + 3], FrameOp::Compute(ComputeKernel::Reorder { pass }));
        assert_eq!(ops[base + 4], FrameOp::Compute(ComputeKernel::CopyBack { pass }));
    }
    assert_eq!(ops[21], FrameOp::Compute(ComputeKernel::BuildCellIndex));
    assert_eq!(ops[22], FrameOp::Compute(ComputeKernel::Density));
    assert_eq!(ops[23], FrameOp::Compute(ComputeKernel::Force));
    assert_eq!(ops[24], FrameOp::Compute(ComputeKernel::Integrate));
    assert_eq!(ops[25], FrameOp::Compute(ComputeKernel::Display));
    assert_eq!(ops[26], FrameOp::Draw(MaterialType::Line));
    assert_eq!(ops[27], FrameOp::Draw(MaterialType::Particle));
}

/// Workgroup counts round up, never down, so every item is covered.
#[test]
fn workgroup_count_rounds_up() {
    assert_eq!(workgroup_count(0, 256), 0);
    assert_eq!(workgroup_count(1, 256), 1);
    assert_eq!(workgroup_count(256, 256), 1);
    assert_eq!(workgroup_count(257, 256), 2);
    assert_eq!(workgroup_count(100_000, 256), 391);
}
