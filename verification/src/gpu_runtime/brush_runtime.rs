//! Handing draws to the executor of brushes: the input of a draw must fit the
//! layout that its brush is registered with.
use vstd::prelude::*;

use crate::collections::KeyMap;
use crate::gpu_runtime::commands::{BrushId, DrawOp, GpuCmdMsg};

verus! {

/// What a brush draws.
#[derive(Debug, Clone, Copy, PartialEq, Eq, Structural)]
pub enum BrushDrawKind {
    PixelRect,
}

/// One value in the input of a draw.
#[derive(Debug, Clone, Copy, PartialEq, Eq, Structural)]
pub enum BrushDrawInputShape {
    F32,
    Vec2F32,
    Vec3F32,
    Vec4F32,
}

impl BrushDrawInputShape {
    /// The floats that a value takes.
    pub open spec fn floats(self) -> int {
        match self {
            BrushDrawInputShape::F32 => 1,
            BrushDrawInputShape::Vec2F32 => 2,
            BrushDrawInputShape::Vec3F32 => 3,
            BrushDrawInputShape::Vec4F32 => 4,
        }
    }

    /// The floats that a value takes.
    pub fn float_count(self) -> (count: usize)
        ensures
            count == self.floats(),
    {
        match self {
            BrushDrawInputShape::F32 => 1,
            BrushDrawInputShape::Vec2F32 => 2,
            BrushDrawInputShape::Vec3F32 => 3,
            BrushDrawInputShape::Vec4F32 => 4,
        }
    }
}

/// The floats that values take together.
pub open spec fn total_floats(shapes: Seq<BrushDrawInputShape>) -> int
    decreases shapes.len(),
{
    if shapes.len() == 0 {
        0
    } else {
        total_floats(shapes.drop_last()) + shapes.last().floats()
    }
}

proof fn lemma_fewer_floats(shapes: Seq<BrushDrawInputShape>, count: int)
    requires
        0 <= count <= shapes.len(),
    ensures
        0 <= total_floats(shapes.take(count)) <= total_floats(shapes),
    decreases shapes.len(),
{
    if count == shapes.len() {
        assert(shapes.take(count) =~= shapes);
        if count > 0 {
            lemma_fewer_floats(shapes.drop_last(), count - 1);
        }
    } else {
        assert(shapes.drop_last().take(count) =~= shapes.take(count));
        lemma_fewer_floats(shapes.drop_last(), count);
    }
}

/// The layout of a brush's input.
#[derive(Debug, Clone, Copy, PartialEq, Eq, Structural)]
pub struct BrushDrawInputLayout {
    pub kind: BrushDrawKind,
    pub float_count: usize,
}

impl BrushDrawInputLayout {
    pub fn new(kind: BrushDrawKind, shapes: &[BrushDrawInputShape]) -> (layout: Self)
        requires
            total_floats(shapes@) <= usize::MAX,
        ensures
            layout.kind == kind,
            layout.float_count == total_floats(shapes@),
    {
        let mut float_count: usize = 0;
        let mut index: usize = 0;
        assert(shapes@.take(0) =~= Seq::<BrushDrawInputShape>::empty());
        while index < shapes.len()
            invariant
                index <= shapes@.len(),
                float_count == total_floats(shapes@.take(index as int)),
                total_floats(shapes@) <= usize::MAX,
            decreases shapes@.len() - index,
        {
            proof {
                assert(shapes@.take(index + 1).drop_last() =~= shapes@.take(index as int));
                lemma_fewer_floats(shapes@, index + 1);
            }
            float_count += shapes[index].float_count();
            index += 1;
        }
        assert(shapes@.take(index as int) =~= shapes@);
        BrushDrawInputLayout { kind, float_count }
    }

    /// Tells whether an input has as many floats as the layout asks for.
    pub fn validate_input(&self, input_len: usize) -> (valid: bool)
        ensures
            valid == (input_len == self.float_count),
    {
        input_len == self.float_count
    }
}

#[derive(Debug, Clone, Copy, PartialEq, Eq, Structural)]
pub enum BrushRegistryError {
    BrushIdOutOfRange { brush_id: BrushId },
    LayoutNotRegistered { brush_id: BrushId },
}

/// The layouts that brushes are registered with.
pub struct BrushLayoutRegistry {
    layouts: KeyMap<u64, BrushDrawInputLayout>,
    max_brushes: usize,
}

/// The layouts, and how many ids there are for brushes.
pub struct LayoutsModel {
    pub layouts: Map<u64, BrushDrawInputLayout>,
    pub max_brushes: usize,
}

impl View for BrushLayoutRegistry {
    type V = LayoutsModel;

    closed spec fn view(&self) -> LayoutsModel {
        LayoutsModel { layouts: self.layouts@, max_brushes: self.max_brushes }
    }
}

impl LayoutsModel {
    /// The layout of a brush.
    pub open spec fn layout_of(&self, brush_id: BrushId) -> Result<
        BrushDrawInputLayout,
        BrushRegistryError,
    > {
        if brush_id.0 >= self.max_brushes {
            Err(BrushRegistryError::BrushIdOutOfRange { brush_id })
        } else if self.layouts.contains_key(brush_id.0) {
            Ok(self.layouts[brush_id.0])
        } else {
            Err(BrushRegistryError::LayoutNotRegistered { brush_id })
        }
    }
}

impl BrushLayoutRegistry {
    pub fn new(max_brushes: usize) -> (registry: Self)
        ensures
            registry@ == (LayoutsModel { layouts: Map::empty(), max_brushes }),
    {
        BrushLayoutRegistry { layouts: KeyMap::new(), max_brushes }
    }

    /// Registers the layout of a brush.
    pub fn register_layout(&mut self, brush_id: BrushId, layout: BrushDrawInputLayout) -> (result:
        Result<(), BrushRegistryError>)
        ensures
            brush_id.0 >= old(self)@.max_brushes ==> result == Err::<(), BrushRegistryError>(
                BrushRegistryError::BrushIdOutOfRange { brush_id },
            ) && final(self)@ == old(self)@,
            brush_id.0 < old(self)@.max_brushes ==> result == Ok::<(), BrushRegistryError>(()),
            brush_id.0 < old(self)@.max_brushes ==> final(self)@ == (LayoutsModel {
                layouts: old(self)@.layouts.insert(brush_id.0, layout),
                ..old(self)@
            }),
    {
        if brush_id.0 >= self.max_brushes as u64 {
            return Err(BrushRegistryError::BrushIdOutOfRange { brush_id });
        }
        self.layouts.insert(brush_id.0, layout);
        Ok(())
    }

    /// The layout of a brush.
    pub fn layout(&self, brush_id: BrushId) -> (layout: Result<
        BrushDrawInputLayout,
        BrushRegistryError,
    >)
        ensures
            layout == self@.layout_of(brush_id),
    {
        if brush_id.0 >= self.max_brushes as u64 {
            return Err(BrushRegistryError::BrushIdOutOfRange { brush_id });
        }
        match self.layouts.get(brush_id.0) {
            Some(layout) => Ok(*layout),
            None => Err(BrushRegistryError::LayoutNotRegistered { brush_id }),
        }
    }
}

/// Draws with brushes. What a draw does, and whether it succeeds, is up to the
/// executor.
///
/// The spec function says what an implementation stands for. One that is written
/// in ordinary Rust leaves it as it is.
pub trait BrushDrawExecutor<Context>: Sized + Send {
    type PipelineError;

    /// A draw may take executor and context from what they are before to what they
    /// are after, and be answered so.
    closed spec fn draws(
        before: (Self, Context),
        draw_op: DrawOp,
        layout: BrushDrawInputLayout,
        after: (Self, Context),
        answer: Result<(), Self::PipelineError>,
    ) -> bool {
        arbitrary()
    }

    fn execute_draw(
        &mut self,
        context: &mut Context,
        draw_op: &DrawOp,
        layout: BrushDrawInputLayout,
    ) -> (answer: Result<(), Self::PipelineError>)
        ensures
            Self::draws(
                (*old(self), *old(context)),
                *draw_op,
                layout,
                (*final(self), *final(context)),
                answer,
            ),
    ;
}

#[derive(Debug, Clone, Copy, PartialEq, Eq)]
pub enum BrushGpuDispatchError<E> {
    Registry(BrushRegistryError),
    InputLayoutMismatch { brush_id: BrushId, layout: BrushDrawInputLayout, input_len: usize },
    Executor { brush_id: BrushId, source: E },
}

#[derive(Debug, Clone, Copy, PartialEq, Eq, Structural)]
pub enum BrushGpuApplyOutcome {
    AppliedDraw,
    IgnoredNonDraw,
}

/// The layout of a draw's input, or why the draw is refused: its brush has none,
/// or the input does not fit it.
pub open spec fn accepted_layout<E>(layouts: LayoutsModel, draw_op: DrawOp) -> Result<
    BrushDrawInputLayout,
    BrushGpuDispatchError<E>,
> {
    match layouts.layout_of(draw_op.brush_id) {
        Err(error) => Err(BrushGpuDispatchError::Registry(error)),
        Ok(layout) => if draw_op.input@.len() != layout.float_count {
            Err(
                BrushGpuDispatchError::InputLayoutMismatch {
                    brush_id: draw_op.brush_id,
                    layout,
                    input_len: draw_op.input@.len() as usize,
                },
            )
        } else {
            Ok(layout)
        },
    }
}

/// The layout of a draw's input, or why the draw is refused.
pub fn check_draw_input<E>(draw_op: &DrawOp, layout_registry: &BrushLayoutRegistry) -> (layout: Result<
    BrushDrawInputLayout,
    BrushGpuDispatchError<E>,
>)
    ensures
        layout == accepted_layout::<E>(layout_registry@, *draw_op),
{
    let brush_id = draw_op.brush_id;
    let layout = match layout_registry.layout(brush_id) {
        Ok(layout) => layout,
        Err(error) => {
            return Err(BrushGpuDispatchError::Registry(error));
        },
    };
    if !layout.validate_input(draw_op.input.len()) {
        return Err(
            BrushGpuDispatchError::InputLayoutMismatch {
                brush_id,
                layout,
                input_len: draw_op.input.len(),
            },
        );
    }
    Ok(layout)
}

/// What becomes of the executor's answer: its error is reported together with
/// the brush.
pub open spec fn dispatched_answer<E>(brush_id: BrushId, executed: Result<(), E>) -> Result<
    (),
    BrushGpuDispatchError<E>,
> {
    match executed {
        Ok(()) => Ok(()),
        Err(source) => Err(BrushGpuDispatchError::Executor { brush_id, source }),
    }
}

/// What becomes of the executor's answer.
pub fn dispatched<E>(brush_id: BrushId, executed: Result<(), E>) -> (result: Result<
    (),
    BrushGpuDispatchError<E>,
>)
    ensures
        result == dispatched_answer(brush_id, executed),
{
    match executed {
        Ok(()) => Ok(()),
        Err(source) => Err(BrushGpuDispatchError::Executor { brush_id, source }),
    }
}

/// Hands draws to an executor.
pub struct BrushGpuRuntime<Executor> {
    pub executor: Executor,
}

impl<Executor> BrushGpuRuntime<Executor> {
    pub fn new(executor: Executor) -> (runtime: Self)
        ensures
            runtime.executor == executor,
    {
        BrushGpuRuntime { executor }
    }

    pub fn executor_mut(&mut self) -> (executor: &mut Executor)
        ensures
            *executor == old(self).executor,
            final(self).executor == *final(executor),
    {
        &mut self.executor
    }

    /// Hands a draw to the executor, if its input is accepted. A refused draw
    /// leaves executor and context alone. An accepted one is executed with the
    /// layout of its brush, and what the executor answers comes back.
    pub fn apply_draw_op<Context>(
        &mut self,
        context: &mut Context,
        draw_op: &DrawOp,
        layout_registry: &BrushLayoutRegistry,
    ) -> (result: Result<
        (),
        BrushGpuDispatchError<<Executor as BrushDrawExecutor<Context>>::PipelineError>,
    >) where Executor: BrushDrawExecutor<Context>
        ensures
            match accepted_layout::<<Executor as BrushDrawExecutor<Context>>::PipelineError>(
                layout_registry@,
                *draw_op,
            ) {
                Err(error) => {
                    &&& result == Err::<
                        (),
                        BrushGpuDispatchError<
                            <Executor as BrushDrawExecutor<Context>>::PipelineError,
                        >,
                    >(error)
                    &&& final(self).executor == old(self).executor
                    &&& *final(context) == *old(context)
                },
                Ok(layout) => exists|
                    answer: Result<(), <Executor as BrushDrawExecutor<Context>>::PipelineError>,
                |
                    {
                        &&& #[trigger] Executor::draws(
                            (old(self).executor, *old(context)),
                            *draw_op,
                            layout,
                            (final(self).executor, *final(context)),
                            answer,
                        )
                        &&& result == dispatched_answer(draw_op.brush_id, answer)
                    },
            },
    {
        let layout = match check_draw_input(draw_op, layout_registry) {
            Ok(layout) => layout,
            Err(error) => {
                return Err(error);
            },
        };
        let executed = self.executor.execute_draw(context, draw_op, layout);
        dispatched(draw_op.brush_id, executed)
    }

    /// Hands a command to the executor if it is a draw, and passes over any
    /// other.
    pub fn apply_gpu_cmd<Context>(
        &mut self,
        context: &mut Context,
        command: &GpuCmdMsg,
        layout_registry: &BrushLayoutRegistry,
    ) -> (result: Result<
        BrushGpuApplyOutcome,
        BrushGpuDispatchError<<Executor as BrushDrawExecutor<Context>>::PipelineError>,
    >) where Executor: BrushDrawExecutor<Context>
        ensures
            match *command {
                GpuCmdMsg::DrawOp(draw_op) => match accepted_layout::<
                    <Executor as BrushDrawExecutor<Context>>::PipelineError,
                >(layout_registry@, draw_op) {
                    Err(error) => {
                        &&& result == Err::<
                            BrushGpuApplyOutcome,
                            BrushGpuDispatchError<
                                <Executor as BrushDrawExecutor<Context>>::PipelineError,
                            >,
                        >(error)
                        &&& final(self).executor == old(self).executor
                        &&& *final(context) == *old(context)
                    },
                    Ok(layout) => exists|
                        answer: Result<
                            (),
                            <Executor as BrushDrawExecutor<Context>>::PipelineError,
                        >,
                    |
                        {
                            &&& #[trigger] Executor::draws(
                                (old(self).executor, *old(context)),
                                draw_op,
                                layout,
                                (final(self).executor, *final(context)),
                                answer,
                            )
                            &&& result == (match dispatched_answer(draw_op.brush_id, answer) {
                                Ok(()) => Ok::<
                                    BrushGpuApplyOutcome,
                                    BrushGpuDispatchError<
                                        <Executor as BrushDrawExecutor<Context>>::PipelineError,
                                    >,
                                >(BrushGpuApplyOutcome::AppliedDraw),
                                Err(error) => Err(error),
                            })
                        },
                },
                _ => {
                    &&& result == Ok::<
                        BrushGpuApplyOutcome,
                        BrushGpuDispatchError<
                            <Executor as BrushDrawExecutor<Context>>::PipelineError,
                        >,
                    >(BrushGpuApplyOutcome::IgnoredNonDraw)
                    &&& final(self).executor == old(self).executor
                    &&& *final(context) == *old(context)
                },
            },
    {
        match command {
            GpuCmdMsg::DrawOp(draw_op) => match self.apply_draw_op(
                context,
                draw_op,
                layout_registry,
            ) {
                Ok(()) => Ok(BrushGpuApplyOutcome::AppliedDraw),
                Err(error) => Err(error),
            },
            _ => Ok(BrushGpuApplyOutcome::IgnoredNonDraw),
        }
    }
}

} // verus!
