//! What is asked of a device and of a surface, and how squares are drawn on one.
use vstd::prelude::*;

use crate::gpu_runtime::atlas_runtime::{
    AtlasStorageRuntime, AtlasStorageRuntimeRegisterError, BackendKind, TextureFormat, TextureUsage,
};
use crate::gpu_runtime::brush_executor::{TextureSampleType, WgpuBrushExecutorError};
use crate::gpu_runtime::commands::BrushId;
use crate::gpu_runtime::context::{GpuContextInitError, GpuFeatures};

verus! {

/// The feature with this number is among the features.
pub open spec fn has_feature(features: u64, number: u64) -> bool {
    features & (1u64 << number) != 0
}

/// Features are supported exactly if each one of them that is asked for is among those
/// that are supported.
pub proof fn lemma_features_are_supported_one_by_one(
    requested: GpuFeatures,
    supported: GpuFeatures,
)
    ensures
        crate::gpu_runtime::context::features_supported(requested, supported) <==> forall|
            number: u64,
        |
            number < 64 ==> (#[trigger] has_feature(requested.native, number) ==> has_feature(
                supported.native,
                number,
            )) && (has_feature(requested.web, number) ==> has_feature(supported.web, number)),
{
    lemma_bits_beyond(requested.native, supported.native);
    lemma_bits_beyond(requested.web, supported.web);
    if crate::gpu_runtime::context::features_supported(requested, supported) {
        assert forall|number: u64| number < 64 implies (#[trigger] has_feature(
            requested.native,
            number,
        ) ==> has_feature(supported.native, number)) && (has_feature(requested.web, number)
            ==> has_feature(supported.web, number)) by {
            let (a, b) = (requested.native, supported.native);
            let (c, d) = (requested.web, supported.web);
            assert(number < 64 && a & !b == 0 && a & (1u64 << number) != 0 ==> b & (1u64 << number)
                != 0) by (bit_vector);
            assert(number < 64 && c & !d == 0 && c & (1u64 << number) != 0 ==> d & (1u64 << number)
                != 0) by (bit_vector);
        }
    } else if requested.native & !supported.native != 0 {
        let number = choose|number: u64|
            number < 64 && #[trigger] has_feature(requested.native, number) && !has_feature(
                supported.native,
                number,
            );
        assert(has_feature(requested.native, number));
    } else {
        let number = choose|number: u64|
            number < 64 && #[trigger] has_feature(requested.web, number) && !has_feature(
                supported.web,
                number,
            );
        if has_feature(requested.native, number) {
            assert(!has_feature(supported.web, number));
        }
    }
}

/// Where some bit of the first is not one of the second, it can be named.
proof fn lemma_bits_beyond(left: u64, right: u64)
    ensures
        left & !right != 0 ==> exists|number: u64|
            number < 64 && #[trigger] has_feature(left, number) && !has_feature(right, number),
{
    if left & !right != 0 {
        if forall|number: u64|
            number < 64 ==> !(#[trigger] has_feature(left, number) && !has_feature(
                right,
                number,
            )) {
            lemma_bits_within(left, right, 64);
            let beyond = left & !right;
            assert(beyond & 0xffff_ffff_ffff_ffff == beyond) by (bit_vector);
        }
    }
}

/// Where no bit of the first is missing in the second, none of the lower bits is beyond.
proof fn lemma_bits_within(left: u64, right: u64, count: u64)
    requires
        count <= 64,
        forall|number: u64|
            number < 64 ==> !(#[trigger] has_feature(left, number) && !has_feature(right, number)),
    ensures
        count == 64 ==> left & !right == 0,
        count < 64 ==> (left & !right) & sub_mask(count) == 0,
    decreases count,
{
    let beyond = left & !right;
    if count == 0 {
        assert(beyond & 0 == 0) by (bit_vector);
        assert(sub_mask(0) == 0) by (bit_vector);
    } else {
        let last = (count - 1) as u64;
        lemma_bits_within(left, right, last);
        assert(!(has_feature(left, last) && !has_feature(right, last)));
        assert(last < 63 && (left & !right) & (((1u64 << last) - 1) as u64) == 0 && !(left & (1u64
            << last) != 0 && right & (1u64 << last) == 0) ==> (left & !right) & (((1u64 << ((last
            + 1) as u64)) - 1) as u64) == 0) by (bit_vector);
        assert((left & !right) & (((1u64 << 63) - 1) as u64) == 0 && !(left & (1u64 << 63) != 0
            && right & (1u64 << 63) == 0) ==> left & !right == 0) by (bit_vector);
    }
}

/// The bits below the one with this number.
spec fn sub_mask(number: u64) -> u64 {
    ((1u64 << number) - 1) as u64
}

/// A device is turned down exactly if features are missing or its limits do not allow
/// it; with both, for its features. The error names what was asked for and what is
/// there.
pub proof fn lemma_device_is_turned_down(
    requested: GpuFeatures,
    supported: GpuFeatures,
    requested_limits: wgpu::Limits,
    supported_limits: wgpu::Limits,
    limits_allow: bool,
)
    ensures
        ({
            let missing = exists|number: u64|
                number < 64 && ((#[trigger] has_feature(requested.native, number) && !has_feature(
                    supported.native,
                    number,
                )) || (has_feature(requested.web, number) && !has_feature(supported.web, number)));
            match crate::gpu_runtime::context::requirement_fault(
                requested,
                supported,
                requested_limits,
                supported_limits,
                limits_allow,
            ) {
                None => !missing && limits_allow,
                Some(GpuContextInitError::UnsupportedFeatures { requested: r, supported: s }) => {
                    missing && r == requested && s == supported
                },
                Some(GpuContextInitError::UnsupportedLimits { requested: r, supported: s }) => {
                    !missing && !limits_allow && r == requested_limits && s == supported_limits
                },
            }
        }),
{
    lemma_features_are_supported_one_by_one(requested, supported);
}

/// A surface takes the first of its formats with eight bits for each of four channels in
/// linear steps, in either order, and there is none exactly if no format is one of those.
pub proof fn lemma_first_drawable_format_is_taken(formats: Seq<TextureFormat>)
    ensures
        match crate::gpu_runtime::surface_runtime::first_drawable(formats) {
            Some(format) => (format is Bgra8Unorm || format is Rgba8Unorm) && exists|place: int|
                0 <= place < formats.len() && #[trigger] formats[place] == format && forall|
                    earlier: int,
                |
                    0 <= earlier < place ==> !(#[trigger] formats[earlier] is Bgra8Unorm)
                        && !(formats[earlier] is Rgba8Unorm),
            None => forall|place: int|
                0 <= place < formats.len() ==> !(#[trigger] formats[place] is Bgra8Unorm) && !(
                formats[place] is Rgba8Unorm),
        },
    decreases formats.len(),
{
    if formats.len() > 0 {
        let rest = formats.drop_first();
        if formats[0] is Bgra8Unorm || formats[0] is Rgba8Unorm {
            assert(formats[0] == crate::gpu_runtime::surface_runtime::first_drawable(formats)->0);
        } else {
            lemma_first_drawable_format_is_taken(rest);
            match crate::gpu_runtime::surface_runtime::first_drawable(rest) {
                Some(format) => {
                    let place = choose|place: int|
                        0 <= place < rest.len() && #[trigger] rest[place] == format && forall|
                            earlier: int,
                        |
                            0 <= earlier < place ==> !(#[trigger] rest[earlier] is Bgra8Unorm)
                                && !(rest[earlier] is Rgba8Unorm);
                    assert(formats[place + 1] == format);
                    assert forall|earlier: int| 0 <= earlier < place + 1 implies !(
                    #[trigger] formats[earlier] is Bgra8Unorm) && !(
                    formats[earlier] is Rgba8Unorm) by {
                        if earlier > 0 {
                            assert(rest[earlier - 1] == formats[earlier]);
                        }
                    }
                },
                None => {
                    assert forall|place: int| 0 <= place < formats.len() implies !(
                    #[trigger] formats[place] is Bgra8Unorm) && !(
                    formats[place] is Rgba8Unorm) by {
                        if place > 0 {
                            assert(rest[place - 1] == formats[place]);
                        }
                    }
                },
            }
        }
    }
}

/// The pixels of a square are drawn in reading order: row by row from the top, and each
/// row from left to right.
pub proof fn lemma_squares_are_drawn_in_reading_order(
    size: (u32, u32),
    center_x: int,
    center_y: int,
    radius: int,
    first: int,
    second: int,
)
    requires
        radius >= 0,
        0 <= first < second < crate::gpu_runtime::generic_executor::square_writes(
            size,
            center_x,
            center_y,
            radius,
        ).len(),
    ensures
        ({
            let writes = crate::gpu_runtime::generic_executor::square_writes(
                size,
                center_x,
                center_y,
                radius,
            );
            writes[first].1 < writes[second].1 || (writes[first].1 == writes[second].1
                && writes[first].0 < writes[second].0)
        }),
{
    let across = crate::gpu_runtime::generic_executor::clipped(
        center_x - radius,
        center_x + radius,
        size.0,
    );
    let down = crate::gpu_runtime::generic_executor::clipped(
        center_y - radius,
        center_y + radius,
        size.1,
    );
    lemma_rows_are_in_order(across, down.0, (down.1 - down.0) as nat, first, second);
}

proof fn lemma_rows_are_in_order(
    across: (u32, u32),
    top: u32,
    rows: nat,
    first: int,
    second: int,
)
    requires
        across.0 <= across.1,
        top + rows <= u32::MAX,
        0 <= first < second < crate::gpu_runtime::generic_executor::rows_writes(
            across,
            top,
            rows,
        ).len(),
    ensures
        ({
            let writes = crate::gpu_runtime::generic_executor::rows_writes(across, top, rows);
            writes[second].1 < top + rows && (writes[first].1 < writes[second].1 || (
            writes[first].1 == writes[second].1 && writes[first].0 < writes[second].0))
        }),
    decreases rows,
{
    if rows > 0 {
        let earlier = crate::gpu_runtime::generic_executor::rows_writes(
            across,
            top,
            (rows - 1) as nat,
        );
        if second < earlier.len() {
            lemma_rows_are_in_order(across, top, (rows - 1) as nat, first, second);
        } else if first < earlier.len() {
            lemma_row_is_above(across, top, (rows - 1) as nat, first);
        }
    }
}

proof fn lemma_row_is_above(across: (u32, u32), top: u32, rows: nat, place: int)
    requires
        across.0 <= across.1,
        top + rows <= u32::MAX,
        0 <= place < crate::gpu_runtime::generic_executor::rows_writes(across, top, rows).len(),
    ensures
        crate::gpu_runtime::generic_executor::rows_writes(across, top, rows)[place].1 < top + rows,
    decreases rows,
{
    if rows > 0 {
        let earlier = crate::gpu_runtime::generic_executor::rows_writes(
            across,
            top,
            (rows - 1) as nat,
        );
        if place < earlier.len() {
            lemma_row_is_above(across, top, (rows - 1) as nat, place);
        }
    }
}

/// A brush can read every format but that of depths, and the error for that one names the
/// brush, what the atlas is to it, and the format. Whole numbers are read as such, and all
/// others are filtered, but for floats of four bytes without the feature for it.
pub proof fn lemma_formats_are_read(
    brush_id: BrushId,
    backend_role: &'static str,
    format: TextureFormat,
    features: GpuFeatures,
)
    ensures
        match crate::gpu_runtime::brush_executor::atlas_sample_type(
            brush_id,
            backend_role,
            format,
            features,
        ) {
            Err(error) => format is Depth32Float && error
                == (WgpuBrushExecutorError::UnsupportedAtlasSampleType {
                brush_id,
                backend_role,
                format,
            }),
            Ok(TextureSampleType::Uint) => format is R8Uint,
            Ok(TextureSampleType::Float { filterable }) => {
                &&& !(format is Depth32Float)
                &&& !(format is R8Uint)
                &&& !(format is R32Float) ==> filterable
            },
            Ok(_) => false,
        },
{
}

/// A backend is registered exactly under the next number, as long as a byte holds it.
pub proof fn lemma_backends_are_numbered_in_order(runtime: AtlasStorageRuntime, backend_id: u8)
    ensures
        match runtime.id_fault(backend_id) {
            None => backend_id == runtime@.len(),
            Some(AtlasStorageRuntimeRegisterError::BackendLimitReached) => runtime@.len() >= 256,
            Some(AtlasStorageRuntimeRegisterError::NonContiguousBackendId { expected, provided }) =>
            runtime@.len() < 256 && expected == runtime@.len() && provided == backend_id
                && backend_id != expected,
            Some(_) => false,
        },
{
}

/// What is drawn on can be used in every way; a cache is sampled and rendered to, and
/// nothing else.
pub proof fn lemma_usual_uses(kind: BackendKind)
    ensures
        ({
            let usage = TextureUsage::usual(kind);
            &&& usage.texture_binding
            &&& usage.render_attachment
            &&& usage.copy_src == (kind is Leaf)
            &&& usage.copy_dst == (kind is Leaf)
            &&& usage.storage_binding == (kind is Leaf)
        }),
{
}

} // verus!
