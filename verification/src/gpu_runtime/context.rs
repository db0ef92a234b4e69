//! What is asked of a GPU before it is used.
use vstd::prelude::*;

verus! {

/// How the adapter is chosen.
#[derive(Debug, Clone, Copy, PartialEq, Eq, Structural)]
pub enum AdapterSelection {
    Request,
    EnvOrDefault,
}

/// Features of a GPU, a bit for each: those of native devices, and those that
/// the web knows too.
#[derive(Debug, Clone, Copy, PartialEq, Eq, Structural)]
pub struct GpuFeatures {
    pub native: u64,
    pub web: u64,
}

/// The limits of a GPU.
#[verifier::external_type_specification]
#[verifier::external_body]
pub struct ExLimits(wgpu::Limits);

#[derive(Debug, PartialEq, Eq)]
pub enum GpuContextInitError {
    UnsupportedFeatures { requested: GpuFeatures, supported: GpuFeatures },
    UnsupportedLimits { requested: wgpu::Limits, supported: wgpu::Limits },
}

/// The features that are not among others.
pub open spec fn features_beyond(features: GpuFeatures, others: GpuFeatures) -> GpuFeatures {
    GpuFeatures { native: features.native & !others.native, web: features.web & !others.web }
}

/// No feature is asked for that is not supported.
pub open spec fn features_supported(requested: GpuFeatures, supported: GpuFeatures) -> bool {
    features_beyond(requested, supported) == (GpuFeatures { native: 0, web: 0 })
}

/// `wgpu::Features::difference` keeps the bits of the first set that are not
/// bits of the second, and the contract says so for both words of bits.
#[verifier::external_body]
fn features_difference(features: GpuFeatures, others: GpuFeatures) -> (rest: GpuFeatures)
    ensures
        rest == features_beyond(features, others),
{
    let rest = wgpu::Features::from_internal_flags(
        wgpu::FeaturesWGPU::from_bits_retain(features.native),
        wgpu::FeaturesWebGPU::from_bits_retain(features.web),
    ).difference(
        wgpu::Features::from_internal_flags(
            wgpu::FeaturesWGPU::from_bits_retain(others.native),
            wgpu::FeaturesWebGPU::from_bits_retain(others.web),
        ),
    );
    GpuFeatures { native: rest.features_wgpu.bits(), web: rest.features_webgpu.bits() }
}

/// Whether limits that are asked for are allowed by those that are supported.
pub uninterp spec fn limits_within(requested: wgpu::Limits, supported: wgpu::Limits) -> bool;

/// `wgpu::Limits::check_limits` compares limit by limit whether what is asked
/// for is allowed. Its answer depends on the two sets of limits alone, and the
/// contract gives it a name. What is supported may be asked for.
#[verifier::external_body]
fn limits_allowed(requested: &wgpu::Limits, supported: &wgpu::Limits) -> (allowed: bool)
    ensures
        allowed == limits_within(*requested, *supported),
        *requested == *supported ==> allowed,
{
    requested.check_limits(supported)
}

/// Why a GPU cannot be used, if it cannot, given whether its limits allow it.
pub open spec fn requirement_fault(
    requested: GpuFeatures,
    supported: GpuFeatures,
    requested_limits: wgpu::Limits,
    supported_limits: wgpu::Limits,
    limits_allow: bool,
) -> Option<GpuContextInitError> {
    if !features_supported(requested, supported) {
        Some(GpuContextInitError::UnsupportedFeatures { requested, supported })
    } else if !limits_allow {
        Some(
            GpuContextInitError::UnsupportedLimits {
                requested: requested_limits,
                supported: supported_limits,
            },
        )
    } else {
        None
    }
}

/// Checks what is asked of a GPU, given whether its limits allow it.
pub fn judge_requirements(
    requested: GpuFeatures,
    supported: GpuFeatures,
    requested_limits: wgpu::Limits,
    supported_limits: wgpu::Limits,
    limits_allow: bool,
) -> (result: Result<(), GpuContextInitError>)
    ensures
        result == (match requirement_fault(
            requested,
            supported,
            requested_limits,
            supported_limits,
            limits_allow,
        ) {
            Some(fault) => Err::<(), GpuContextInitError>(fault),
            None => Ok(()),
        }),
{
    let unsupported = features_difference(requested, supported);
    if unsupported.native != 0 || unsupported.web != 0 {
        return Err(GpuContextInitError::UnsupportedFeatures { requested, supported });
    }
    if !limits_allow {
        return Err(
            GpuContextInitError::UnsupportedLimits {
                requested: requested_limits,
                supported: supported_limits,
            },
        );
    }
    Ok(())
}

/// Checks what is asked of a GPU against what it supports: its features first,
/// and then its limits. A GPU that supports exactly the limits that are asked for
/// is not turned down for them.
pub fn check_requirements(
    requested: GpuFeatures,
    supported: GpuFeatures,
    requested_limits: wgpu::Limits,
    supported_limits: wgpu::Limits,
) -> (result: Result<(), GpuContextInitError>)
    ensures
        result == (match requirement_fault(
            requested,
            supported,
            requested_limits,
            supported_limits,
            limits_within(requested_limits, supported_limits),
        ) {
            Some(fault) => Err::<(), GpuContextInitError>(fault),
            None => Ok(()),
        }),
        features_supported(requested, supported) && requested_limits == supported_limits
            ==> result is Ok,
{
    let limits_allow = limits_allowed(&requested_limits, &supported_limits);
    judge_requirements(
        requested,
        supported,
        requested_limits,
        supported_limits,
        limits_allow,
    )
}

/// More support never turns a GPU down: what is accepted stays accepted when
/// further features are supported.
pub proof fn lemma_more_support_is_no_fault(
    requested: GpuFeatures,
    supported: GpuFeatures,
    further: GpuFeatures,
)
    requires
        features_supported(requested, supported),
    ensures
        features_supported(
            requested,
            GpuFeatures {
                native: supported.native | further.native,
                web: supported.web | further.web,
            },
        ),
{
    let (a, b, c) = (requested.native, supported.native, further.native);
    assert(a & !b == 0 ==> a & !(b | c) == 0) by (bit_vector);
    let (d, e, f) = (requested.web, supported.web, further.web);
    assert(d & !e == 0 ==> d & !(e | f) == 0) by (bit_vector);
}

} // verus!
