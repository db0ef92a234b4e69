//! The window surface: its format and size.
use vstd::prelude::*;

use crate::gpu_runtime::atlas_runtime::TextureFormat;

verus! {

/// A surface can be drawn to in this format.
pub open spec fn drawable(format: TextureFormat) -> bool {
    format == TextureFormat::Bgra8Unorm || format == TextureFormat::Rgba8Unorm
}

/// The first of the formats that can be drawn to.
pub open spec fn first_drawable(formats: Seq<TextureFormat>) -> Option<TextureFormat>
    decreases formats.len(),
{
    if formats.len() == 0 {
        None
    } else if drawable(formats[0]) {
        Some(formats[0])
    } else {
        first_drawable(formats.drop_first())
    }
}

#[derive(Debug, Clone, Copy, PartialEq, Eq, Structural)]
pub enum SurfaceError {
    UnsupportedFormat,
    AcquireFailed,
}

impl SurfaceError {
    /// The message for an error.
    pub fn message(&self) -> (message: &'static str)
        ensures
            message@ == (match *self {
                SurfaceError::UnsupportedFormat => "no supported surface format"@,
                SurfaceError::AcquireFailed => "failed to acquire surface texture"@,
            }),
    {
        match *self {
            SurfaceError::UnsupportedFormat => "no supported surface format",
            SurfaceError::AcquireFailed => "failed to acquire surface texture",
        }
    }
}

/// The format and size that a surface is configured with.
#[derive(Debug, Clone, Copy, PartialEq, Eq, Structural)]
pub struct SurfaceRuntime {
    pub format: TextureFormat,
    pub width: u32,
    pub height: u32,
}

impl SurfaceRuntime {
    /// The configuration of a surface that supports these formats: it takes the
    /// first one that can be drawn to.
    pub fn new(formats: &Vec<TextureFormat>, width: u32, height: u32) -> (runtime: Result<
        SurfaceRuntime,
        SurfaceError,
    >)
        ensures
            runtime == (match first_drawable(formats@) {
                Some(format) => Ok(SurfaceRuntime { format, width, height }),
                None => Err(SurfaceError::UnsupportedFormat),
            }),
    {
        let mut index: usize = 0;
        assert(formats@.skip(0) =~= formats@);
        while index < formats.len()
            invariant
                index <= formats@.len(),
                first_drawable(formats@) == first_drawable(formats@.skip(index as int)),
            decreases formats@.len() - index,
        {
            let format = formats[index];
            proof {
                assert(formats@.skip(index as int)[0] == format);
                assert(formats@.skip(index as int).drop_first() =~= formats@.skip(index + 1));
            }
            if format == TextureFormat::Bgra8Unorm || format == TextureFormat::Rgba8Unorm {
                return Ok(SurfaceRuntime { format, width, height });
            }
            index += 1;
        }
        Err(SurfaceError::UnsupportedFormat)
    }

    /// Takes over a new size, and tells whether the surface must be configured
    /// again: an empty size is passed over, and so is the present one.
    pub fn resize(&mut self, width: u32, height: u32) -> (changed: bool)
        ensures
            changed == (width > 0 && height > 0 && (old(self).width != width || old(self).height
                != height)),
            *final(self) == (if changed {
                SurfaceRuntime { width, height, ..*old(self) }
            } else {
                *old(self)
            }),
    {
        if width > 0 && height > 0 && (self.width != width || self.height != height) {
            self.width = width;
            self.height = height;
            return true;
        }
        false
    }

    pub fn format(&self) -> (format: TextureFormat)
        ensures
            format == self.format,
    {
        self.format
    }

    pub fn width(&self) -> (width: u32)
        ensures
            width == self.width,
    {
        self.width
    }

    pub fn height(&self) -> (height: u32)
        ensures
            height == self.height,
    {
        self.height
    }
}

} // verus!
