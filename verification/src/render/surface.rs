//! The surface of a window: its size, and what to do about a frame that may not be had.

use crate::contract::geometry::PhysicalSize;
use vstd::prelude::*;
use vstd::string::StringExecFns;

verus! {

/// Why nothing can be drawn.
#[derive(Debug, PartialEq, Eq)]
pub enum RenderError {
    /// There is no graphics adapter for the window.
    NoAdapter,
    /// No surface could be made, for this reason.
    Surface(String),
    /// The device was not to be had, for this reason.
    Device(String),
    /// The adapter has no way to show anything in the window.
    UnsupportedSurface,
    /// The surface is gone.
    SurfaceLost,
}

impl RenderError {
    /// The error as a line of text.
    pub open spec fn shown(&self) -> Seq<char> {
        match self {
            RenderError::NoAdapter => "没有可用的图形适配器"@,
            RenderError::Surface(reason) => "建表面失败："@ + reason@,
            RenderError::Device(reason) => "请求设备失败："@ + reason@,
            RenderError::UnsupportedSurface => "适配器不支持该窗口的表面"@,
            RenderError::SurfaceLost => "表面已丢失"@,
        }
    }

    /// The error as a line of text.
    pub fn display(&self) -> (line: String)
        ensures
            line@ == self.shown(),
    {
        match self {
            RenderError::NoAdapter => "没有可用的图形适配器".to_owned(),
            RenderError::Surface(reason) => "建表面失败：".to_owned().concat(reason.as_str()),
            RenderError::Device(reason) => "请求设备失败：".to_owned().concat(reason.as_str()),
            RenderError::UnsupportedSurface => "适配器不支持该窗口的表面".to_owned(),
            RenderError::SurfaceLost => "表面已丢失".to_owned(),
        }
    }
}

/// The size that a surface is set up for.
#[derive(Debug, Clone, Copy, PartialEq, Eq, Structural)]
pub struct SurfaceSize {
    width: u32,
    height: u32,
}

impl SurfaceSize {
    /// The size.
    pub closed spec fn extent(self) -> PhysicalSize {
        PhysicalSize { width: self.width, height: self.height }
    }

    /// The size after that of the window became `size`: a window without an area leaves it as it is.
    pub open spec fn extent_after(extent: PhysicalSize, size: PhysicalSize) -> PhysicalSize {
        if size.width == 0 || size.height == 0 {
            extent
        } else {
            size
        }
    }

    /// The size for a window: at least one pixel each way.
    pub fn new(size: PhysicalSize) -> (surface: Self)
        ensures
            surface.extent().width == if size.width == 0 {
                1
            } else {
                size.width
            },
            surface.extent().height == if size.height == 0 {
                1
            } else {
                size.height
            },
    {
        let width: u32 = if size.width == 0 {
            1
        } else {
            size.width
        };
        let height: u32 = if size.height == 0 {
            1
        } else {
            size.height
        };
        SurfaceSize { width, height }
    }

    /// The window has a new size. Returns whether the surface has to be set up anew.
    pub fn resize(&mut self, size: PhysicalSize) -> (changed: bool)
        ensures
            final(self).extent() == Self::extent_after(old(self).extent(), size),
            changed == (final(self).extent() != old(self).extent()),
    {
        if size.width == 0 || size.height == 0 {
            return false;
        }
        if size.width == self.width && size.height == self.height {
            return false;
        }
        self.width = size.width;
        self.height = size.height;
        true
    }

    /// Width and height in pixels.
    pub fn physical_size(&self) -> (size: (u32, u32))
        ensures
            size == (self.extent().width, self.extent().height),
    {
        (self.width, self.height)
    }
}

/// A surface never loses its area, whatever becomes of the window.
pub proof fn a_surface_keeps_its_area(extent: PhysicalSize, size: PhysicalSize)
    requires
        extent.width > 0,
        extent.height > 0,
    ensures
        SurfaceSize::extent_after(extent, size).width > 0,
        SurfaceSize::extent_after(extent, size).height > 0,
{
}

/// What came of asking a surface for the next frame.
#[derive(Debug, Clone, Copy, PartialEq, Eq, Structural)]
pub enum FrameStatus {
    Success,
    Suboptimal,
    Timeout,
    Occluded,
    Outdated,
    Lost,
    Validation,
}

/// What to do about it.
#[derive(Debug, Clone, Copy, PartialEq, Eq, Structural)]
pub enum FrameStep {
    /// Draw into it.
    Draw,
    /// There is nothing to draw into; the next frame will do.
    Skip,
    /// Set the surface up anew, and leave it at that.
    Reconfigure,
    /// Report that the surface is gone.
    Fail,
}

/// What to do about a frame. Only a surface that is gone is an error.
pub fn acquire(status: FrameStatus) -> (step: FrameStep)
    ensures
        step == FrameStep::Draw <==> status is Success || status is Suboptimal,
        step == FrameStep::Skip <==> status is Timeout || status is Occluded,
        step == FrameStep::Reconfigure <==> status is Outdated,
        step == FrameStep::Fail <==> status is Lost || status is Validation,
{
    match status {
        FrameStatus::Success => FrameStep::Draw,
        FrameStatus::Suboptimal => FrameStep::Draw,
        FrameStatus::Timeout => FrameStep::Skip,
        FrameStatus::Occluded => FrameStep::Skip,
        FrameStatus::Outdated => FrameStep::Reconfigure,
        FrameStatus::Lost => FrameStep::Fail,
        FrameStatus::Validation => FrameStep::Fail,
    }
}

/// A surface follows its window, but keeps its size while the window has no area.
pub proof fn a_surface_follows_its_window(extent: PhysicalSize, size: PhysicalSize)
    ensures
        size.width > 0 && size.height > 0 ==> SurfaceSize::extent_after(extent, size) == size,
        size.width == 0 || size.height == 0 ==> SurfaceSize::extent_after(extent, size) == extent,
{
}

} // verus!
