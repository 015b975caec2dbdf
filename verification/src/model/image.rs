//! Image sizes the client asks the server for.
use vstd::prelude::*;

verus! {

#[derive(Debug, Clone, Copy, PartialEq, Eq, Structural)]
pub enum ImageSize {
    /// 64px max height.
    Thumb,
    /// 600px max height.
    Large,
}

impl ImageSize {
    /// The largest height, in pixels, an image of this size may have.
    pub fn max_height(self) -> (r: u32)
        ensures
            r == (match self {
                ImageSize::Thumb => 64u32,
                ImageSize::Large => 600u32,
            }),
    {
        match self {
            ImageSize::Thumb => 64,
            ImageSize::Large => 600,
        }
    }

    /// The suffix cached images of this size carry in their file name.
    pub fn cache_suffix(self) -> (r: &'static str)
        ensures
            r@ == (match self {
                ImageSize::Thumb => "thumb"@,
                ImageSize::Large => "large"@,
            }),
    {
        match self {
            ImageSize::Thumb => "thumb",
            ImageSize::Large => "large",
        }
    }
}

} // verus!
