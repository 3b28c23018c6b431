use vstd::prelude::*;

verus! {

/// Dimensionality of an image.
#[derive(Clone, Copy, Debug, PartialEq, Eq, Structural)]
pub enum ImageType {
    Type1d,
    Type2d,
    Type3d,
}

/// Size of an image in texels along each axis.
#[derive(Clone, Copy, Debug, PartialEq, Eq, Structural)]
pub struct Extent3D {
    pub width: u32,
    pub height: u32,
    pub depth: u32,
}

/// Kind and size of an image.
#[derive(Clone, Copy, Debug, PartialEq, Eq, Structural)]
pub enum Kind {
    D1(u32),
    D2 { width: u32, height: u32 },
    D3 { width: u32, height: u32, depth: u32 },
}

impl Kind {
    /// Get type of the image.
    pub fn image_type(self) -> (r: ImageType)
        ensures
            self is D1 ==> r == ImageType::Type1d,
            self is D2 ==> r == ImageType::Type2d,
            self is D3 ==> r == ImageType::Type3d,
    {
        match self {
            Kind::D1(_) => ImageType::Type1d,
            Kind::D2 { .. } => ImageType::Type2d,
            Kind::D3 { .. } => ImageType::Type3d,
        }
    }

    /// Get extent of the image: axes the kind lacks have size one.
    pub fn extent(self) -> (r: Extent3D)
        ensures
            self matches Kind::D1(size) ==> r == (Extent3D { width: size, height: 1, depth: 1 }),
            self matches Kind::D2 { width, height } ==> r == (Extent3D { width, height, depth: 1 }),
            self matches Kind::D3 { width, height, depth } ==> r == (Extent3D { width, height, depth }),
    {
        match self {
            Kind::D1(size) => Extent3D { width: size, height: 1, depth: 1 },
            Kind::D2 { width, height } => Extent3D { width, height, depth: 1 },
            Kind::D3 { width, height, depth } => Extent3D { width, height, depth },
        }
    }
}

/// An image resource.
#[derive(Clone, Copy, Debug, PartialEq, Eq, Structural)]
pub struct Image;

} // verus!
