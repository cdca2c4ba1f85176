use vstd::prelude::*;

verus! {

/// A triangle of a mesh: three 1-based indices into the mesh's vertex list.
#[derive(Clone, Copy, Debug, PartialEq, Eq, Structural)]
pub struct Face {
    pub a: u32,
    pub b: u32,
    pub c: u32,
}

/// A cell of the frame, by column and row.
#[derive(Clone, Copy, Debug, PartialEq, Eq, Structural)]
pub struct ScreenPoint {
    pub x: u32,
    pub y: u32,
}

/// One face of the mesh as projected for the current frame: the screen
/// cells of its three vertices.
#[derive(Clone, Copy, Debug, PartialEq, Eq)]
pub struct Triangle {
    pub point: [ScreenPoint; 3],
}

impl Face {
    /// Each index names one of the `n` vertices of the mesh.
    pub open spec fn valid(self, n: int) -> bool {
        1 <= self.a <= n && 1 <= self.b <= n && 1 <= self.c <= n
    }
}

} // verus!
