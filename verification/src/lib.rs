//! Layout and interaction logic of an orbital-elements scene: the sampling
//! plans of the globe wireframe and of the dashed orbit, the chaining of
//! polyline points into tube segments, the pointer-drag bookkeeping of the
//! render loop and the packing of label coordinates.

pub mod dashes;
pub mod drag;
pub mod globe;
pub mod labels;
pub mod strip;
