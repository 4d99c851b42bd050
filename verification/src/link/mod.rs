//! Links: the interfaces of a node and the layer that picks among them.

pub mod interface;
pub mod link_layer;
