use vstd::prelude::*;

verus! {

/// Marker type for the engine-side demo plugin that greets named people on
/// a timer. The engine wiring itself is rendering-bound and stays outside
/// this library; the marker is kept so embedders can refer to the plugin.
pub struct HelloPlugin;

} // verus!
