//! Lifecycle hooks a provider may implement; the host invokes them in
//! module-distance order once the graph is built, and before teardown.

use vstd::prelude::*;

verus! {

pub trait OnModuleInit {
    fn on_module_init(&mut self);
}

pub trait OnModuleDestroy {
    fn on_module_destroy(&mut self);
}

} // verus!
