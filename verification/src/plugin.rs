//! The configuration of the rollback stage.
use crate::ggrs_stage::GGRSStage;
use crate::rollback::RollbackIdProvider;
use vstd::prelude::*;

verus! {

/// The update frequency of a stage that was given none, in steps per second.
pub const DEFAULT_FPS: usize = 60;

/// What a [`TrackedTypes`] table is: the identifiers of the tracked
/// component types and of the tracked resource types, each in the order of
/// registration.
pub struct TrackedTypesView {
    pub components: Seq<u64>,
    pub resources: Seq<u64>,
}

/// The table of the types that are saved and loaded on rollback, by their
/// identifiers. The host serializes a value of a type in the table whenever
/// the world's state is captured.
#[derive(Debug)]
pub struct TrackedTypes {
    components: Vec<u64>,
    resources: Vec<u64>,
}

impl View for TrackedTypes {
    type V = TrackedTypesView;

    closed spec fn view(&self) -> TrackedTypesView {
        TrackedTypesView { components: self.components@, resources: self.resources@ }
    }
}

/// The list with one more identifier at its end, unless it holds it already.
pub open spec fn registered(types: Seq<u64>, type_id: u64) -> Seq<u64> {
    if types.contains(type_id) {
        types
    } else {
        types.push(type_id)
    }
}

/// Adds an identifier to a list that does not hold it yet.
fn register(types: &mut Vec<u64>, type_id: u64)
    ensures
        final(types)@ == registered(old(types)@, type_id),
{
    let mut i: usize = 0;
    while i < types.len()
        invariant
            i <= types.len(),
            forall|j: int| 0 <= j < i ==> types@[j] != type_id,
        decreases types.len() - i,
    {
        if types[i] == type_id {
            return ;
        }
        i = i + 1;
    }
    types.push(type_id);
}

/// Tells whether a list holds an identifier.
fn holds(types: &Vec<u64>, type_id: u64) -> (found: bool)
    ensures
        found == types@.contains(type_id),
{
    let mut i: usize = 0;
    while i < types.len()
        invariant
            i <= types.len(),
            forall|j: int| 0 <= j < i ==> types@[j] != type_id,
        decreases types.len() - i,
    {
        if types[i] == type_id {
            return true;
        }
        i = i + 1;
    }
    false
}

impl TrackedTypes {
    /// A table without types.
    pub fn new() -> (table: Self)
        ensures
            table@.components.len() == 0,
            table@.resources.len() == 0,
    {
        TrackedTypes { components: Vec::new(), resources: Vec::new() }
    }

    /// Registers a component type. Registering a type again changes nothing.
    pub fn register_component(&mut self, type_id: u64)
        ensures
            final(self)@.components == registered(old(self)@.components, type_id),
            final(self)@.resources == old(self)@.resources,
    {
        register(&mut self.components, type_id);
    }

    /// Registers a resource type. Registering a type again changes nothing.
    pub fn register_resource(&mut self, type_id: u64)
        ensures
            final(self)@.resources == registered(old(self)@.resources, type_id),
            final(self)@.components == old(self)@.components,
    {
        register(&mut self.resources, type_id);
    }

    /// Tells whether a component type is registered.
    pub fn tracks_component(&self, type_id: u64) -> (known: bool)
        ensures
            known == self@.components.contains(type_id),
    {
        holds(&self.components, type_id)
    }

    /// Tells whether a resource type is registered.
    pub fn tracks_resource(&self, type_id: u64) -> (known: bool)
        ensures
            known == self@.resources.contains(type_id),
    {
        holds(&self.resources, type_id)
    }

    /// The registered component types, in the order of registration.
    pub fn components(&self) -> (types: &Vec<u64>)
        ensures
            types@ == self@.components,
    {
        &self.components
    }

    /// The registered resource types, in the order of registration.
    pub fn resources(&self) -> (types: &Vec<u64>)
        ensures
            types@ == self@.resources,
    {
        &self.resources
    }
}

/// What a [`GGRSPlugin`] is: the update frequency and the tracked types it
/// was configured with.
pub struct PluginView {
    pub fps: usize,
    pub types: TrackedTypesView,
}

/// A builder to configure the rollback stage.
#[derive(Debug)]
pub struct GGRSPlugin {
    fps: usize,
    type_registry: TrackedTypes,
}

impl View for GGRSPlugin {
    type V = PluginView;

    closed spec fn view(&self) -> PluginView {
        PluginView { fps: self.fps, types: self.type_registry@ }
    }
}

impl Default for GGRSPlugin {
    fn default() -> (plugin: Self)
        ensures
            plugin@.fps == DEFAULT_FPS,
            plugin@.types.components.len() == 0,
            plugin@.types.resources.len() == 0,
    {
        GGRSPlugin { fps: DEFAULT_FPS, type_registry: TrackedTypes::new() }
    }
}

impl GGRSPlugin {
    /// Create a new instance of the builder.
    pub fn new() -> (plugin: Self)
        ensures
            plugin@.fps == DEFAULT_FPS,
            plugin@.types.components.len() == 0,
            plugin@.types.resources.len() == 0,
    {
        GGRSPlugin { fps: DEFAULT_FPS, type_registry: TrackedTypes::new() }
    }

    /// Change the update frequency of the rollback stage.
    pub fn with_update_frequency(self, fps: usize) -> (plugin: Self)
        ensures
            plugin@ == (PluginView { fps, types: self@.types }),
    {
        GGRSPlugin { fps, type_registry: self.type_registry }
    }

    /// Registers a type of component for saving and loading during
    /// rollbacks.
    pub fn register_rollback_component(self, type_id: u64) -> (plugin: Self)
        ensures
            plugin@.fps == self@.fps,
            plugin@.types.components == registered(self@.types.components, type_id),
            plugin@.types.resources == self@.types.resources,
    {
        let mut plugin = self;
        plugin.type_registry.register_component(type_id);
        plugin
    }

    /// Registers a type of resource for saving and loading during rollbacks.
    pub fn register_rollback_resource(self, type_id: u64) -> (plugin: Self)
        ensures
            plugin@.fps == self@.fps,
            plugin@.types.resources == registered(self@.types.resources, type_id),
            plugin@.types.components == self@.types.components,
    {
        let mut plugin = self;
        plugin.type_registry.register_resource(type_id);
        plugin
    }

    /// Consumes the builder and makes the stage that it describes, together
    /// with a fresh provider of rollback ids.
    pub fn build(self) -> (built: (GGRSStage, RollbackIdProvider))
        ensures
            built.0.wf(),
            built.0@ == crate::ggrs_stage::StageView::initial().with_update_frequency(
                self@.fps,
            ).with_types(self@.types),
            built.1@ == 0,
    {
        let mut stage = GGRSStage::new();
        stage.set_update_frequency(self.fps);
        stage.set_type_registry(self.type_registry);
        (stage, RollbackIdProvider::default())
    }
}

} // verus!
