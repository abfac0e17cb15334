use bevy_ggrs::plugin::TrackedTypes;
use bevy_ggrs::plugin::DEFAULT_FPS;
use bevy_ggrs::GGRSPlugin;

#[test]
fn default_plugin_runs_at_sixty() {
    assert_eq!(DEFAULT_FPS, 60);
    let (stage, mut ids) = GGRSPlugin::new().build();
    assert_eq!(stage.update_frequency(), 60);
    assert_eq!(stage.frame(), 0);
    assert_eq!(stage.accumulator(), 0);
    assert!(stage.type_registry().components().is_empty());
    assert!(stage.type_registry().resources().is_empty());
    assert_eq!(ids.next_id(), 0);
    let (stage, _) = GGRSPlugin::default().build();
    assert_eq!(stage.update_frequency(), 60);
}

#[test]
fn builder_sets_frequency_and_types() {
    let (stage, _) = GGRSPlugin::new()
        .with_update_frequency(30)
        .register_rollback_component(11)
        .register_rollback_component(12)
        .register_rollback_resource(21)
        .register_rollback_component(11)
        .build();
    assert_eq!(stage.update_frequency(), 30);
    assert_eq!(stage.step_duration(), 33_333_333);
    assert_eq!(stage.type_registry().components(), &vec![11, 12]);
    assert_eq!(stage.type_registry().resources(), &vec![21]);
    assert!(stage.type_registry().tracks_component(12));
    assert!(!stage.type_registry().tracks_component(21));
    assert!(stage.type_registry().tracks_resource(21));
    assert!(!stage.type_registry().tracks_resource(11));
}

#[test]
fn registering_twice_changes_nothing() {
    let mut types = TrackedTypes::new();
    types.register_component(5);
    types.register_component(6);
    types.register_component(5);
    types.register_resource(5);
    types.register_resource(5);
    assert_eq!(types.components(), &vec![5, 6]);
    assert_eq!(types.resources(), &vec![5]);
}
