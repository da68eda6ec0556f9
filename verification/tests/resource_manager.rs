use frame_graph::ResourceHandler;
use frame_graph::ResourceLifetime;
use frame_graph::ResourceManager;
use frame_graph::ResourceMetaData;

struct CountingHandler {
    created: usize,
    destroyed: usize,
}

impl ResourceHandler<u32> for CountingHandler {
    fn create(&mut self, _meta_data: &ResourceMetaData) -> u32 {
        self.created += 1;
        self.created as u32
    }

    fn destroy(&mut self, _resource: u32) {
        self.destroyed += 1;
    }
}

fn new_manager() -> ResourceManager<u32, CountingHandler> {
    ResourceManager::new(64, CountingHandler { created: 0, destroyed: 0 })
}

#[test]
fn create_stores_a_resource_and_checks_out_a_reference() {
    let mut manager = new_manager();
    let meta = ResourceMetaData::new_with_name("tiles", ResourceLifetime::Medium);
    let token = manager.create(&meta);
    assert_eq!(*manager.resource(&token).unwrap(), 1);
    assert_eq!(manager.handler.created, 1);
}

#[test]
fn lookup_by_name_uuid_and_path() {
    let mut manager = new_manager();
    let mut meta = ResourceMetaData::new_with_name("atlas", ResourceLifetime::Long);
    meta.path = Some("assets/atlas.png".to_string());
    let token = manager.create(&meta);

    let by_name = manager.get_from_name(&"atlas".to_string()).unwrap();
    assert_eq!(by_name.element_handle(), token.element_handle());
    let by_uuid = manager.get_from_uuid(meta.uuid).unwrap();
    assert_eq!(by_uuid.element_handle(), token.element_handle());
    let by_path = manager.get_from_path(&"assets/atlas.png".to_string()).unwrap();
    assert_eq!(by_path.element_handle(), token.element_handle());
    let by_meta = manager.get(&meta).unwrap();
    assert_eq!(by_meta.element_handle(), token.element_handle());

    assert!(manager.get_from_name(&"missing".to_string()).is_none());
    assert!(manager.get_from_path(&"assets/missing.png".to_string()).is_none());
    assert!(manager.get_from_uuid(meta.uuid.wrapping_add(1)).is_none());
}

#[test]
fn name_collision_is_last_write_wins() {
    let mut manager = new_manager();
    let first = ResourceMetaData::new_with_name("screen", ResourceLifetime::Medium);
    let second = ResourceMetaData::new_with_name("screen", ResourceLifetime::Medium);
    let t1 = manager.create(&first);
    let t2 = manager.create(&second);
    let found = manager.get_from_name(&"screen".to_string()).unwrap();
    assert_eq!(found.element_handle(), t2.element_handle());
    assert_ne!(t1.element_handle(), t2.element_handle());
}

#[test]
fn releasing_the_last_reference_destroys_after_the_delay() {
    let mut manager = new_manager();
    let meta = ResourceMetaData::new(ResourceLifetime::Short);
    let token = manager.create(&meta);
    let clone = manager.clone_handle(&token).unwrap();
    manager.release(token, 0);
    manager.upkeep(100);
    // One reference is still out; nothing may be destroyed.
    assert_eq!(manager.handler.destroyed, 0);
    manager.release(clone, 100);
    // The short delay is 3 ticks: not yet elapsed right away.
    manager.upkeep(102);
    assert_eq!(manager.handler.destroyed, 0);
    manager.upkeep(103);
    assert_eq!(manager.handler.destroyed, 1);
    let stale = manager.get_from_uuid(meta.uuid);
    assert!(stale.is_none());
}

#[test]
fn teardown_destroys_everything_including_forever_resources() {
    let mut manager = new_manager();
    let token = manager.create(&ResourceMetaData::new(ResourceLifetime::Forever));
    let _held = manager.create(&ResourceMetaData::new(ResourceLifetime::Medium));
    manager.release(token, 0);
    manager.upkeep(u64::MAX);
    // The forever resource never auto-evicts, and the other is still held.
    assert_eq!(manager.handler.destroyed, 0);
    manager.teardown();
    assert_eq!(manager.handler.destroyed, 2);
}

#[test]
fn reacquiring_before_the_deadline_keeps_the_resource() {
    let mut manager = new_manager();
    let meta = ResourceMetaData::new(ResourceLifetime::Medium);
    let token = manager.create(&meta);
    manager.release(token, 0);
    let again = manager.get_from_uuid(meta.uuid).unwrap();
    manager.upkeep(1000);
    assert_eq!(manager.handler.destroyed, 0);
    assert!(manager.resource(&again).is_some());
}
