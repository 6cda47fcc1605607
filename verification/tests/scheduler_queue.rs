use os::loader::AppTable;
use os::manager::{add_process, fetch_process, ProcessManager};

#[test]
fn ready_queue_is_strictly_fifo() {
    let mut m = ProcessManager::new();
    assert_eq!(m.fetch(), None);
    m.add(4);
    m.add(7);
    m.add(2);
    assert_eq!(m.fetch(), Some(4));
    m.add(9);
    assert_eq!(m.fetch(), Some(7));
    assert_eq!(m.fetch(), Some(2));
    assert_eq!(m.fetch(), Some(9));
    assert_eq!(m.fetch(), None);
}

#[test]
fn earlier_enqueued_dispatches_first() {
    // a enqueued before b: however many strangers join, a leaves first
    let mut m = ProcessManager::new();
    add_process(&mut m, 10);
    add_process(&mut m, 20);
    let mut dispatched = Vec::new();
    add_process(&mut m, 30);
    while let Some(p) = fetch_process(&mut m) {
        dispatched.push(p);
        if p == 10 {
            add_process(&mut m, 40);
        }
    }
    let pos_a = dispatched.iter().position(|&p| p == 10).unwrap();
    let pos_b = dispatched.iter().position(|&p| p == 20).unwrap();
    assert!(pos_a < pos_b);
}

#[test]
fn app_lookup_is_by_name_first_match() {
    let mut apps = AppTable::new();
    // a bundle entry must be a loadable image; a junk blob is refused
    assert!(!apps.add_app(b"junk".to_vec(), vec![0u8; 10]));
    assert_eq!(apps.apps.len(), 0);

    let mut image = vec![0u8; 64];
    image[0] = 0x7f;
    image[1] = 0x45;
    image[2] = 0x4c;
    image[3] = 0x46;
    image[54] = 56; // header entry size
    assert!(apps.add_app(b"initproc".to_vec(), image.clone()));
    assert!(apps.add_app(b"user_shell".to_vec(), image.clone()));
    assert!(apps.get_app_data_by_name(&b"initproc".to_vec()).is_some());
    assert!(apps.get_app_data_by_name(&b"user_shell".to_vec()).is_some());
    assert!(apps.get_app_data_by_name(&b"missing".to_vec()).is_none());
}
