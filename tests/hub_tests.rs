use std::cell::RefCell;
use std::rc::Rc;
use viewer_stream::hub::{BroadcastHub, Outbox};

struct Recorder {
    name: u32,
    log: Rc<RefCell<Vec<(u32, String)>>>,
}

impl Outbox for Recorder {
    fn deliver(&self, message: &str) {
        self.log.borrow_mut().push((self.name, message.to_string()));
    }
}

fn recorder(name: u32, log: &Rc<RefCell<Vec<(u32, String)>>>) -> Recorder {
    Recorder { name, log: log.clone() }
}

#[test]
fn broadcast_reaches_every_session() {
    let log = Rc::new(RefCell::new(Vec::new()));
    let mut hub = BroadcastHub::new();
    hub.connect_with_id(1, recorder(1, &log));
    hub.connect_with_id(2, recorder(2, &log));
    hub.connect_with_id(3, recorder(3, &log));
    assert_eq!(hub.broadcast("{\"count\":3}"), 3);
    let mut got: Vec<u32> = log.borrow().iter().map(|e| e.0).collect();
    got.sort();
    assert_eq!(got, vec![1, 2, 3]);
    assert!(log.borrow().iter().all(|e| e.1 == "{\"count\":3}"));
}

#[test]
fn disconnect_removes_one_delivery() {
    let log = Rc::new(RefCell::new(Vec::new()));
    let mut hub = BroadcastHub::new();
    hub.connect_with_id(1, recorder(1, &log));
    hub.connect_with_id(2, recorder(2, &log));
    hub.disconnect(1);
    assert_eq!(hub.broadcast("m"), 1);
    assert_eq!(*log.borrow(), vec![(2, String::from("m"))]);
    hub.disconnect(1);
    hub.disconnect(99);
    assert_eq!(hub.len(), 1);
    assert_eq!(hub.broadcast("n"), 1);
}

#[test]
fn same_id_overwrites() {
    let log = Rc::new(RefCell::new(Vec::new()));
    let mut hub = BroadcastHub::new();
    hub.connect_with_id(5, recorder(1, &log));
    hub.connect_with_id(5, recorder(2, &log));
    assert_eq!(hub.len(), 1);
    assert_eq!(hub.broadcast("x"), 1);
    assert_eq!(*log.borrow(), vec![(2, String::from("x"))]);
}

#[test]
fn random_ids_register_sessions() {
    let log = Rc::new(RefCell::new(Vec::new()));
    let mut hub = BroadcastHub::new();
    let a = hub.connect(recorder(1, &log));
    let b = hub.connect(recorder(2, &log));
    assert!(hub.contains(a));
    assert!(hub.contains(b));
    assert_eq!(hub.len(), if a == b { 1 } else { 2 });
    hub.disconnect(a);
    assert!(!hub.contains(a));
}

#[test]
fn empty_hub_broadcasts_nothing() {
    let mut hub: BroadcastHub<Recorder> = BroadcastHub::new();
    assert_eq!(hub.broadcast("m"), 0);
}

#[test]
fn messages_keep_their_order_per_session() {
    let log = Rc::new(RefCell::new(Vec::new()));
    let mut hub = BroadcastHub::new();
    hub.connect_with_id(1, recorder(1, &log));
    hub.broadcast("a");
    hub.broadcast("b");
    assert_eq!(*log.borrow(), vec![(1, String::from("a")), (1, String::from("b"))]);
}
