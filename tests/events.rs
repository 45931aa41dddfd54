use metaview::device::DeviceStore;
use metaview::distributor::{Delivery, EventDistributor};
use metaview::event::{Device, ElementState, Event, MouseButton, WindowEvent, XrEvent};

fn sample_events() -> Vec<Event> {
    vec![
        Event::Window(WindowEvent::Focused(true)),
        Event::Window(WindowEvent::MouseInput {
            device_id: Device(0),
            state: ElementState::Pressed,
            button: MouseButton::Left,
        }),
        Event::Xr(XrEvent::EventsLost { lost_event_count: 3 }),
        Event::Window(WindowEvent::ReceivedCharacter('q')),
    ]
}

#[test]
fn every_container_gets_every_event_in_order() {
    let mut distributor = EventDistributor::new();
    let events = sample_events();
    for e in &events {
        distributor.send(*e);
    }
    let plan = distributor.distribute_events(3);
    assert_eq!(plan.len(), 12);
    for j in 0..3 {
        let received: Vec<Event> = plan.iter().filter(|d| d.container == j).map(|d| d.event).collect();
        assert_eq!(received, events);
    }
    // The queue was drained: a second pass delivers nothing.
    assert!(distributor.distribute_events(3).is_empty());
}

#[test]
fn each_event_reaches_all_containers_before_the_next() {
    let mut distributor = EventDistributor::new();
    let a = Event::Window(WindowEvent::CloseRequested);
    let b = Event::Window(WindowEvent::Focused(false));
    distributor.send(a);
    distributor.send(b);
    let plan = distributor.distribute_events(2);
    assert_eq!(plan, vec![
        Delivery { container: 0, event: a },
        Delivery { container: 1, event: a },
        Delivery { container: 0, event: b },
        Delivery { container: 1, event: b },
    ]);
}

#[test]
fn distribution_without_containers_drains_queue() {
    let mut distributor = EventDistributor::new();
    distributor.send(Event::Window(WindowEvent::CloseRequested));
    assert!(distributor.distribute_events(0).is_empty());
    assert!(distributor.distribute_events(1).is_empty());
}

#[test]
fn devices_are_numbered_in_order_of_first_sight() {
    let mut store: DeviceStore<u64> = DeviceStore::new();
    assert_eq!(store.register_device(0xdead), Device(0));
    assert_eq!(store.register_device(7), Device(1));
    assert_eq!(store.register_device(0xdead), Device(0));
    assert_eq!(store.register_device(u64::MAX), Device(2));
    assert_eq!(store.register_device(7), Device(1));
    assert_eq!(store.count(), 3);
}
