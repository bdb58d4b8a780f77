use notify::event::{AccessKind, AccessMode, Event, EventAttributes, EventKind, Flag, RemoveKind};

#[test]
fn events_are_debuggable() {
    assert_eq!(format!("{:?}", EventKind::Any), String::from("Any"));

    assert_eq!(
        format!("{:?}", EventKind::Access(AccessKind::Open(AccessMode::Execute))),
        String::from("Access(Open(Execute))")
    );

    let mut attrs = EventAttributes::new();
    attrs.set_info("unmount");
    attrs.set_flag(Flag::Rescan);

    assert_eq!(
        format!(
            "{:?}",
            Event { kind: EventKind::Remove(RemoveKind::Other), paths: vec!["/example".into()], attrs }
        ),
        String::from(
            "Event { kind: Remove(Other), paths: [\"/example\"], attr:tracker: None, attr:flag: Some(Rescan), attr:info: Some(\"unmount\"), attr:source: None }"
        )
    );
}
