use knob::devices::{check_blackhole, select_output_devices, AudioDeviceInfo, OutputDeviceProbe};

fn dev(id: u32, name: &str) -> AudioDeviceInfo {
    AudioDeviceInfo { id, name: name.to_string() }
}

#[test]
fn blackhole_found_case_insensitively() {
    let all = vec![
        dev(10, "MacBook Pro Speakers"),
        dev(11, "BlackHole 16ch"),
        dev(12, "External Headphones"),
        dev(13, "BLACKHOLE 2ch"),
    ];
    let st = check_blackhole(all);
    assert!(st.installed);
    assert_eq!(st.devices, vec![dev(11, "BlackHole 16ch"), dev(13, "BLACKHOLE 2ch")]);
    assert_eq!(st.output_device(), Some(11));
}

#[test]
fn blackhole_missing() {
    let st = check_blackhole(vec![dev(1, "Built-in Output"), dev(2, "Black Hole")]);
    assert!(!st.installed);
    assert!(st.devices.is_empty());
    assert_eq!(st.output_device(), None);
    let empty = check_blackhole(Vec::new());
    assert!(!empty.installed);
}

#[test]
fn blackhole_non_ascii_name() {
    let st = check_blackhole(vec![dev(5, "Ünïcode BlackHole Ä")]);
    assert!(st.installed);
    assert_eq!(st.devices.len(), 1);
}

#[test]
fn output_devices_need_streams_and_name() {
    let probes = vec![
        OutputDeviceProbe { id: 1, streams_status: 0, streams_size: 8, name: Some("A".into()) },
        OutputDeviceProbe { id: 2, streams_status: 0, streams_size: 0, name: Some("B".into()) },
        OutputDeviceProbe { id: 3, streams_status: -50, streams_size: 8, name: Some("C".into()) },
        OutputDeviceProbe { id: 4, streams_status: 0, streams_size: 4, name: None },
        OutputDeviceProbe { id: 5, streams_status: 0, streams_size: 4, name: Some("E".into()) },
    ];
    assert!(probes[0].has_output_streams());
    assert!(!probes[1].has_output_streams());
    assert!(!probes[2].has_output_streams());
    assert_eq!(select_output_devices(&probes), vec![dev(1, "A"), dev(5, "E")]);
}
