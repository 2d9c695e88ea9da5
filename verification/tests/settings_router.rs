use knob::router::{is_interleaved_format, output_frame_count, FORMAT_FLAG_NON_INTERLEAVED};
use knob::settings::{add_routed, remove_routed};

#[test]
fn routed_list_has_no_duplicates() {
    let mut routed: Vec<String> = Vec::new();
    add_routed(&mut routed, &"a".to_string());
    add_routed(&mut routed, &"b".to_string());
    add_routed(&mut routed, &"a".to_string());
    assert_eq!(routed, vec!["a".to_string(), "b".to_string()]);
}

#[test]
fn routed_list_forgets() {
    let mut routed = vec!["a".to_string(), "b".to_string(), "c".to_string()];
    remove_routed(&mut routed, &"b".to_string());
    assert_eq!(routed, vec!["a".to_string(), "c".to_string()]);
    remove_routed(&mut routed, &"zzz".to_string());
    assert_eq!(routed, vec!["a".to_string(), "c".to_string()]);
    add_routed(&mut routed, &"d".to_string());
    remove_routed(&mut routed, &"d".to_string());
    assert_eq!(routed, vec!["a".to_string(), "c".to_string()]);
}

#[test]
fn interleaving_flag() {
    assert_eq!(FORMAT_FLAG_NON_INTERLEAVED, 0x20);
    assert!(is_interleaved_format(0x9));
    assert!(!is_interleaved_format(0x29));
}

#[test]
fn frame_count_from_buffer() {
    assert_eq!(output_frame_count(true, 16, 16 * 4 * 512), 512);
    assert_eq!(output_frame_count(true, 2, 4097), 512);
    assert_eq!(output_frame_count(false, 16, 4 * 512), 512);
    assert_eq!(output_frame_count(true, 0, 4096), 0);
    assert_eq!(output_frame_count(true, u32::MAX, u32::MAX), 0);
}
