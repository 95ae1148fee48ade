use orbit::devices::{
    device_from_line, list_adb_devices, list_adb_devices_command, parse_device_listing, Device,
};
use orbit::text::chars_of;
use orbit::tool::ToolOutput;

fn listing(stdout: &str) -> ToolOutput {
    ToolOutput { success: true, stdout: stdout.to_string(), stderr: String::new() }
}

fn triple(d: &Device) -> (String, String, Option<String>) {
    (d.serial.clone(), d.state.clone(), d.model.clone())
}

#[test]
fn header_only_listing_has_no_devices() {
    assert!(parse_device_listing("List of devices attached\n").is_empty());
    assert!(parse_device_listing("List of devices attached").is_empty());
    assert!(parse_device_listing("").is_empty());
}

#[test]
fn header_is_dropped_even_where_it_looks_like_a_device() {
    let devices = parse_device_listing("abc device\ndef offline\n");
    assert_eq!(devices.len(), 1);
    assert_eq!(devices[0].serial, "def");
    assert_eq!(devices[0].state, "offline");
}

#[test]
fn device_lines_come_out_in_order() {
    let text = "List of devices attached\n\
                emulator-5554          device product:sdk model:Pixel_7 device:emu transport_id:1\n\
                R58M123ABC             unauthorized usb:1-1 transport_id:2\n\
                192.168.1.20:5555      offline\n";
    let devices = parse_device_listing(text);
    assert_eq!(devices.len(), 3);
    assert_eq!(
        triple(&devices[0]),
        ("emulator-5554".to_string(), "device".to_string(), Some("Pixel_7".to_string()))
    );
    assert_eq!(triple(&devices[1]), ("R58M123ABC".to_string(), "unauthorized".to_string(), None));
    assert_eq!(triple(&devices[2]), ("192.168.1.20:5555".to_string(), "offline".to_string(), None));
}

#[test]
fn blank_and_short_lines_are_skipped() {
    let text = "List of devices attached\n\
                \n\
                aaa device model:A\n\
                   \t  \n\
                lonely\n\
                bbb device\n\
                \n";
    let devices = parse_device_listing(text);
    assert_eq!(devices.len(), 2);
    assert_eq!(triple(&devices[0]), ("aaa".to_string(), "device".to_string(), Some("A".to_string())));
    assert_eq!(triple(&devices[1]), ("bbb".to_string(), "device".to_string(), None));
    let plain = parse_device_listing("List of devices attached\naaa device model:A\nbbb device\n");
    assert_eq!(plain.len(), 2);
    assert_eq!(triple(&plain[0]), triple(&devices[0]));
    assert_eq!(triple(&plain[1]), triple(&devices[1]));
}

#[test]
fn carriage_returns_before_line_feeds_are_dropped() {
    let devices = parse_device_listing("List of devices attached\r\nabc device model:M\r\n\r\n");
    assert_eq!(devices.len(), 1);
    assert_eq!(triple(&devices[0]), ("abc".to_string(), "device".to_string(), Some("M".to_string())));
}

#[test]
fn model_is_read_after_the_state_only() {
    let d = device_from_line(&chars_of("model:serial model:state")).unwrap();
    assert_eq!(triple(&d), ("model:serial".to_string(), "model:state".to_string(), None));
    let d = device_from_line(&chars_of("s device xmodel:A")).unwrap();
    assert_eq!(d.model, None);
    let d = device_from_line(&chars_of("s device model:")).unwrap();
    assert_eq!(d.model, Some(String::new()));
    let d = device_from_line(&chars_of("s device model:model:B")).unwrap();
    assert_eq!(d.model, Some("model:B".to_string()));
}

#[test]
fn last_model_wins() {
    let d = device_from_line(&chars_of("s device model:A usb:1 model:B transport_id:3")).unwrap();
    assert_eq!(d.model, Some("B".to_string()));
}

#[test]
fn lines_of_fewer_than_two_words_are_no_devices() {
    assert!(device_from_line(&chars_of("")).is_none());
    assert!(device_from_line(&chars_of("   ")).is_none());
    assert!(device_from_line(&chars_of("serial")).is_none());
    assert!(device_from_line(&chars_of("  serial  ")).is_none());
    assert!(device_from_line(&chars_of("a b")).is_some());
}

#[test]
fn listing_command_asks_for_the_long_listing() {
    let cmd = list_adb_devices_command();
    assert_eq!(cmd.program, "adb");
    assert_eq!(cmd.args, vec!["devices", "-l"]);
}

#[test]
fn failed_listing_reports_error_stream() {
    let output = ToolOutput {
        success: false,
        stdout: "List of devices attached\nabc device\n".to_string(),
        stderr: "adb: no server".to_string(),
    };
    assert_eq!(list_adb_devices(Ok(output)).unwrap_err(), "adb: no server");
}

#[test]
fn listing_that_could_not_start_reports_the_reason() {
    assert_eq!(
        list_adb_devices(Err("No such file or directory".to_string())).unwrap_err(),
        "No such file or directory"
    );
}

#[test]
fn successful_listing_is_parsed() {
    let devices = list_adb_devices(Ok(listing("header\nabc device\n"))).unwrap();
    assert_eq!(devices.len(), 1);
    assert_eq!(devices[0].serial, "abc");
    let output = ToolOutput {
        success: true,
        stdout: "header\n".to_string(),
        stderr: "warning".to_string(),
    };
    assert!(list_adb_devices(Ok(output)).unwrap().is_empty());
}

#[test]
fn many_device_lines_give_as_many_records() {
    let mut text = String::from("List of devices attached\n");
    for i in 0..50 {
        text.push_str(&format!("serial{} device model:M{}\n", i, i));
    }
    let devices = parse_device_listing(&text);
    assert_eq!(devices.len(), 50);
    for (i, d) in devices.iter().enumerate() {
        assert_eq!(d.serial, format!("serial{}", i));
        assert_eq!(d.model, Some(format!("M{}", i)));
    }
}

#[test]
fn line_of_words_gives_serial_state_and_model() {
    for words in [
        vec!["R58M", "device"],
        vec!["R58M", "device", "model:SM_G991B"],
        vec!["emulator-5554", "offline", "usb:3-2", "model:sdk", "device:x"],
    ] {
        let line = words.join(" ");
        let d = device_from_line(&chars_of(&line)).unwrap();
        assert_eq!(d.serial, words[0]);
        assert_eq!(d.state, words[1]);
        let model = words[2..].iter().rev().find_map(|w| w.strip_prefix("model:"));
        assert_eq!(d.model.as_deref(), model);
    }
}
