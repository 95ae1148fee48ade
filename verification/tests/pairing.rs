use orbit::pairing::{
    complete_qr_pairing, generate_password, instance_name_for, pairing_response, plan_pairing,
    qr_payload_for, start_qr_pairing, stop_qr_pairing, PairingState, PASSWORD_LEN, QR_BORDER,
};
use orbit::qr::{encode, ModuleGrid};
use orbit::svg::to_svg_string;

fn is_password(p: &str) -> bool {
    p.len() == 6 && p.chars().all(|c| c.is_ascii_alphanumeric())
}

#[test]
fn new_state_is_idle() {
    let state: PairingState<u32> = PairingState::new();
    assert!(state.service_daemon.is_none());
    assert!(state.active_port.is_none());
}

#[test]
fn passwords_are_six_letters_or_digits() {
    assert_eq!(PASSWORD_LEN, 6);
    let mut seen = Vec::new();
    for _ in 0..200 {
        let p = generate_password();
        assert!(is_password(&p), "{:?}", p);
        seen.push(p);
    }
    seen.sort();
    seen.dedup();
    assert!(seen.len() > 1);
}

#[test]
fn instance_names_carry_the_number() {
    assert_eq!(instance_name_for(0), "OrbitPairing-0");
    assert_eq!(instance_name_for(4711), "OrbitPairing-4711");
    assert_eq!(instance_name_for(65535), "OrbitPairing-65535");
}

#[test]
fn payload_has_the_wifi_form() {
    assert_eq!(qr_payload_for("OrbitPairing-7", "aB3dE9"), "WIFI:T:ADB;S:OrbitPairing-7;P:aB3dE9;;");
    assert_eq!(qr_payload_for("", ""), "WIFI:T:ADB;S:;P:;;");
}

#[test]
fn start_notes_the_port_and_draws_up_a_plan() {
    let mut state: PairingState<&str> = PairingState::new();
    let plan = start_qr_pairing(&mut state, 37123);
    assert_eq!(state.active_port, Some(37123));
    assert!(state.service_daemon.is_none());
    assert_eq!(plan.port(), 37123);
    assert!(is_password(plan.password()));
    let name = plan.instance_name().clone();
    let number: u16 = name.strip_prefix("OrbitPairing-").unwrap().parse().unwrap();
    assert_eq!(name, format!("OrbitPairing-{}", number));
    let ad = plan.advertisement();
    assert_eq!(ad.service_type, "_adb-tls-pairing._tcp.local.");
    assert_eq!(ad.instance_name, name);
    assert_eq!(ad.host_name, format!("{}.local.", name));
    assert_eq!(ad.address, "0.0.0.0");
    assert_eq!(ad.port, 37123);
    assert_eq!(ad.properties, vec![("v".to_string(), "1".to_string())]);
}

#[test]
fn plan_holds_what_it_was_made_of() {
    let plan = plan_pairing(5000, "abc123".to_string(), 42);
    assert_eq!(plan.port(), 5000);
    assert_eq!(plan.password(), "abc123");
    assert_eq!(plan.instance_name(), "OrbitPairing-42");
    assert_eq!(plan.advertisement().host_name, "OrbitPairing-42.local.");
}

#[test]
fn complete_keeps_the_handle_and_returns_the_response() {
    let mut state: PairingState<&str> = PairingState::new();
    let plan = start_qr_pairing(&mut state, 40001);
    let password = plan.password().clone();
    let name = plan.instance_name().clone();
    let response = complete_qr_pairing(&mut state, "daemon", plan).unwrap();
    assert_eq!(state.service_daemon, Some("daemon"));
    assert_eq!(state.active_port, Some(40001));
    assert_eq!(response.port, 40001);
    assert!(response.port > 0);
    assert_eq!(response.password, password);
    assert!(is_password(&response.password));
    assert_eq!(response.service_name, name);
    assert_eq!(response.qr_data, format!("WIFI:T:ADB;S:{};P:{};;", name, password));
    let grid = encode(&response.qr_data).unwrap();
    assert_eq!(response.qr_svg, to_svg_string(&grid, QR_BORDER));
    let side = grid.size() + 8;
    assert!(response.qr_svg.contains(&format!("viewBox=\"0 0 {} {}\"", side, side)));
    assert_eq!(response.qr_svg.matches("<rect").count(), 1);
    assert_eq!(response.qr_svg.matches("<path").count(), 1);
    assert!(response.qr_svg.contains("<path d=\"M4,4h1v1h-1z "));
}

#[test]
fn response_for_a_known_plan() {
    let plan = plan_pairing(1234, "Zz09aA".to_string(), 7);
    let grid = ModuleGrid::from_rows(vec![vec![true, false], vec![false, true]]).unwrap();
    let response = pairing_response(plan, Ok(grid)).unwrap();
    assert_eq!(response.qr_data, "WIFI:T:ADB;S:OrbitPairing-7;P:Zz09aA;;");
    assert_eq!(response.password, "Zz09aA");
    assert_eq!(response.port, 1234);
    assert_eq!(response.service_name, "OrbitPairing-7");
    assert_eq!(
        response.qr_svg,
        "<svg xmlns=\"http://www.w3.org/2000/svg\" version=\"1.1\" viewBox=\"0 0 10 10\" \
         stroke=\"none\"><rect width=\"100%\" height=\"100%\" fill=\"#FFFFFF\"/>\
         <path d=\"M4,4h1v1h-1z M5,5h1v1h-1z\" fill=\"#000000\"/></svg>"
    );
}

#[test]
fn response_hands_the_encoder_message_on() {
    let plan = plan_pairing(1234, "Zz09aA".to_string(), 7);
    assert_eq!(pairing_response(plan, Err("Segment too long".to_string())).unwrap_err(), "Segment too long");
}

#[test]
fn second_start_overwrites_port_and_handle() {
    let mut state: PairingState<u32> = PairingState::new();
    let plan = start_qr_pairing(&mut state, 1001);
    complete_qr_pairing(&mut state, 1, plan).unwrap();
    let plan = start_qr_pairing(&mut state, 1002);
    assert_eq!(state.active_port, Some(1002));
    assert_eq!(state.service_daemon, Some(1));
    complete_qr_pairing(&mut state, 2, plan).unwrap();
    assert_eq!(state.active_port, Some(1002));
    assert_eq!(state.service_daemon, Some(2));
}

#[test]
fn stop_hands_the_handle_back_and_clears_the_port() {
    let mut state: PairingState<u32> = PairingState::new();
    let plan = start_qr_pairing(&mut state, 1001);
    complete_qr_pairing(&mut state, 9, plan).unwrap();
    assert_eq!(stop_qr_pairing(&mut state), Ok(Some(9)));
    assert!(state.service_daemon.is_none());
    assert!(state.active_port.is_none());
}

#[test]
fn stop_is_idempotent() {
    let mut state: PairingState<u32> = PairingState::new();
    assert_eq!(stop_qr_pairing(&mut state), Ok(None));
    assert!(state.service_daemon.is_none() && state.active_port.is_none());
    let plan = start_qr_pairing(&mut state, 1001);
    complete_qr_pairing(&mut state, 9, plan).unwrap();
    assert_eq!(stop_qr_pairing(&mut state), Ok(Some(9)));
    assert_eq!(stop_qr_pairing(&mut state), Ok(None));
    assert!(state.service_daemon.is_none() && state.active_port.is_none());
}

#[test]
fn stop_clears_a_port_without_an_advertisement() {
    let mut state: PairingState<u32> = PairingState::new();
    let _plan = start_qr_pairing(&mut state, 1001);
    assert_eq!(state.active_port, Some(1001));
    assert_eq!(stop_qr_pairing(&mut state), Ok(None));
    assert!(state.active_port.is_none());
}
