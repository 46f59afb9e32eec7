use cropduster::auth::AuthUser;
use cropduster::gpio::{GpioCommand, RelayStates};
use cropduster::web::gpio::{
    gpio_state_response, set_request, toggle_request, toggle_response, SetBody,
};
use cropduster::web::update::{
    check_firmware_size, firmware_chunks, pad_chunk, FirmwareUpdateService,
};
use cropduster::auth::{AdminUser, NotAdmin};

fn user(mask: u8) -> AuthUser {
    AuthUser { username: "u".to_string(), is_admin: false, allowed_ports: mask }
}

#[test]
fn relays_start_off() {
    let r = RelayStates::new();
    for p in 0..10 {
        assert!(!r.get(p));
    }
}

#[test]
fn toggle_and_set_change_one_relay() {
    let mut r = RelayStates::new();
    assert_eq!(r.apply(GpioCommand::Toggle(3)), Some((3, true)));
    assert!(r.get(3));
    assert_eq!(r.apply(GpioCommand::Toggle(3)), Some((3, false)));
    assert_eq!(r.apply(GpioCommand::SetState(5, true)), Some((5, true)));
    assert_eq!(r.apply(GpioCommand::SetState(5, true)), Some((5, true)));
    assert_eq!(r.states, [false, false, false, false, false, true, false, false]);
    assert_eq!(r.apply(GpioCommand::Toggle(8)), None);
    assert_eq!(r.apply(GpioCommand::SetState(200, true)), None);
    assert_eq!(r.states, [false, false, false, false, false, true, false, false]);
}

#[test]
fn requests_respect_the_port_mask() {
    let u = user(0b0000_0101);
    assert_eq!(toggle_request(0, &u), Some(GpioCommand::Toggle(0)));
    assert_eq!(toggle_request(1, &u), None);
    assert_eq!(toggle_request(2, &u), Some(GpioCommand::Toggle(2)));
    assert_eq!(toggle_request(8, &user(0xFF)), None);
    assert_eq!(set_request(2, &u, SetBody { state: true }), Some(GpioCommand::SetState(2, true)));
    assert_eq!(set_request(7, &u, SetBody { state: true }), None);
    assert_eq!(set_request(7, &user(0x80), SetBody { state: false }), Some(GpioCommand::SetState(7, false)));
}

#[test]
fn relay_answers() {
    let mut r = RelayStates::new();
    r.apply(GpioCommand::SetState(1, true));
    let s = gpio_state_response(1, &r, "Fan".to_string(), &user(0b10));
    assert_eq!((s.pin, s.state, s.name.as_str(), s.allowed), (1, true, "Fan", true));
    let s = gpio_state_response(0, &r, String::new(), &user(0b10));
    assert!(!s.state && !s.allowed);
    let s = gpio_state_response(9, &r, String::new(), &user(0xFF));
    assert_eq!((s.pin, s.state, s.allowed), (9, false, false));
    let s = gpio_state_response(255, &r, String::new(), &user(0xFF));
    assert!(!s.state && !s.allowed);
    let t = toggle_response(1, &r);
    assert_eq!((t.pin, t.state), (1, true));
    assert!(!toggle_response(9, &r).state);
}

#[test]
fn firmware_size_limits() {
    assert_eq!(check_firmware_size(0), Err("Invalid firmware size"));
    assert_eq!(check_firmware_size(262145), Err("Invalid firmware size"));
    assert_eq!(check_firmware_size(1), Ok(()));
    assert_eq!(check_firmware_size(262144), Ok(()));
}

#[test]
fn firmware_is_written_in_erase_blocks() {
    assert_eq!(firmware_chunks(1), vec![(0, 1)]);
    assert_eq!(firmware_chunks(4096), vec![(0, 4096)]);
    assert_eq!(firmware_chunks(10000), vec![(0, 4096), (4096, 4096), (8192, 1808)]);
    let all = firmware_chunks(262144);
    assert_eq!(all.len(), 64);
    assert!(all.iter().all(|&(_, n)| n == 4096));
}

#[test]
fn chunk_padding_is_erased_flash() {
    let mut buf = [7u8; 4096];
    pad_chunk(&mut buf, 100);
    assert!(buf[..100].iter().all(|&b| b == 7));
    assert!(buf[100..].iter().all(|&b| b == 0xFF));
}

#[test]
fn update_requests_need_post_and_admin() {
    let admin: Result<AdminUser, NotAdmin> =
        Ok(AdminUser(AuthUser { username: "a".to_string(), is_admin: true, allowed_ports: 0 }));
    let refused: Result<AdminUser, NotAdmin> = Err(NotAdmin);
    assert_eq!(FirmwareUpdateService::authorize("GET", &admin), Err((405, "Method Not Allowed")));
    assert_eq!(FirmwareUpdateService::check_method("PUT"), Err((405, "Method Not Allowed")));
    assert_eq!(FirmwareUpdateService::check_method("POST"), Ok(()));
    assert_eq!(FirmwareUpdateService::authorize("POST", &refused), Err((403, "Forbidden")));
    assert_eq!(FirmwareUpdateService::authorize("POST", &admin), Ok(()));
    assert_eq!(FirmwareUpdateService::finish(Ok(())), (200, "{\"ok\":true}"));
    assert_eq!(FirmwareUpdateService::finish(Err("Read error")), (500, "Read error"));
}
