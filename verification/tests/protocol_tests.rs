use rh_mgr::protocol::{parse_results, Usb2SnesClient};
use rh_mgr::bytestr::{ascii_bytes, contains_bytes, ends_with_bytes, file_name_part, hex4, hex6, hex_min, starts_with_bytes};

#[test]
fn device_list_request_frame() {
    let c = Usb2SnesClient::new();
    let req = c.device_list_request();
    assert_eq!(req, br#"{"Opcode":"DeviceList","Space":"SNES"}"#.to_vec());
}

#[test]
fn info_request_frame() {
    let c = Usb2SnesClient::new();
    assert_eq!(c.info_request(), br#"{"Opcode":"Info","Space":"SNES"}"#.to_vec());
}

#[test]
fn attach_request_frame_and_device_recorded() {
    let mut c = Usb2SnesClient::new();
    let req = c.attach_request(&b"SD2SNES COM3".to_vec());
    assert_eq!(req, br#"{"Opcode":"Attach","Space":"SNES","Operands":["SD2SNES COM3"]}"#.to_vec());
    assert_eq!(c.device_name, Some(b"SD2SNES COM3".to_vec()));
}

#[test]
fn register_app_request_frame() {
    let c = Usb2SnesClient::new();
    let req = c.register_app_request(&b"ROM Hack Manager".to_vec());
    assert_eq!(req, br#"{"Opcode":"Name","Space":"SNES","Operands":["ROM Hack Manager"]}"#.to_vec());
}

#[test]
fn operands_are_json_escaped() {
    let c = Usb2SnesClient::new();
    let req = c.register_app_request(&b"say \"hi\" \\ there".to_vec());
    assert_eq!(
        req,
        br#"{"Opcode":"Name","Space":"SNES","Operands":["say \"hi\" \\ there"]}"#.to_vec()
    );
}

#[test]
fn read_memory_request_frames() {
    let c = Usb2SnesClient::new();
    let req = c.read_memory_request(0xF50100, 1);
    assert_eq!(
        req,
        br#"{"Opcode":"GetAddress","Space":"SNES","Operands":["F50100","1"]}"#.to_vec()
    );
    let req = c.read_memory_request(0x00FFC0, 32);
    assert_eq!(
        req,
        br#"{"Opcode":"GetAddress","Space":"SNES","Operands":["00FFC0","20"]}"#.to_vec()
    );
    let req = c.read_memory_request(0xF51EA2, 15);
    assert_eq!(
        req,
        br#"{"Opcode":"GetAddress","Space":"SNES","Operands":["F51EA2","F"]}"#.to_vec()
    );
}

#[test]
fn parse_results_plain() {
    let r = parse_results(&br#"{"Results":["A","B"]}"#.to_vec());
    assert_eq!(r, Some(vec![b"A".to_vec(), b"B".to_vec()]));
}

#[test]
fn parse_results_with_whitespace() {
    let r = parse_results(&b" {\n\t\"Results\" : [ \"SD2SNES COM3\" , \"RetroArch\" ] }\r\n".to_vec());
    assert_eq!(r, Some(vec![b"SD2SNES COM3".to_vec(), b"RetroArch".to_vec()]));
}

#[test]
fn parse_results_empty_array() {
    assert_eq!(parse_results(&br#"{"Results":[]}"#.to_vec()), Some(vec![]));
    assert_eq!(parse_results(&br#"{"Results":[ ]}"#.to_vec()), Some(vec![]));
}

#[test]
fn parse_results_unescapes() {
    let r = parse_results(&br#"{"Results":["C:\\roms\\hack.smc","a\"b","x\ty"]}"#.to_vec());
    assert_eq!(
        r,
        Some(vec![b"C:\\roms\\hack.smc".to_vec(), b"a\"b".to_vec(), b"x\ty".to_vec()])
    );
}

#[test]
fn parse_results_rejects_other_shapes() {
    assert_eq!(parse_results(&b"".to_vec()), None);
    assert_eq!(parse_results(&b"nonsense".to_vec()), None);
    assert_eq!(parse_results(&br#"{"Other":["A"]}"#.to_vec()), None);
    assert_eq!(parse_results(&br#"{"Results":["A"]} trailing"#.to_vec()), None);
    assert_eq!(parse_results(&br#"{"Results":["A""#.to_vec()), None);
    assert_eq!(parse_results(&br#"{"Results":[1,2]}"#.to_vec()), None);
}

#[test]
fn info_reply_caches_capability_flags() {
    let mut c = Usb2SnesClient::new();
    let reply = br#"{"Results":["1.0","fxpak","rom.smc","NO_ROM_READ","FEATURE"]}"#.to_vec();
    let r = c.handle_info_reply(&reply).unwrap();
    assert_eq!(r.len(), 5);
    assert_eq!(c.flags, vec![b"NO_ROM_READ".to_vec(), b"FEATURE".to_vec()]);
    assert!(!c.can_read_rom());
}

#[test]
fn short_info_reply_leaves_flags() {
    let mut c = Usb2SnesClient::new();
    let r = c.handle_info_reply(&br#"{"Results":["1.0","fxpak","rom.smc"]}"#.to_vec());
    assert!(r.is_some());
    assert!(c.flags.is_empty());
    assert!(c.can_read_rom());
}

#[test]
fn bad_info_reply_is_an_error() {
    let mut c = Usb2SnesClient::new();
    assert!(c.handle_info_reply(&b"not json".to_vec()).is_none());
    assert!(c.flags.is_empty());
}

#[test]
fn device_list_reply_decoded() {
    let c = Usb2SnesClient::new();
    let devices = c
        .handle_device_list_reply(&br#"{"Results":["SD2SNES COM3"]}"#.to_vec())
        .unwrap();
    assert_eq!(devices, vec![b"SD2SNES COM3".to_vec()]);
    assert!(c.handle_device_list_reply(&b"{}".to_vec()).is_none());
}

#[test]
fn hex_renderings() {
    assert_eq!(hex4(0x1234), b"1234".to_vec());
    assert_eq!(hex4(0x000A), b"000A".to_vec());
    assert_eq!(hex6(0x00FFC0), b"00FFC0".to_vec());
    assert_eq!(hex6(0xF50100), b"F50100".to_vec());
    assert_eq!(hex_min(0), b"0".to_vec());
    assert_eq!(hex_min(32), b"20".to_vec());
    assert_eq!(hex_min(0xF), b"F".to_vec());
}

#[test]
fn byte_searches() {
    assert!(contains_bytes(&b"Super Hack World".to_vec(), &b"Hack".to_vec()));
    assert!(!contains_bytes(&b"Super".to_vec(), &b"Hack".to_vec()));
    assert!(contains_bytes(&b"abc".to_vec(), &b"".to_vec()));
    assert!(starts_with_bytes(&b"PATCH123".to_vec(), &b"PATCH".to_vec()));
    assert!(!starts_with_bytes(&b"PATC".to_vec(), &b"PATCH".to_vec()));
    assert!(ends_with_bytes(&b"hack.bps".to_vec(), &b".bps".to_vec()));
    assert!(!ends_with_bytes(&b"hack.ips".to_vec(), &b".bps".to_vec()));
}

#[test]
fn file_name_part_takes_the_suffix() {
    assert_eq!(file_name_part(&b"C:\\roms\\hack.smc".to_vec()), b"hack.smc".to_vec());
    assert_eq!(file_name_part(&b"/home/u/roms/hack.smc".to_vec()), b"hack.smc".to_vec());
    assert_eq!(file_name_part(&b"hack.smc".to_vec()), b"hack.smc".to_vec());
    assert_eq!(file_name_part(&b"dir/".to_vec()), b"".to_vec());
}

#[test]
fn ascii_bytes_of_literal() {
    assert_eq!(ascii_bytes("NO_ROM_READ"), b"NO_ROM_READ".to_vec());
}
