use rh_mgr::rom::RomValidator;
use rh_mgr::patching::{PatchError, Patcher};

#[test]
fn test_calculate_md5() {
    // md5("test") = 098f6bcd4621d373cade4e832627b4f6
    let hash = RomValidator::calculate_md5(&b"test".to_vec());
    assert_eq!(hash, "098f6bcd4621d373cade4e832627b4f6");
}

#[test]
fn arbitrary_bytes_are_not_the_clean_rom() {
    assert!(!RomValidator::is_clean_smw(&b"test".to_vec()));
    assert!(!RomValidator::is_clean_smw(&Vec::new()));
}

#[test]
fn clean_digest_recognised() {
    assert!(RomValidator::is_clean_digest(&"cdd3c8c37322978ca8669b34bc89c804".to_string()));
    assert!(!RomValidator::is_clean_digest(&"098f6bcd4621d373cade4e832627b4f6".to_string()));
}

/// A minimal IPS patch: magic, one record writing 0xFF at offset 0, end marker.
fn tiny_ips_patch() -> Vec<u8> {
    let mut p = b"PATCH".to_vec();
    p.extend_from_slice(&[0x00, 0x00, 0x00]); // offset 0
    p.extend_from_slice(&[0x00, 0x01]); // one byte
    p.push(0xFF);
    p.extend_from_slice(b"EOF");
    p
}

#[test]
fn ips_patch_applied_by_extension() {
    let source = vec![0u8; 8];
    let out = Patcher::patch_bps(&source, &tiny_ips_patch(), &b"ips".to_vec()).unwrap();
    assert_eq!(out[0], 0xFF);
}

#[test]
fn ips_patch_applied_by_magic_bytes() {
    // the extension says nothing, but the magic bytes decide
    let source = vec![0u8; 8];
    let out = Patcher::patch_bps(&source, &tiny_ips_patch(), &b"bin".to_vec()).unwrap();
    assert_eq!(out[0], 0xFF);
}

#[test]
fn garbage_bps_patch_fails() {
    let source = vec![0u8; 8];
    let r = Patcher::patch_bps(&source, &b"certainly not a patch".to_vec(), &b"bps".to_vec());
    assert_eq!(r, Err(PatchError::BpsFailed));
}

#[test]
fn garbage_ips_patch_fails() {
    let source = vec![0u8; 8];
    let r = Patcher::patch_bps(&source, &b"PATCH but broken".to_vec(), &b"ips".to_vec());
    assert_eq!(r, Err(PatchError::IpsFailed));
}

#[test]
fn first_patch_entry_picked() {
    let names = vec![
        b"readme.txt".to_vec(),
        b"folder/hack.bps".to_vec(),
        b"other.ips".to_vec(),
    ];
    assert_eq!(Patcher::pick_patch_entry(&names), Some(1));
    let only_ips = vec![b"a.ips".to_vec()];
    assert_eq!(Patcher::pick_patch_entry(&only_ips), Some(0));
    let none = vec![b"readme.txt".to_vec(), b"image.png".to_vec()];
    assert_eq!(Patcher::pick_patch_entry(&none), None);
}

#[test]
fn readme_entry_prefers_the_named_one() {
    let names = vec![
        b"notes.txt".to_vec(),
        b"hack.bps".to_vec(),
        b"README.TXT".to_vec(),
    ];
    assert_eq!(Patcher::pick_readme_entry(&names), Some(2));
    let plain = vec![b"hack.bps".to_vec(), b"notes.txt".to_vec()];
    assert_eq!(Patcher::pick_readme_entry(&plain), Some(1));
    let none = vec![b"hack.bps".to_vec()];
    assert_eq!(Patcher::pick_readme_entry(&none), None);
}
