use system76_support::control::{parse_stanza, Field};
use system76_support::matcher::{bytes_eq, qualify, split_words, PackageScan};

fn field(key: &str, value: &str) -> Field {
    Field { key: key.as_bytes().to_vec(), value: value.as_bytes().to_vec() }
}

fn names(list: &[&str]) -> Vec<Vec<u8>> {
    list.iter().map(|s| s.as_bytes().to_vec()).collect()
}

fn whitelist() -> Vec<Vec<u8>> {
    names(&["nvidia-container-runtime", "system76-driver-nvidia"])
}

#[test]
fn multi_arch_gives_qualified_and_bare() {
    let mut scan = PackageScan::new();
    let fs = vec![field("Package", "nvidia-driver-440"), field("Architecture", "amd64 all")];
    scan.add_stanza(&fs, b"nvidia", &whitelist());
    assert_eq!(scan.matched, names(&["nvidia-driver-440:amd64", "nvidia-driver-440"]));
    assert!(scan.reinstall.is_empty());
}

#[test]
fn no_architecture_gives_nothing() {
    let mut scan = PackageScan::new();
    let fs = vec![field("Package", "nvidia-container-runtime"), field("Status", "install ok installed")];
    scan.add_stanza(&fs, b"nvidia", &whitelist());
    assert!(scan.matched.is_empty());
    assert!(scan.reinstall.is_empty());
}

#[test]
fn substring_match_ignores_word_boundaries() {
    let mut scan = PackageScan::new();
    let fs = vec![field("Package", "libnvidia-common"), field("Architecture", "i386")];
    scan.add_stanza(&fs, b"nvidia", &whitelist());
    assert_eq!(scan.matched, names(&["libnvidia-common:i386"]));
    let upper = vec![field("Package", "NVIDIA-tools"), field("Architecture", "amd64")];
    scan.add_stanza(&upper, b"nvidia", &whitelist());
    assert_eq!(scan.matched, names(&["libnvidia-common:i386"]));
}

#[test]
fn architecture_as_first_field_is_not_read() {
    let mut scan = PackageScan::new();
    let fs = vec![field("Architecture", "nvidia-x")];
    scan.add_stanza(&fs, b"nvidia", &whitelist());
    assert!(scan.matched.is_empty());
}

#[test]
fn whitelisted_package_kept_once() {
    let mut scan = PackageScan::new();
    let fs = vec![field("Package", "nvidia-container-runtime"), field("Architecture", "amd64 i386")];
    scan.add_stanza(&fs, b"nvidia", &whitelist());
    scan.add_stanza(&fs, b"nvidia", &whitelist());
    assert_eq!(scan.reinstall, names(&["nvidia-container-runtime"]));
    assert_eq!(scan.matched.len(), 4);
}

#[test]
fn whitelisted_but_unmatched_not_kept() {
    let mut scan = PackageScan::new();
    let fs = vec![field("Package", "system76-driver"), field("Architecture", "all")];
    scan.add_stanza(&fs, b"nvidia", &names(&["system76-driver"]));
    assert!(scan.matched.is_empty());
    assert!(scan.reinstall.is_empty());
}

#[test]
fn scan_of_parsed_stanza() {
    let fs = parse_stanza(b"Package: nvidia-settings\nVersion: 1\nArchitecture: amd64").unwrap();
    let mut scan = PackageScan::new();
    scan.add_stanza(&fs, b"nvidia", &whitelist());
    assert_eq!(scan.matched, names(&["nvidia-settings:amd64"]));
}

#[test]
fn words_split_on_ascii_whitespace() {
    assert_eq!(split_words(b"  amd64\t i386\nall  "), names(&["amd64", "i386", "all"]));
    assert!(split_words(b"   ").is_empty());
    assert!(split_words(b"").is_empty());
}

#[test]
fn qualify_names() {
    assert_eq!(qualify(b"pkg", b"amd64"), b"pkg:amd64".to_vec());
    assert_eq!(qualify(b"pkg", b"all"), b"pkg".to_vec());
    assert_eq!(qualify(b"pkg", b"al"), b"pkg:al".to_vec());
}

#[test]
fn byte_equality() {
    assert!(bytes_eq(b"abc", b"abc"));
    assert!(!bytes_eq(b"abc", b"abd"));
    assert!(!bytes_eq(b"abc", b"ab"));
}
