use sysexts_manager_lib::config::Config;
use sysexts_manager_lib::manager::{self, Manager, ManagerError};
use sysexts_manager_lib::update::{complete_download, manifest_url, Completion, UpdateDecision};

fn setup(local: &[&str]) -> (Manager, Config) {
    let c = Config::new("foo", "latest", "https://example.com/sysexts").unwrap();
    let mut m = manager::new_with_root("/", "x86_64", "42").unwrap();
    m.load_config(&vec![c.clone()]);
    let entries: Vec<String> = local.iter().map(|f| f.to_string()).collect();
    m.load_images(&entries);
    (m, c)
}

fn decide(local: &[&str], manifest: &str) -> Result<UpdateDecision, ManagerError> {
    let (m, c) = setup(local);
    let images = m.images_of("foo");
    m.update_sysext(&c, &images, manifest)
}

#[test]
fn hash_mismatch_is_rejected() {
    let d = match decide(&[], "abc123  foo-2.0-42-x86-64.raw\n").unwrap() {
        UpdateDecision::Download(d) => d,
        _ => panic!("a download was expected"),
    };
    assert_eq!(d.image.hash.as_deref(), Some("abc123"));
    assert_eq!(d.filename, "foo-2.0-42-x86-64.raw");
    assert_eq!(d.temporary, "foo-2.0-42-x86-64.raw.tmp");
    assert_eq!(d.url, "https://example.com/sysexts/foo/foo-2.0-42-x86-64.raw");
    match complete_download(&d, "def456") {
        Completion::Reject { temporary } => assert_eq!(temporary, "foo-2.0-42-x86-64.raw.tmp"),
        Completion::Install { .. } => panic!("a mismatching hash must not be installed"),
    }
    match complete_download(&d, "abc123") {
        Completion::Install { temporary, filename } => {
            assert_eq!(temporary, "foo-2.0-42-x86-64.raw.tmp");
            assert_eq!(filename, "foo-2.0-42-x86-64.raw");
        }
        Completion::Reject { .. } => panic!("a matching hash must be installed"),
    }
}

#[test]
fn update_decisions() {
    let manifest = "h1  foo-1.4-42-x86-64.raw\nh2  foo-1.10-42-x86-64.raw\nh3  foo-9-42-arm64.raw\n";
    match decide(&["foo-1.4-42-x86-64.raw"], manifest).unwrap() {
        UpdateDecision::Download(d) => {
            assert_eq!(d.filename, "foo-1.10-42-x86-64.raw");
            assert_eq!(d.image.hash.as_deref(), Some("h2"));
        }
        _ => panic!("an update was expected"),
    }
    assert!(matches!(
        decide(&["foo-1.10-42-x86-64.raw"], manifest).unwrap(),
        UpdateDecision::UpToDate
    ));
    assert!(matches!(
        decide(&["foo-2-42-x86-64.raw"], manifest).unwrap(),
        UpdateDecision::LocalNewer
    ));
    assert!(matches!(decide(&[], "garbage\n").unwrap(), UpdateDecision::EmptyManifest));
    assert_eq!(
        decide(&[], "h  foo-1-41-x86-64.raw\n").err(),
        Some(ManagerError::NoRemoteImage)
    );
}

#[test]
fn manifest_location() {
    let c = Config::new("foo", "latest", "https://example.com/sysexts").unwrap();
    assert_eq!(manifest_url(&c), "https://example.com/sysexts/foo/SHA256SUMS");
}

