use sysexts_manager_lib::activation::{link_step, prepare_directory, unlink_step, Entry, LinkStep};
use sysexts_manager_lib::config::{Config, ConfigError, Policy};
use sysexts_manager_lib::manager::{
    self,
    activation_dirs, activation_link_name, config_dirs, Manager, ManagerError, ScanOutcome,
};

fn config(name: &str, url: &str) -> Config {
    Config::new(name, "latest", url).unwrap()
}

fn manager_with(configs: Vec<Config>, files: &[&str]) -> Manager {
    let mut m = manager::new_with_root("/", "x86_64", "42").unwrap();
    m.load_config(&configs);
    let entries: Vec<String> = files.iter().map(|f| f.to_string()).collect();
    m.load_images(&entries);
    m
}

fn link_target(m: &Manager, name: &str) -> String {
    m.enable(name).unwrap().target
}

#[test]
fn enable_links_numerically_latest_version() {
    let m = manager_with(
        vec![config("foo", "https://example.com")],
        &["foo-1.4-42-x86-64.raw", "foo-1.10-42-x86-64.raw"],
    );
    let link = m.enable("foo").unwrap();
    assert_eq!(link.name, "foo.raw");
    assert_eq!(link.target, "../../var/lib/extensions.d/foo-1.10-42-x86-64.raw");
}

#[test]
fn enable_order_of_store_does_not_matter() {
    let m = manager_with(
        vec![config("foo", "u")],
        &["foo-3-42-x86-64.raw", "foo-1-42-x86-64.raw", "foo-2-42-x86-64.raw"],
    );
    assert_eq!(link_target(&m, "foo"), "../../var/lib/extensions.d/foo-3-42-x86-64.raw");
    let m = manager_with(
        vec![config("foo", "u")],
        &["foo-1-42-x86-64.raw", "foo-2-42-x86-64.raw", "foo-3-42-x86-64.raw"],
    );
    assert_eq!(link_target(&m, "foo"), "../../var/lib/extensions.d/foo-3-42-x86-64.raw");
}

#[test]
fn date_stamp_versions_compare_as_integers() {
    let m = manager_with(
        vec![config("bar", "u")],
        &["bar-20251120-42-x86-64.raw", "bar-20250330-42-x86-64.raw"],
    );
    assert_eq!(link_target(&m, "bar"), "../../var/lib/extensions.d/bar-20251120-42-x86-64.raw");
}

#[test]
fn incompatible_images_are_ignored_by_resolution() {
    let m = manager_with(
        vec![config("foo", "u")],
        &[
            "foo-9-42-arm64.raw",
            "foo-8-41-x86-64.raw",
            "foo-2-42-x86-64.raw",
        ],
    );
    assert_eq!(link_target(&m, "foo"), "../../var/lib/extensions.d/foo-2-42-x86-64.raw");
}

#[test]
fn no_compatible_image_resolves_to_none() {
    let m = manager_with(
        vec![config("foo", "u")],
        &["foo-9-42-arm64.raw", "foo-8-41-x86-64.raw"],
    );
    let images = m.images_of("foo");
    assert_eq!(images.len(), 2);
    assert!(m.find_latest_image("foo", &images).unwrap().is_none());
    assert_eq!(m.enable("foo").unwrap_err(), ManagerError::NoCompatibleImage);
}

#[test]
fn enable_errors_per_extension() {
    let m = manager_with(vec![config("foo", "u"), config("bar", "u")], &["foo-1-42-x86-64.raw"]);
    assert_eq!(m.enable("nope").unwrap_err(), ManagerError::NoConfig);
    assert_eq!(m.enable("bar").unwrap_err(), ManagerError::NoImages);
    let all = m.enable_all();
    assert_eq!(all.len(), 2);
    assert_eq!(all[0].0, "foo");
    assert_eq!(all[0].1.as_ref().unwrap().target, "../../var/lib/extensions.d/foo-1-42-x86-64.raw");
    assert_eq!(all[1].0, "bar");
    assert_eq!(*all[1].1.as_ref().unwrap_err(), ManagerError::NoImages);
}

#[test]
fn equal_versions_keep_the_first() {
    let m = manager_with(vec![config("foo", "u")], &["foo-1.0-42-x86-64.raw", "foo-1-42-x86-64.raw"]);
    assert_eq!(link_target(&m, "foo"), "../../var/lib/extensions.d/foo-1.0-42-x86-64.raw");
}

fn three_extensions(files: &[&str]) -> Vec<(String, Result<String, ManagerError>)> {
    let mut m = manager::new_with_root("/", "x86_64", "43").unwrap();
    m.load_config(&vec![config("foo", "u"), config("bar", "u"), config("duck", "u")]);
    let entries: Vec<String> = files.iter().map(|f| f.to_string()).collect();
    m.load_images(&entries);
    m.enable_all()
        .into_iter()
        .map(|(n, r)| (n, r.map(|l| l.target)))
        .collect()
}

fn expect_linked(outcomes: Vec<(String, Result<String, ManagerError>)>) {
    let expected = [
        ("foo", "foo-3-43-x86-64"),
        ("bar", "bar-20251120-43-x86-64"),
        ("duck", "duck-1.6.5-43-x86-64"),
    ];
    assert_eq!(outcomes.len(), 3);
    for ((name, result), (n, dest)) in outcomes.iter().zip(expected.iter()) {
        assert_eq!(name, n);
        assert_eq!(result.as_ref().unwrap(), &format!("../../var/lib/extensions.d/{dest}.raw"));
    }
}

#[test]
fn valid_version_latest() {
    expect_linked(three_extensions(&[
        "foo-1-43-x86-64.raw",
        "foo-3-43-x86-64.raw",
        "foo-2-43-x86-64.raw",
        "bar-20250330-43-x86-64.raw",
        "bar-20251120-43-x86-64.raw",
        "duck-1.6.5-43-x86-64.raw",
        "duck-1.6.4-43-x86-64.raw",
        "duck-1.5.10-43-x86-64.raw",
    ]));
}

#[test]
fn valid_current_release() {
    expect_linked(three_extensions(&[
        "foo-3-43-x86-64.raw",
        "foo-4-44-x86-64.raw",
        "bar-20251120-43-x86-64.raw",
        "bar-20260101-44-x86-64.raw",
        "duck-1.6.5-43-x86-64.raw",
        "duck-1.7.0-44-x86-64.raw",
    ]));
}

#[test]
fn valid_current_arch() {
    expect_linked(three_extensions(&[
        "foo-3-43-x86-64.raw",
        "foo-4-43-arm64.raw",
        "bar-20251120-43-x86-64.raw",
        "bar-20260101-43-arm64.raw",
        "duck-1.6.5-43-x86-64.raw",
        "duck-1.7.0-43-arm64.raw",
    ]));
}

#[test]
fn invalid_arch() {
    let outcomes = three_extensions(&[
        "foo-3-43-arm64.raw",
        "bar-20251120-43-arm64.raw",
        "duck-1.6.5-43-arm64.raw",
    ]);
    assert!(outcomes.iter().all(|(_, r)| r.is_err()));
}

#[test]
fn invalid_release() {
    let outcomes = three_extensions(&[
        "foo-3-42-x86-64.raw",
        "bar-20251120-42-x86-64.raw",
        "duck-1.6.5-42-x86-64.raw",
    ]);
    assert!(outcomes.iter().all(|(_, r)| r.is_err()));
}

#[test]
fn higher_priority_config_wins() {
    let mut m = manager::new_with_root("/", "x86_64", "42").unwrap();
    let taken = m.load_config(&vec![
        config("foo", "https://run.example.com"),
        config("foo", "https://etc.example.com"),
        config("bar", "https://bar.example.com"),
    ]);
    assert_eq!(taken, vec![true, false, true]);
    assert_eq!(m.config("foo").unwrap().Url, "https://run.example.com");
    assert_eq!(m.configs().len(), 2);
    let again = m.load_config(&vec![config("bar", "https://other.example.com")]);
    assert_eq!(again, vec![false]);
    assert_eq!(m.config("bar").unwrap().Url, "https://bar.example.com");
}

#[test]
fn add_then_load_observes_the_record() {
    let m = manager::new_with_root("/", "x86_64", "42").unwrap();
    let plan = m
        .add_sysext("foo", "latest", "https://example.com/ext", Entry::Absent, false, false)
        .unwrap();
    assert!(plan.create_dir);
    assert_eq!(plan.path, "run/sysexts-manager/foo.conf");
    let mut fresh = manager::new_with_root("/", "x86_64", "42").unwrap();
    fresh.load_config(&vec![plan.config]);
    let c = fresh.config("foo").unwrap();
    assert_eq!(c.Name, "foo");
    assert_eq!(c.Kind, Policy::Latest);
    assert_eq!(c.Url, "https://example.com/ext");
}

#[test]
fn add_refusals() {
    let m = manager::new_with_root("/", "x86_64", "42").unwrap();
    assert_eq!(
        m.add_sysext("foo", "oldest", "u", Entry::Directory, false, false).unwrap_err(),
        ManagerError::UnknownKind
    );
    assert_eq!(
        m.add_sysext("foo", "latest", "u", Entry::File, false, false).unwrap_err(),
        ManagerError::NotADirectory
    );
    assert_eq!(
        m.add_sysext("foo", "latest", "u", Entry::Directory, true, false).unwrap_err(),
        ManagerError::ConfigExists
    );
    let forced = m.add_sysext("foo", "latest", "u", Entry::Directory, true, true).unwrap();
    assert!(!forced.create_dir);
}

#[test]
fn remove_refused_while_linked() {
    let mut m = manager_with(
        vec![config("foo", "u"), config("bar", "u")],
        &["foo-1-42-x86-64.raw", "bar-1-42-x86-64.raw", "foo-2-42-arm64.raw"],
    );
    assert_eq!(m.remove_sysext("foo", true).unwrap_err(), ManagerError::Enabled);
    assert!(m.config("foo").is_some());
    assert_eq!(m.images_of("foo").len(), 2);

    let plan = m.remove_sysext("foo", false).unwrap();
    assert_eq!(plan.images, vec!["foo-1-42-x86-64.raw", "foo-2-42-arm64.raw"]);
    assert_eq!(plan.configs, vec!["run/sysexts-manager/foo.conf", "etc/sysexts-manager/foo.conf"]);
    assert!(m.config("foo").is_none());
    assert!(m.images_of("foo").is_empty());
    assert_eq!(m.images_of("bar").len(), 1);
    assert!(m.config("bar").is_some());

    let nothing = m.remove_sysext("foo", true).unwrap();
    assert!(nothing.images.is_empty() && nothing.configs.is_empty());
}

#[test]
fn activation_steps() {
    assert_eq!(link_step(Entry::Absent).unwrap(), LinkStep::Create);
    assert_eq!(link_step(Entry::Symlink).unwrap(), LinkStep::Replace);
    assert_eq!(link_step(Entry::File).unwrap_err(), ManagerError::Occupied);
    assert_eq!(link_step(Entry::Directory).unwrap_err(), ManagerError::Occupied);
    assert!(unlink_step(Entry::Symlink));
    assert!(!unlink_step(Entry::Absent));
    assert!(!unlink_step(Entry::File));
    assert_eq!(prepare_directory(Entry::Absent).unwrap(), true);
    assert_eq!(prepare_directory(Entry::Directory).unwrap(), false);
    assert_eq!(prepare_directory(Entry::Symlink).unwrap_err(), ManagerError::NotADirectory);
}

#[test]
fn enable_then_disable_twice() {
    let m = manager_with(vec![config("foo", "u")], &["foo-1-42-x86-64.raw"]);
    // Nothing at the link path: enabling creates it.
    let link = m.enable("foo").unwrap();
    assert_eq!(link_step(Entry::Absent).unwrap(), LinkStep::Create);
    // The link now exists: disabling removes it.
    assert_eq!(m.disable("foo"), link.name);
    assert_eq!(m.disable_one("foo", Entry::Symlink), Some("foo.raw".to_string()));
    // Gone: a second disable removes nothing.
    assert_eq!(m.disable_one("foo", Entry::Absent), None);
    assert_eq!(m.disable_all(), vec!["foo.raw"]);
    assert_eq!(activation_link_name("duck"), "duck.raw");
}

#[test]
fn store_scan_outcomes() {
    let mut m = manager::new_with_root("/", "x86_64", "42").unwrap();
    m.load_config(&vec![config("foo", "u"), config("foobar", "u")]);
    let entries: Vec<String> = [
        "foo-1-42-x86-64.raw.tmp",
        "other-1-42-x86-64.raw",
        "foo-1-42-x86-64.raw",
        "foo-1-42-i686.raw",
        "foobar-2-42-x86-64.raw",
    ]
    .iter()
    .map(|s| s.to_string())
    .collect();
    let outcomes = m.load_images(&entries);
    assert_eq!(outcomes[0], ScanOutcome::Temporary);
    assert_eq!(outcomes[1], ScanOutcome::Orphan);
    assert_eq!(outcomes[2], ScanOutcome::Added);
    assert_eq!(
        outcomes[3],
        ScanOutcome::Invalid(sysexts_manager_lib::image::ImageError::Architecture)
    );
    // "foo" is configured first and claims the file; the separator after the
    // name is not `-`, so it is no image of "foo".
    assert_eq!(
        outcomes[4],
        ScanOutcome::Invalid(sysexts_manager_lib::image::ImageError::Fields)
    );
    assert_eq!(m.images_of("foo").len(), 1);
    assert!(m.images_of("foobar").is_empty());
}

#[test]
fn unsupported_architecture() {
    assert_eq!(
        manager::new_with_root("/", "riscv64", "42").err(),
        Some(ManagerError::UnsupportedArchitecture)
    );
    let m = manager::new("aarch64", "41").unwrap();
    assert_eq!(m.rootdir(), "/");
    assert_eq!(m.system().version_id, "41");
}

#[test]
fn directory_lists() {
    assert_eq!(
        config_dirs(),
        vec!["run/sysexts-manager", "etc/sysexts-manager", "usr/lib/sysexts-manager"]
    );
    assert_eq!(
        activation_dirs(),
        vec!["run/extensions", "etc/extensions", "var/lib/extensions"]
    );
}

#[test]
fn config_kind_is_decoded() {
    assert_eq!(Config::new("foo", "newest", "u").unwrap_err(), ConfigError::UnknownKind);
    assert_eq!(Policy::from_name("latest"), Some(Policy::Latest));
    assert_eq!(Policy::Latest.to_string(), "latest");
    let c = config("foo", "https://e");
    let d = c.clone();
    assert_eq!(d.Name, "foo");
    assert_eq!(d.Url, "https://e");
}

#[test]
fn empty_configuration_and_store() {
    let mut m = manager::new_with_root("/", "x86_64", "42").unwrap();
    assert!(m.load_config(&Vec::new()).is_empty());
    assert!(m.configs().is_empty());
    assert!(m.load_images(&vec!["foo-1-42-x86-64.raw".to_string()]) == vec![ScanOutcome::Orphan]);
    assert!(m.enable_all().is_empty());
    assert!(m.disable_all().is_empty());
    assert_eq!(m.enable("foo").unwrap_err(), ManagerError::NoConfig);
}
