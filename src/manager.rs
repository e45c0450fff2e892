//! The manager's state (host, configurations, local catalog) and the decisions
//! taken on it: merging configuration, resolving the latest compatible image,
//! activation, removal, addition and updates.

use vstd::prelude::*;

use core::cmp::Ordering;

use crate::arch::{arch_from_name, Architecture};
use crate::config::{
    config_of, configs_view, lemma_config_of_none, lemma_config_of_prefix, lemma_filter_unique,
    merge_configs, unique_names, Config, ConfigView, Policy,
};
use crate::activation::{directory_step, link_name, prepare_directory, unlink_step, Entry};
use crate::image::{image_filename, parse_image, Image, ImageError, ImageView};
use crate::text::{str_eq, chars_of, ends_with_at, has_prefix, has_suffix, matches_at};
use crate::resolve::{
    latest_of, latest_result_view, lemma_latest_err_prefix, System, SystemView,
};
use crate::version::compare_versions;

verus! {

/// Why an operation on an extension failed.
#[derive(Debug, Clone, Copy, PartialEq, Eq, Structural)]
pub enum ManagerError {
    /// The host architecture is not supported.
    UnsupportedArchitecture,
    /// No configuration is loaded for the extension.
    NoConfig,
    /// The catalog holds no image of the extension.
    NoImages,
    /// No image of the extension matches the host.
    NoCompatibleImage,
    /// The remote manifest lists no image that matches the host.
    NoRemoteImage,
    /// Two versions could not be compared.
    InvalidVersion,
    /// A path that must be a directory is something else.
    NotADirectory,
    /// The activation path is taken by something that is not a symlink.
    Occupied,
    /// The extension is active and cannot be removed.
    Enabled,
    /// A configuration file already exists and overwriting was not asked for.
    ConfigExists,
    /// The activation policy is unknown.
    UnknownKind,
}

pub open spec fn images_view(is: Seq<Image>) -> Seq<ImageView> {
    is.map_values(|i: Image| i@)
}

/// The images of the catalog that belong to extension `name`, in catalog order.
pub open spec fn images_for(cat: Seq<ImageView>, name: Seq<char>) -> Seq<ImageView> {
    cat.filter(|i: ImageView| i.name == name)
}

/// The directory, relative to the root, that holds downloaded images.
pub const STORE_DIR: &'static str = "var/lib/extensions.d";

/// The directory, relative to the root, where activation links are created.
pub const RUNTIME_EXTENSIONS_DIR: &'static str = "run/extensions";

/// The target of an activation link to image `i`, relative to the link.
pub open spec fn link_target(i: ImageView) -> Seq<char> {
    "../../var/lib/extensions.d/"@ + image_filename(i)
}

/// The image that enabling `name` activates, or why there is none.
pub open spec fn enable_spec(
    sys: SystemView,
    cs: Seq<ConfigView>,
    cat: Seq<ImageView>,
    name: Seq<char>,
) -> Result<ImageView, ManagerError> {
    if config_of(cs, name) is None {
        Err(ManagerError::NoConfig)
    } else if images_for(cat, name).len() == 0 {
        Err(ManagerError::NoImages)
    } else {
        match latest_of(sys, images_for(cat, name)) {
            Err(e) => Err(e),
            Ok(None) => Err(ManagerError::NoCompatibleImage),
            Ok(Some(i)) => Ok(i),
        }
    }
}

/// A symlink to put in the activation directory.
#[derive(Debug)]
pub struct Link {
    /// The link's file name, `<name>.raw`.
    pub name: String,
    /// Where it points, relative to the activation directory.
    pub target: String,
}

/// `r` is the link that the resolution `s` of extension `name` calls for.
pub open spec fn link_matches(r: Result<Link, ManagerError>, s: Result<ImageView, ManagerError>, name: Seq<char>) -> bool {
    match s {
        Err(e) => r == Err::<Link, ManagerError>(e),
        Ok(i) => r matches Ok(l) && l.name@ == link_name(name) && l.target@ == link_target(i),
    }
}

/// The file name of the activation link of `name`.
pub fn activation_link_name(name: &str) -> (r: String)
    ensures
        r@ == link_name(name@),
{
    let mut r = name.to_owned();
    r.append(".raw");
    r
}

/// What scanning the store made of one of its entries.
#[derive(Debug, Clone, Copy, PartialEq, Eq, Structural)]
pub enum ScanOutcome {
    /// A leftover download (`.tmp`): to be deleted.
    Temporary,
    /// No configured extension claims it: left alone.
    Orphan,
    /// Claimed, but not a valid image filename: left alone.
    Invalid(ImageError),
    /// Added to the catalog.
    Added,
}

/// The first configured name, in load order, that `file` starts with.
pub open spec fn claim_of(cs: Seq<ConfigView>, file: Seq<char>) -> Option<Seq<char>>
    decreases cs.len(),
{
    if cs.len() == 0 {
        None
    } else {
        match claim_of(cs.drop_last(), file) {
            Some(n) => Some(n),
            None => if has_prefix(file, cs.last().name) {
                Some(cs.last().name)
            } else {
                None
            },
        }
    }
}

pub proof fn lemma_claim_prefix(cs: Seq<ConfigView>, file: Seq<char>, k: int)
    requires
        0 <= k <= cs.len(),
        claim_of(cs.take(k), file) is Some,
    ensures
        claim_of(cs, file) == claim_of(cs.take(k), file),
    decreases cs.len(),
{
    if k == cs.len() {
        assert(cs.take(k) =~= cs);
    } else {
        assert(cs.drop_last().take(k) =~= cs.take(k));
        lemma_claim_prefix(cs.drop_last(), file, k);
    }
}

/// What scanning makes of the store entry `file`.
pub open spec fn scan_outcome(cs: Seq<ConfigView>, file: Seq<char>) -> ScanOutcome {
    if has_suffix(file, ".tmp"@) {
        ScanOutcome::Temporary
    } else {
        match claim_of(cs, file) {
            None => ScanOutcome::Orphan,
            Some(n) => match parse_image(n, file, None) {
                Ok(_) => ScanOutcome::Added,
                Err(e) => ScanOutcome::Invalid(e),
            },
        }
    }
}

/// The image that the store entry `file` adds to the catalog, if any.
pub open spec fn scan_image(cs: Seq<ConfigView>, file: Seq<char>) -> Option<ImageView> {
    if has_suffix(file, ".tmp"@) {
        None
    } else {
        match claim_of(cs, file) {
            None => None,
            Some(n) => match parse_image(n, file, None) {
                Ok(i) => Some(i),
                Err(_) => None,
            },
        }
    }
}

/// The images that scanning the store entries `files` adds, in order.
pub open spec fn scanned_images(cs: Seq<ConfigView>, files: Seq<Seq<char>>) -> Seq<ImageView>
    decreases files.len(),
{
    if files.len() == 0 {
        Seq::empty()
    } else {
        let prev = scanned_images(cs, files.drop_last());
        match scan_image(cs, files.last()) {
            Some(i) => prev.push(i),
            None => prev,
        }
    }
}

/// The store filenames of a sequence of images.
pub open spec fn filenames(s: Seq<ImageView>) -> Seq<Seq<char>> {
    s.map_values(|i: ImageView| image_filename(i))
}

pub open spec fn strings_view(v: Seq<String>) -> Seq<Seq<char>> {
    v.map_values(|s: String| s@)
}

/// The configuration directories, relative to the root, highest priority first:
/// runtime override, persistent override, vendor default.
pub open spec fn config_dirs_spec() -> Seq<Seq<char>> {
    seq!["run/sysexts-manager"@, "etc/sysexts-manager"@, "usr/lib/sysexts-manager"@]
}

/// Every directory, relative to the root, where an activation link may live.
pub open spec fn activation_dirs_spec() -> Seq<Seq<char>> {
    seq!["run/extensions"@, "etc/extensions"@, "var/lib/extensions"@]
}

/// The configuration files of `name` that removal deletes: those of the two
/// mutable directories, never the vendor one.
pub open spec fn removable_configs(name: Seq<char>) -> Seq<Seq<char>> {
    seq![
        "run/sysexts-manager/"@ + name + ".conf"@,
        "etc/sysexts-manager/"@ + name + ".conf"@,
    ]
}

/// Where adding writes the configuration of `name`: the highest-priority
/// mutable directory.
pub open spec fn added_config_path(name: Seq<char>) -> Seq<char> {
    "run/sysexts-manager/"@ + name + ".conf"@
}

/// The configuration directories, highest priority first.
pub fn config_dirs() -> (r: Vec<String>)
    ensures
        strings_view(r@) == config_dirs_spec(),
{
    let r = vec![
        String::from_str("run/sysexts-manager"),
        String::from_str("etc/sysexts-manager"),
        String::from_str("usr/lib/sysexts-manager"),
    ];
    assert(strings_view(r@) =~= config_dirs_spec());
    r
}

/// Every directory where an activation link may live.
pub fn activation_dirs() -> (r: Vec<String>)
    ensures
        strings_view(r@) == activation_dirs_spec(),
{
    let r = vec![
        String::from_str("run/extensions"),
        String::from_str("etc/extensions"),
        String::from_str("var/lib/extensions"),
    ];
    assert(strings_view(r@) =~= activation_dirs_spec());
    r
}

/// What removing an extension deletes.
#[derive(Debug)]
pub struct RemovePlan {
    /// Store files, relative to the store directory.
    pub images: Vec<String>,
    /// Configuration files, relative to the root, to delete where they exist.
    pub configs: Vec<String>,
}

/// What adding an extension writes.
#[derive(Debug)]
pub struct AddPlan {
    /// Whether the configuration directory must be created first.
    pub create_dir: bool,
    /// The configuration file, relative to the root.
    pub path: String,
    /// The record to write there.
    pub config: Config,
}

/// The manager: the host, the merged configurations and the local catalog.
#[derive(Debug)]
pub struct Manager {
    system: System,
    configs: Vec<Config>,
    images: Vec<Image>,
    rootdir: String,
}

/// A manager for the tree under `root`, on a host whose platform reports
/// `arch_name` and whose release is `version_id`, with no configuration and
/// an empty catalog.
pub fn new_with_root(root: &str, arch_name: &str, version_id: &str) -> (r: Result<
    Manager,
    ManagerError,
>)
    ensures
        arch_from_name(arch_name@) is None <==> r is Err,
        r is Err ==> r == Err::<Manager, ManagerError>(ManagerError::UnsupportedArchitecture),
        r matches Ok(m) ==> {
            &&& m.wf()
            &&& arch_from_name(arch_name@) == Some(m.system_view().arch)
            &&& m.system_view().version_id == version_id@
            &&& m.configs_spec() == Seq::<ConfigView>::empty()
            &&& m.images_spec() == Seq::<ImageView>::empty()
            &&& m.root_spec() == root@
        },
{
    let arch = match Architecture::from_name(arch_name) {
        Some(a) => a,
        None => {
            return Err(ManagerError::UnsupportedArchitecture);
        },
    };
    let m = Manager {
        system: System { arch, version_id: version_id.to_owned() },
        configs: Vec::new(),
        images: Vec::new(),
        rootdir: root.to_owned(),
    };
    assert(m.configs_spec() =~= Seq::<ConfigView>::empty());
    assert(m.images_spec() =~= Seq::<ImageView>::empty());
    Ok(m)
}

/// A manager for the whole host (root `/`).
pub fn new(arch_name: &str, version_id: &str) -> (r: Result<Manager, ManagerError>)
    ensures
        arch_from_name(arch_name@) is None <==> r is Err,
        r is Err ==> r == Err::<Manager, ManagerError>(ManagerError::UnsupportedArchitecture),
        r matches Ok(m) ==> {
            &&& m.wf()
            &&& arch_from_name(arch_name@) == Some(m.system_view().arch)
            &&& m.system_view().version_id == version_id@
            &&& m.configs_spec() == Seq::<ConfigView>::empty()
            &&& m.images_spec() == Seq::<ImageView>::empty()
            &&& m.root_spec() == "/"@
        },
{
    new_with_root("/", arch_name, version_id)
}

impl Manager {
    pub closed spec fn system_view(&self) -> SystemView {
        self.system@
    }

    /// The loaded configurations, in load order.
    pub closed spec fn configs_spec(&self) -> Seq<ConfigView> {
        configs_view(self.configs@)
    }

    /// The local catalog, in scan order.
    pub closed spec fn images_spec(&self) -> Seq<ImageView> {
        images_view(self.images@)
    }

    pub closed spec fn root_spec(&self) -> Seq<char> {
        self.rootdir@
    }

    /// The manager's invariant: one configuration per name.
    pub open spec fn wf(&self) -> bool {
        unique_names(self.configs_spec())
    }

    /// The directory under which every path of the manager lies.
    pub fn rootdir(&self) -> (r: &str)
        ensures
            r@ == self.root_spec(),
    {
        self.rootdir.as_str()
    }

    /// The host facts.
    pub fn system(&self) -> (r: &System)
        ensures
            r@ == self.system_view(),
    {
        &self.system
    }

    /// The loaded configurations, in load order.
    pub fn configs(&self) -> (r: &Vec<Config>)
        ensures
            configs_view(r@) == self.configs_spec(),
    {
        &self.configs
    }

    /// Merges configurations found in priority order (highest first) into the
    /// loaded ones: the first record seen for a name wins. Reports, for each record
    /// found, whether it was taken (a later duplicate is not).
    pub fn load_config(&mut self, found: &Vec<Config>) -> (taken: Vec<bool>)
        requires
            old(self).wf(),
        ensures
            final(self).wf(),
            final(self).configs_spec() == merge_configs(old(self).configs_spec(), configs_view(found@)),
            final(self).images_spec() == old(self).images_spec(),
            final(self).system_view() == old(self).system_view(),
            final(self).root_spec() == old(self).root_spec(),
            taken@.len() == found@.len(),
            forall|i: int|
                0 <= i < found@.len() ==> taken@[i] == (config_of(
                    merge_configs(old(self).configs_spec(), configs_view(found@).take(i)),
                    found@[i]@.name,
                ) is None),
    {
        let ghost start = self.configs_spec();
        let ghost fv = configs_view(found@);
        let mut taken: Vec<bool> = Vec::new();
        let mut i: usize = 0;
        assert(fv.take(0) =~= Seq::<ConfigView>::empty());
        while i < found.len()
            invariant
                i <= found@.len(),
                fv == configs_view(found@),
                self.wf(),
                self.configs_spec() == merge_configs(start, fv.take(i as int)),
                self.images_spec() == old(self).images_spec(),
                self.system_view() == old(self).system_view(),
                self.root_spec() == old(self).root_spec(),
                taken@.len() == i,
                forall|k: int|
                    0 <= k < i ==> taken@[k] == (config_of(merge_configs(start, fv.take(k)), found@[k]@.name)
                        is None),
            decreases found@.len() - i,
        {
            assert(fv.take(i + 1).drop_last() =~= fv.take(i as int));
            let absent = self.config(found[i].Name.as_str()).is_none();
            if absent {
                let c = found[i].clone();
                proof {
                    lemma_config_of_none(self.configs_spec(), c@.name);
                }
                self.configs.push(c);
                assert(self.configs_spec() =~= merge_configs(start, fv.take(i as int)).push(c@));
            }
            taken.push(absent);
            i = i + 1;
        }
        assert(fv.take(i as int) =~= fv);
        taken
    }

    /// The images of the catalog that belong to `name`, in catalog order.
    pub fn images_of(&self, name: &str) -> (r: Vec<Image>)
        ensures
            images_view(r@) == images_for(self.images_spec(), name@),
    {
        let ghost cat = self.images_spec();
        let mut r: Vec<Image> = Vec::new();
        let mut i: usize = 0;
        proof {
            reveal(Seq::filter);
        }
        assert(cat.take(0) =~= Seq::<ImageView>::empty());
        while i < self.images.len()
            invariant
                i <= self.images@.len(),
                cat == self.images_spec(),
                images_view(r@) == images_for(cat.take(i as int), name@),
            decreases self.images@.len() - i,
        {
            proof {
                reveal(Seq::filter);
            }
            assert(cat.take(i + 1).drop_last() =~= cat.take(i as int));
            assert(cat.take(i + 1).last() == self.images@[i as int]@);
            if str_eq(self.images[i].name.as_str(), name) {
                let x = self.images[i].clone();
                r.push(x);
                assert(images_view(r@) =~= images_for(cat.take(i as int), name@).push(x@));
            }
            i = i + 1;
        }
        assert(cat.take(i as int) =~= cat);
        r
    }

    /// The latest image among `images` that may run on the host: the greatest
    /// version among the compatible ones, `None` when none is compatible, an error
    /// when two versions cannot be compared.
    pub fn find_latest_image(&self, _name: &str, images: &Vec<Image>) -> (r: Result<Option<Image>, ManagerError>)
        ensures
            latest_result_view(r) == latest_of(self.system_view(), images_view(images@)),
    {
        let ghost iv = images_view(images@);
        let mut latest: Option<usize> = None;
        let mut i: usize = 0;
        assert(iv.take(0) =~= Seq::<ImageView>::empty());
        while i < images.len()
            invariant
                i <= images@.len(),
                iv == images_view(images@),
                latest matches Some(k) ==> k < i,
                latest_of(self.system_view(), iv.take(i as int)) == Ok::<Option<ImageView>, ManagerError>(
                    match latest {
                        Some(k) => Some(iv[k as int]),
                        None => None,
                    },
                ),
            decreases images@.len() - i,
        {
            assert(iv.take(i + 1).drop_last() =~= iv.take(i as int));
            assert(iv.take(i + 1).last() == iv[i as int]);
            let x = &images[i];
            if x.architecture == self.system.arch && x.version_id == self.system.version_id {
                match latest {
                    None => {
                        latest = Some(i);
                    },
                    Some(k) => {
                        match compare_versions(x.version.as_str(), images[k].version.as_str()) {
                            Some(Ordering::Greater) => {
                                latest = Some(i);
                            },
                            Some(_) => {},
                            None => {
                                proof {
                                    lemma_latest_err_prefix(self.system_view(), iv, i + 1);
                                }
                                return Err(ManagerError::InvalidVersion);
                            },
                        }
                    },
                }
            }
            i = i + 1;
        }
        assert(iv.take(i as int) =~= iv);
        match latest {
            Some(k) => Ok(Some(images[k].clone())),
            None => Ok(None),
        }
    }

    /// The activation link for `name`: its configuration must be loaded, its
    /// catalog entry present and one of its images compatible with the host; the
    /// link points at the latest of those.
    pub fn enable(&self, name: &str) -> (r: Result<Link, ManagerError>)
        ensures
            link_matches(r, enable_spec(self.system_view(), self.configs_spec(), self.images_spec(), name@), name@),
    {
        let config = match self.config(name) {
            Some(c) => c,
            None => {
                return Err(ManagerError::NoConfig);
            },
        };
        match config.Kind {
            Policy::Latest => {},
        }
        let images = self.images_of(name);
        if images.len() == 0 {
            return Err(ManagerError::NoImages);
        }
        let image = match self.find_latest_image(name, &images) {
            Err(e) => {
                return Err(e);
            },
            Ok(None) => {
                return Err(ManagerError::NoCompatibleImage);
            },
            Ok(Some(i)) => i,
        };
        let mut target = String::from_str("../../var/lib/extensions.d/");
        let file = image.path();
        target.append(file.as_str());
        Ok(Link { name: activation_link_name(name), target })
    }

    /// The activation links of every configured extension, in configuration
    /// order; a failure for one extension does not stop the others.
    pub fn enable_all(&self) -> (r: Vec<(String, Result<Link, ManagerError>)>)
        ensures
            r@.len() == self.configs_spec().len(),
            forall|i: int|
                0 <= i < r@.len() ==> {
                    &&& (#[trigger] r@[i]).0@ == self.configs_spec()[i].name
                    &&& link_matches(
                        r@[i].1,
                        enable_spec(self.system_view(), self.configs_spec(), self.images_spec(), r@[i].0@),
                        r@[i].0@,
                    )
                },
    {
        let mut r: Vec<(String, Result<Link, ManagerError>)> = Vec::new();
        let mut i: usize = 0;
        while i < self.configs.len()
            invariant
                i <= self.configs@.len(),
                r@.len() == i,
                forall|k: int|
                    0 <= k < i ==> {
                        &&& (#[trigger] r@[k]).0@ == self.configs_spec()[k].name
                        &&& link_matches(
                            r@[k].1,
                            enable_spec(self.system_view(), self.configs_spec(), self.images_spec(), r@[k].0@),
                            r@[k].0@,
                        )
                    },
            decreases self.configs@.len() - i,
        {
            let name = self.configs[i].Name.clone();
            let link = self.enable(name.as_str());
            r.push((name, link));
            i = i + 1;
        }
        r
    }

    /// The activation link that disabling `name` looks at.
    pub fn disable(&self, name: &str) -> (r: String)
        ensures
            r@ == link_name(name@),
    {
        activation_link_name(name)
    }

    /// The activation links that disabling every configured extension looks at.
    pub fn disable_all(&self) -> (r: Vec<String>)
        ensures
            r@.len() == self.configs_spec().len(),
            forall|i: int| 0 <= i < r@.len() ==> (#[trigger] r@[i])@ == link_name(self.configs_spec()[i].name),
    {
        let mut r: Vec<String> = Vec::new();
        let mut i: usize = 0;
        while i < self.configs.len()
            invariant
                i <= self.configs@.len(),
                r@.len() == i,
                forall|k: int| 0 <= k < i ==> (#[trigger] r@[k])@ == link_name(self.configs_spec()[k].name),
            decreases self.configs@.len() - i,
        {
            r.push(activation_link_name(self.configs[i].Name.as_str()));
            i = i + 1;
        }
        r
    }

    /// The link to remove when disabling `name`, given what lies at its path:
    /// only a symlink is removed, and nothing there is no error.
    pub fn disable_one(&self, name: &str, existing: Entry) -> (r: Option<String>)
        ensures
            r is Some <==> existing == Entry::Symlink,
            r matches Some(l) ==> l@ == link_name(name@),
    {
        if unlink_step(existing) {
            Some(activation_link_name(name))
        } else {
            None
        }
    }

    /// The index of the first configuration, in load order, whose name `file`
    /// starts with.
    fn claim(&self, file: &Vec<char>) -> (r: Option<usize>)
        ensures
            match r {
                Some(k) => k < self.configs_spec().len() && claim_of(self.configs_spec(), file@) == Some(
                    self.configs_spec()[k as int].name,
                ),
                None => claim_of(self.configs_spec(), file@) is None,
            },
    {
        let ghost cs = self.configs_spec();
        let mut i: usize = 0;
        while i < self.configs.len()
            invariant
                i <= self.configs@.len(),
                cs == self.configs_spec(),
                claim_of(cs.take(i as int), file@) is None,
            decreases self.configs@.len() - i,
        {
            assert(cs.take(i + 1).drop_last() =~= cs.take(i as int));
            let name = chars_of(self.configs[i].Name.as_str());
            if matches_at(file, 0, &name) {
                proof {
                    lemma_claim_prefix(cs, file@, i + 1);
                }
                return Some(i);
            }
            i = i + 1;
        }
        assert(cs.take(i as int) =~= cs);
        None
    }

    /// Adds to the catalog the images found among the store entries `entries`,
    /// and says what became of each entry: a leftover download (`.tmp`) is to be
    /// deleted; an entry that no configured name prefixes is an orphan; one that
    /// the first such name claims is added if it parses as an image of it.
    pub fn load_images(&mut self, entries: &Vec<String>) -> (r: Vec<ScanOutcome>)
        requires
            old(self).wf(),
        ensures
            final(self).wf(),
            final(self).images_spec() == old(self).images_spec() + scanned_images(
                old(self).configs_spec(),
                strings_view(entries@),
            ),
            final(self).configs_spec() == old(self).configs_spec(),
            final(self).system_view() == old(self).system_view(),
            final(self).root_spec() == old(self).root_spec(),
            r@.len() == entries@.len(),
            forall|i: int|
                0 <= i < r@.len() ==> r@[i] == scan_outcome(old(self).configs_spec(), entries@[i]@),
    {
        let ghost start = self.images_spec();
        let ghost cs = self.configs_spec();
        let ghost ev = strings_view(entries@);
        let tmp = chars_of(".tmp");
        let mut r: Vec<ScanOutcome> = Vec::new();
        let mut i: usize = 0;
        assert(ev.take(0) =~= Seq::<Seq<char>>::empty());
        assert(start + Seq::<ImageView>::empty() =~= start);
        while i < entries.len()
            invariant
                i <= entries@.len(),
                ev == strings_view(entries@),
                tmp@ == ".tmp"@,
                self.wf(),
                cs == self.configs_spec(),
                self.images_spec() == start + scanned_images(cs, ev.take(i as int)),
                self.system_view() == old(self).system_view(),
                self.root_spec() == old(self).root_spec(),
                r@.len() == i,
                forall|k: int| 0 <= k < i ==> r@[k] == scan_outcome(cs, entries@[k]@),
            decreases entries@.len() - i,
        {
            assert(ev.take(i + 1).drop_last() =~= ev.take(i as int));
            assert(ev.take(i + 1).last() == entries@[i as int]@);
            let file = entries[i].as_str();
            let f = chars_of(file);
            assert(f@.subrange(0, f@.len() as int) =~= f@);
            if ends_with_at(&f, f.len(), &tmp) {
                r.push(ScanOutcome::Temporary);
            } else {
                match self.claim(&f) {
                    None => {
                        r.push(ScanOutcome::Orphan);
                    },
                    Some(k) => {
                        match Image::new(self.configs[k].Name.as_str(), file, None) {
                            Ok(image) => {
                                let ghost before = self.images_spec();
                                self.images.push(image);
                                assert(self.images_spec() =~= before.push(image@));
                                assert(start + scanned_images(cs, ev.take(i + 1)) =~= (start
                                    + scanned_images(cs, ev.take(i as int))).push(image@));
                                r.push(ScanOutcome::Added);
                            },
                            Err(e) => {
                                r.push(ScanOutcome::Invalid(e));
                            },
                        }
                    },
                }
            }
            i = i + 1;
        }
        assert(ev.take(i as int) =~= ev);
        r
    }

    /// Removes extension `name`: nothing to do without a configuration; refused
    /// while an activation link for it exists (`linked`), with nothing deleted;
    /// otherwise its configuration and catalog entries are dropped and the store
    /// files and mutable configuration files to delete are returned.
    pub fn remove_sysext(&mut self, name: &str, linked: bool) -> (r: Result<RemovePlan, ManagerError>)
        requires
            old(self).wf(),
        ensures
            final(self).wf(),
            final(self).system_view() == old(self).system_view(),
            final(self).root_spec() == old(self).root_spec(),
            config_of(old(self).configs_spec(), name@) is None ==> {
                &&& r matches Ok(p) && p.images@.len() == 0 && p.configs@.len() == 0
                &&& final(self).configs_spec() == old(self).configs_spec()
                &&& final(self).images_spec() == old(self).images_spec()
            },
            config_of(old(self).configs_spec(), name@) is Some && linked ==> {
                &&& r == Err::<RemovePlan, ManagerError>(ManagerError::Enabled)
                &&& final(self).configs_spec() == old(self).configs_spec()
                &&& final(self).images_spec() == old(self).images_spec()
            },
            config_of(old(self).configs_spec(), name@) is Some && !linked ==> {
                &&& r matches Ok(p) && strings_view(p.images@) == filenames(images_for(old(self).images_spec(), name@)) && strings_view(p.configs@)
                    == removable_configs(name@)
                &&& final(self).configs_spec() == old(self).configs_spec().filter(
                    |c: ConfigView| c.name != name@,
                )
                &&& final(self).images_spec() == old(self).images_spec().filter(
                    |i: ImageView| i.name != name@,
                )
            },
    {
        if self.config(name).is_none() {
            let p = RemovePlan { images: Vec::new(), configs: Vec::new() };
            return Ok(p);
        }
        if linked {
            return Err(ManagerError::Enabled);
        }
        let doomed = self.images_of(name);
        let mut files: Vec<String> = Vec::new();
        let mut i: usize = 0;
        while i < doomed.len()
            invariant
                i <= doomed@.len(),
                strings_view(files@) == filenames(images_view(doomed@).take(i as int)),
            decreases doomed@.len() - i,
        {
            let f = doomed[i].path();
            let ghost prev = files@;
            files.push(f);
            assert(images_view(doomed@)[i as int] == doomed@[i as int]@);
            assert(strings_view(files@) =~= strings_view(prev).push(f@));
            assert(filenames(images_view(doomed@).take(i + 1)) =~= filenames(images_view(doomed@).take(i as int)).push(image_filename(doomed@[i as int]@)));
            assert(strings_view(files@) =~= filenames(images_view(doomed@).take(i + 1)));
            i = i + 1;
        }
        assert(images_view(doomed@).take(i as int) =~= images_view(doomed@));
        let ghost cs = self.configs_spec();
        let ghost cat = self.images_spec();
        let mut kept_configs: Vec<Config> = Vec::new();
        let mut j: usize = 0;
        proof {
            reveal(Seq::filter);
        }
        assert(cs.take(0) =~= Seq::<ConfigView>::empty());
        while j < self.configs.len()
            invariant
                j <= self.configs@.len(),
                cs == self.configs_spec(),
                configs_view(kept_configs@) == cs.take(j as int).filter(|c: ConfigView| c.name != name@),
            decreases self.configs@.len() - j,
        {
            proof {
                reveal(Seq::filter);
            }
            assert(cs.take(j + 1).drop_last() =~= cs.take(j as int));
            assert(cs.take(j + 1).last() == self.configs@[j as int]@);
            if !str_eq(self.configs[j].Name.as_str(), name) {
                let c = self.configs[j].clone();
                kept_configs.push(c);
                assert(configs_view(kept_configs@) =~= cs.take(j as int).filter(
                    |c: ConfigView| c.name != name@,
                ).push(c@));
            }
            j = j + 1;
        }
        assert(cs.take(j as int) =~= cs);
        let mut kept_images: Vec<Image> = Vec::new();
        let mut k: usize = 0;
        assert(cat.take(0) =~= Seq::<ImageView>::empty());
        while k < self.images.len()
            invariant
                k <= self.images@.len(),
                cat == self.images_spec(),
                images_view(kept_images@) == cat.take(k as int).filter(|i: ImageView| i.name != name@),
            decreases self.images@.len() - k,
        {
            proof {
                reveal(Seq::filter);
            }
            assert(cat.take(k + 1).drop_last() =~= cat.take(k as int));
            assert(cat.take(k + 1).last() == self.images@[k as int]@);
            if !str_eq(self.images[k].name.as_str(), name) {
                let x = self.images[k].clone();
                kept_images.push(x);
                assert(images_view(kept_images@) =~= cat.take(k as int).filter(
                    |i: ImageView| i.name != name@,
                ).push(x@));
            }
            k = k + 1;
        }
        assert(cat.take(k as int) =~= cat);
        proof {
            lemma_filter_unique(cs, |c: ConfigView| c.name != name@);
        }
        self.configs = kept_configs;
        self.images = kept_images;
        let mut run_conf = String::from_str("run/sysexts-manager/");
        run_conf.append(name);
        run_conf.append(".conf");
        let mut etc_conf = String::from_str("etc/sysexts-manager/");
        etc_conf.append(name);
        etc_conf.append(".conf");
        let configs = vec![run_conf, etc_conf];
        assert(strings_view(configs@) =~= removable_configs(name@));
        Ok(RemovePlan { images: files, configs })
    }

    /// Adds a configuration for `name`: the kind must name a policy; the
    /// configuration directory is created when absent and must otherwise be a
    /// directory; an existing file is overwritten only when `force` is set.
    pub fn add_sysext(
        &self,
        name: &str,
        kind: &str,
        url: &str,
        dir: Entry,
        present: bool,
        force: bool,
    ) -> (r: Result<AddPlan, ManagerError>)
        ensures
            kind@ != "latest"@ ==> r == Err::<AddPlan, ManagerError>(ManagerError::UnknownKind),
            kind@ == "latest"@ && directory_step(dir) is Err ==> r == Err::<AddPlan, ManagerError>(
                ManagerError::NotADirectory,
            ),
            kind@ == "latest"@ && directory_step(dir) is Ok && present && !force ==> r == Err::<
                AddPlan,
                ManagerError,
            >(ManagerError::ConfigExists),
            kind@ == "latest"@ && directory_step(dir) is Ok && (!present || force) ==> {
                &&& r matches Ok(p)
                &&& p.create_dir == (dir == Entry::Absent)
                &&& p.path@ == added_config_path(name@)
                &&& p.config@ == (ConfigView { name: name@, kind: Policy::Latest, url: url@ })
            },
    {
        let config = match Config::new(name, kind, url) {
            Ok(c) => c,
            Err(_) => {
                return Err(ManagerError::UnknownKind);
            },
        };
        let create_dir = match prepare_directory(dir) {
            Ok(c) => c,
            Err(e) => {
                return Err(e);
            },
        };
        if present && !force {
            return Err(ManagerError::ConfigExists);
        }
        let mut path = String::from_str("run/sysexts-manager/");
        path.append(name);
        path.append(".conf");
        Ok(AddPlan { create_dir, path, config })
    }

    /// The configuration loaded for `name`, if any.
    pub fn config(&self, name: &str) -> (r: Option<&Config>)
        ensures
            match r {
                Some(c) => config_of(self.configs_spec(), name@) == Some(c@),
                None => config_of(self.configs_spec(), name@) is None,
            },
    {
        let mut i: usize = 0;
        while i < self.configs.len()
            invariant
                i <= self.configs@.len(),
                config_of(self.configs_spec().take(i as int), name@) is None,
            decreases self.configs@.len() - i,
        {
            assert(self.configs_spec().take(i + 1).drop_last() =~= self.configs_spec().take(i as int));
            if str_eq(self.configs[i].Name.as_str(), name) {
                proof {
                    lemma_config_of_prefix(self.configs_spec(), name@, i + 1);
                }
                return Some(&self.configs[i]);
            }
            i = i + 1;
        }
        assert(self.configs_spec().take(i as int) =~= self.configs_spec());
        None
    }
}

} // verus!
