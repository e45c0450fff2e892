//! Updates: comparing the latest remote image with the latest local one, and
//! accepting a download only when its hash is the one the manifest declares.

use vstd::prelude::*;

use core::cmp::Ordering;

use crate::config::{Config, ConfigView};
use crate::image::{image_filename, Image, ImageView};
use crate::manager::{images_view, Manager, ManagerError};
use crate::resolve::{latest_of, SystemView};
use crate::manifest::{lines, manifest_images, parse_manifest};
use crate::text::str_eq;
use crate::version::{compare_versions, version_order};

verus! {

/// What an update of one extension comes to.
#[derive(Debug)]
pub enum UpdateDecision {
    /// The manifest lists no valid image: nothing to do.
    EmptyManifest,
    /// The latest local image has the latest remote version.
    UpToDate,
    /// The latest local image is newer than anything remote.
    LocalNewer,
    /// The latest remote image is to be downloaded.
    Download(Download),
}

/// A download to perform.
#[derive(Debug)]
pub struct Download {
    /// The image, with the hash the manifest declares.
    pub image: Image,
    /// Where to fetch it.
    pub url: String,
    /// The store file it is written to while it is fetched and hashed.
    pub temporary: String,
    /// The store file it is renamed to once its hash is verified.
    pub filename: String,
}

/// The mathematical value of an update decision: the image to download, if any.
pub enum UpdateView {
    EmptyManifest,
    UpToDate,
    LocalNewer,
    Download(ImageView),
}

/// The update of an extension whose local images are `local` and whose manifest
/// lists `remote`.
pub open spec fn update_spec(sys: SystemView, local: Seq<ImageView>, remote: Seq<ImageView>) -> Result<
    UpdateView,
    ManagerError,
> {
    if remote.len() == 0 {
        Ok(UpdateView::EmptyManifest)
    } else {
        match latest_of(sys, remote) {
            Err(e) => Err(e),
            Ok(None) => Err(ManagerError::NoRemoteImage),
            Ok(Some(rm)) => match latest_of(sys, local) {
                Err(e) => Err(e),
                Ok(None) => Ok(UpdateView::Download(rm)),
                Ok(Some(lm)) => match version_order(lm.version, rm.version) {
                    Some(Ordering::Less) => Ok(UpdateView::Download(rm)),
                    Some(Ordering::Equal) => Ok(UpdateView::UpToDate),
                    Some(Ordering::Greater) => Ok(UpdateView::LocalNewer),
                    None => Err(ManagerError::InvalidVersion),
                },
            },
        }
    }
}

/// The base of an extension's remote files: `<Url>/<Name>`.
pub open spec fn remote_base(c: ConfigView) -> Seq<char> {
    c.url + "/"@ + c.name
}

/// The manifest of an extension lies at `<Url>/<Name>/SHA256SUMS`.
pub open spec fn manifest_url_spec(c: ConfigView) -> Seq<char> {
    remote_base(c) + "/SHA256SUMS"@
}

/// `r` is the update that `s` describes for configuration `c`, with the download
/// fully described.
pub open spec fn decision_matches(
    r: Result<UpdateDecision, ManagerError>,
    s: Result<UpdateView, ManagerError>,
    c: ConfigView,
) -> bool {
    match s {
        Err(e) => r == Err::<UpdateDecision, ManagerError>(e),
        Ok(UpdateView::EmptyManifest) => r matches Ok(UpdateDecision::EmptyManifest),
        Ok(UpdateView::UpToDate) => r matches Ok(UpdateDecision::UpToDate),
        Ok(UpdateView::LocalNewer) => r matches Ok(UpdateDecision::LocalNewer),
        Ok(UpdateView::Download(i)) => r matches Ok(UpdateDecision::Download(d)) && {
            &&& d.image@ == i
            &&& d.url@ == remote_base(c) + "/"@ + image_filename(i)
            &&& d.filename@ == image_filename(i)
            &&& d.temporary@ == image_filename(i) + ".tmp"@
        },
    }
}

/// The URL of the manifest of `config`'s extension.
pub fn manifest_url(config: &Config) -> (r: String)
    ensures
        r@ == manifest_url_spec(config@),
{
    let mut r = config.Url.clone();
    r.append("/");
    r.append(config.Name.as_str());
    r.append("/SHA256SUMS");
    r
}

impl Manager {
    /// Decides the update of `config`'s extension, whose local images are
    /// `images`, from the text of its manifest.
    pub fn update_sysext(&self, config: &Config, images: &Vec<Image>, manifest: &str) -> (r: Result<
        UpdateDecision,
        ManagerError,
    >)
        ensures
            decision_matches(
                r,
                update_spec(
                    self.system_view(),
                    images_view(images@),
                    manifest_images(config@.name, lines(manifest@)),
                ),
                config@,
            ),
    {
        let name = config.Name.as_str();
        let remote_images = parse_manifest(name, manifest);
        if remote_images.len() == 0 {
            return Ok(UpdateDecision::EmptyManifest);
        }
        let remote = match self.find_latest_image(name, &remote_images) {
            Err(e) => {
                return Err(e);
            },
            Ok(None) => {
                return Err(ManagerError::NoRemoteImage);
            },
            Ok(Some(i)) => i,
        };
        match self.find_latest_image(name, images) {
            Err(e) => {
                return Err(e);
            },
            Ok(None) => {},
            Ok(Some(local)) => {
                match compare_versions(local.version.as_str(), remote.version.as_str()) {
                    Some(Ordering::Less) => {},
                    Some(Ordering::Equal) => {
                        return Ok(UpdateDecision::UpToDate);
                    },
                    Some(Ordering::Greater) => {
                        return Ok(UpdateDecision::LocalNewer);
                    },
                    None => {
                        return Err(ManagerError::InvalidVersion);
                    },
                }
            },
        }
        let filename = remote.path();
        let mut url = config.Url.clone();
        url.append("/");
        url.append(name);
        url.append("/");
        url.append(filename.as_str());
        let mut temporary = filename.clone();
        temporary.append(".tmp");
        Ok(UpdateDecision::Download(Download { image: remote, url, temporary, filename }))
    }
}

/// What becomes of a finished download.
#[derive(Debug)]
pub enum Completion {
    /// The hash matches: rename the temporary file to its final name.
    Install { temporary: String, filename: String },
    /// The hash differs: delete the temporary file; the final name never appears.
    Reject { temporary: String },
}

/// Accepts a download whose computed `digest` is the hash the manifest declares;
/// any other digest (or no declared hash) rejects it.
pub fn complete_download(download: &Download, digest: &str) -> (r: Completion)
    ensures
        download.image@.hash == Some(digest@) ==> (r matches Completion::Install { temporary, filename }
            && temporary@ == download.temporary@ && filename@ == download.filename@),
        download.image@.hash != Some(digest@) ==> (r matches Completion::Reject { temporary }
            && temporary@ == download.temporary@),
{
    let matches = match &download.image.hash {
        Some(h) => str_eq(h.as_str(), digest),
        None => false,
    };
    if matches {
        Completion::Install { temporary: download.temporary.clone(), filename: download.filename.clone() }
    } else {
        Completion::Reject { temporary: download.temporary.clone() }
    }
}

} // verus!
