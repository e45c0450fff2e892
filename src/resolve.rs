//! Resolution of the latest image that may run on the host.

use vstd::prelude::*;

use core::cmp::Ordering;

use crate::arch::Architecture;
use crate::image::{Image, ImageView};
use crate::manager::ManagerError;
use crate::version::version_order;

verus! {

/// The host facts that decide which images may run.
#[derive(Debug)]
pub struct System {
    pub arch: Architecture,
    pub version_id: String,
}

pub struct SystemView {
    pub arch: Architecture,
    pub version_id: Seq<char>,
}

impl View for System {
    type V = SystemView;

    open spec fn view(&self) -> SystemView {
        SystemView { arch: self.arch, version_id: self.version_id@ }
    }
}

/// An image may run on the host when its architecture and release match.
pub open spec fn compatible(sys: SystemView, i: ImageView) -> bool {
    i.architecture == sys.arch && i.version_id == sys.version_id
}

/// The resolution of the latest compatible image: a scan that keeps a running
/// maximum, replaces it by a strictly greater version, keeps it on an equal one,
/// and fails on versions that cannot be compared.
pub open spec fn latest_of(sys: SystemView, imgs: Seq<ImageView>) -> Result<Option<ImageView>, ManagerError>
    decreases imgs.len(),
{
    if imgs.len() == 0 {
        Ok(None)
    } else {
        let x = imgs.last();
        match latest_of(sys, imgs.drop_last()) {
            Err(e) => Err(e),
            Ok(None) => if compatible(sys, x) {
                Ok(Some(x))
            } else {
                Ok(None)
            },
            Ok(Some(m)) => if !compatible(sys, x) {
                Ok(Some(m))
            } else {
                match version_order(x.version, m.version) {
                    Some(Ordering::Greater) => Ok(Some(x)),
                    Some(_) => Ok(Some(m)),
                    None => Err(ManagerError::InvalidVersion),
                }
            },
        }
    }
}

/// A failed resolution on a prefix fails the whole resolution.
pub proof fn lemma_latest_err_prefix(sys: SystemView, imgs: Seq<ImageView>, k: int)
    requires
        0 <= k <= imgs.len(),
        latest_of(sys, imgs.take(k)) is Err,
    ensures
        latest_of(sys, imgs) == latest_of(sys, imgs.take(k)),
    decreases imgs.len(),
{
    if k == imgs.len() {
        assert(imgs.take(k) =~= imgs);
    } else {
        assert(imgs.drop_last().take(k) =~= imgs.take(k));
        lemma_latest_err_prefix(sys, imgs.drop_last(), k);
    }
}

/// Where an image is found, it is a compatible image of the list; nothing is
/// found only when no image of the list is compatible.
pub proof fn lemma_latest_found(sys: SystemView, imgs: Seq<ImageView>)
    ensures
        latest_of(sys, imgs) == Ok::<Option<ImageView>, ManagerError>(None) ==> forall|k: int|
            0 <= k < imgs.len() ==> !compatible(sys, imgs[k]),
        latest_of(sys, imgs) matches Ok(Some(m)) ==> exists|k: int|
            0 <= k < imgs.len() && imgs[k] == m && compatible(sys, m),
    decreases imgs.len(),
{
    if imgs.len() > 0 {
        let d = imgs.drop_last();
        lemma_latest_found(sys, d);
        assert forall|k: int| 0 <= k < d.len() implies d[k] == imgs[k] by {}
        if let Ok(Some(m)) = latest_of(sys, d) {
            let k = choose|k: int| 0 <= k < d.len() && d[k] == m && compatible(sys, m);
            assert(imgs[k] == m);
        }
    }
}

/// When no image matches the host's architecture and release, resolution finds
/// nothing, whatever other images are present.
pub proof fn lemma_latest_none_without_compatible(sys: SystemView, imgs: Seq<ImageView>)
    requires
        forall|k: int| 0 <= k < imgs.len() ==> !compatible(sys, imgs[k]),
    ensures
        latest_of(sys, imgs) == Ok::<Option<ImageView>, ManagerError>(None),
    decreases imgs.len(),
{
    if imgs.len() > 0 {
        let d = imgs.drop_last();
        assert forall|k: int| 0 <= k < d.len() implies !compatible(sys, d[k]) by {
            assert(d[k] == imgs[k]);
        }
        lemma_latest_none_without_compatible(sys, d);
    }
}

/// The order of two integers.
pub open spec fn int_order(a: int, b: int) -> Ordering {
    if a < b {
        Ordering::Less
    } else if a == b {
        Ordering::Equal
    } else {
        Ordering::Greater
    }
}

/// On the compatible images of `imgs`, the version order is the order of `rank`
/// on their versions: a total preorder.
pub open spec fn ranked_by(sys: SystemView, imgs: Seq<ImageView>, rank: spec_fn(Seq<char>) -> int) -> bool {
    forall|a: int, b: int|
        0 <= a < imgs.len() && 0 <= b < imgs.len() && compatible(sys, imgs[a]) && compatible(
            sys,
            imgs[b],
        ) ==> #[trigger] version_order(imgs[a].version, imgs[b].version) == Some(
            int_order(rank(imgs[a].version), rank(imgs[b].version)),
        )
}

/// Where the versions of the compatible images are totally ordered, resolution
/// succeeds and what it finds is ranked at least as high as every compatible image.
pub proof fn lemma_latest_is_greatest(sys: SystemView, imgs: Seq<ImageView>, rank: spec_fn(Seq<char>) -> int)
    requires
        ranked_by(sys, imgs, rank),
    ensures
        latest_of(sys, imgs) is Ok,
        latest_of(sys, imgs) matches Ok(Some(m)) ==> forall|k: int|
            0 <= k < imgs.len() && compatible(sys, imgs[k]) ==> rank(imgs[k].version) <= rank(m.version),
    decreases imgs.len(),
{
    if imgs.len() > 0 {
        let d = imgs.drop_last();
        let x = imgs.last();
        assert forall|k: int| 0 <= k < d.len() implies d[k] == imgs[k] by {}
        assert(ranked_by(sys, d, rank)) by {
            assert forall|a: int, b: int|
                0 <= a < d.len() && 0 <= b < d.len() && compatible(sys, d[a]) && compatible(sys, d[b])
                implies #[trigger] version_order(d[a].version, d[b].version) == Some(
                int_order(rank(d[a].version), rank(d[b].version)),
            ) by {
                assert(version_order(imgs[a].version, imgs[b].version) == Some(
                    int_order(rank(imgs[a].version), rank(imgs[b].version)),
                ));
            }
        }
        lemma_latest_is_greatest(sys, d, rank);
        lemma_latest_found(sys, d);
        if let Ok(Some(mp)) = latest_of(sys, d) {
            let kp = choose|k: int| 0 <= k < d.len() && d[k] == mp && compatible(sys, mp);
            if compatible(sys, x) {
                assert(version_order(imgs[imgs.len() - 1].version, imgs[kp].version) == Some(
                    int_order(rank(imgs[imgs.len() - 1].version), rank(imgs[kp].version)),
                ));
            }
        }
    }
}

/// Of two compatible images where the first has the lower version, resolution
/// never returns the first, provided versions are totally ordered.
pub proof fn lemma_latest_never_older(
    sys: SystemView,
    imgs: Seq<ImageView>,
    rank: spec_fn(Seq<char>) -> int,
    i: int,
    j: int,
)
    requires
        ranked_by(sys, imgs, rank),
        0 <= i < imgs.len(),
        0 <= j < imgs.len(),
        compatible(sys, imgs[i]),
        compatible(sys, imgs[j]),
        version_order(imgs[i].version, imgs[j].version) == Some(Ordering::Less),
    ensures
        latest_of(sys, imgs) != Ok::<Option<ImageView>, ManagerError>(Some(imgs[i])),
{
    lemma_latest_is_greatest(sys, imgs, rank);
    assert(version_order(imgs[i].version, imgs[j].version) == Some(
        int_order(rank(imgs[i].version), rank(imgs[j].version)),
    ));
}

pub open spec fn latest_result_view(r: Result<Option<Image>, ManagerError>) -> Result<
    Option<ImageView>,
    ManagerError,
> {
    match r {
        Ok(Some(i)) => Ok(Some(i@)),
        Ok(None) => Ok(None),
        Err(e) => Err(e),
    }
}

} // verus!
