//! Images and the filename grammar `<name>-<version>-<releaseId>-<arch>.raw`.

use vstd::prelude::*;

use crate::arch::Architecture;
use crate::text::{
    chars_of, count_char, count_in, ends_with_at, lemma_count_concat, has_prefix, has_suffix, last_index_in,
    last_index_of, lemma_last_index_bounds, matches_at, string_of,
};
use crate::version::{version_is_valid, version_parses};

verus! {

/// Why a filename is not an image of a given extension.
#[derive(Debug, Clone, Copy, PartialEq, Eq, Structural)]
pub enum ImageError {
    /// The filename does not start with the extension's name.
    NamePrefix,
    /// The filename does not end with `.raw`.
    Extension,
    /// The filename names neither supported architecture.
    Architecture,
    /// The filename does not split into name, version and release.
    Fields,
    /// The version field is not a valid version number.
    Version,
}

/// An image of an extension, found in the local store (no hash) or listed in a
/// remote manifest (with the hash it declares).
#[derive(Debug)]
pub struct Image {
    pub name: String,
    pub architecture: Architecture,
    pub version_id: String,
    pub version: String,
    pub hash: Option<String>,
}

/// The mathematical value of an image.
pub struct ImageView {
    pub name: Seq<char>,
    pub architecture: Architecture,
    pub version_id: Seq<char>,
    pub version: Seq<char>,
    pub hash: Option<Seq<char>>,
}

pub open spec fn opt_string_view(s: Option<String>) -> Option<Seq<char>> {
    match s {
        Some(h) => Some(h@),
        None => None,
    }
}

impl View for Image {
    type V = ImageView;

    open spec fn view(&self) -> ImageView {
        ImageView {
            name: self.name@,
            architecture: self.architecture,
            version_id: self.version_id@,
            version: self.version@,
            hash: opt_string_view(self.hash),
        }
    }
}

pub open spec fn image_result_view(r: Result<Image, ImageError>) -> Result<ImageView, ImageError> {
    match r {
        Ok(i) => Ok(i@),
        Err(e) => Err(e),
    }
}

/// The architecture tag that ends an image filename, before `.raw`.
pub open spec fn arch_suffix(a: Architecture) -> Seq<char> {
    match a {
        Architecture::x86_64 => "-x86-64"@,
        Architecture::aarch64 => "-arm64"@,
    }
}

/// The architecture whose tag ends `base`, trying x86-64 first.
pub open spec fn arch_of(base: Seq<char>) -> Option<Architecture> {
    if has_suffix(base, "-x86-64"@) {
        Some(Architecture::x86_64)
    } else if has_suffix(base, "-arm64"@) {
        Some(Architecture::aarch64)
    } else {
        None
    }
}

/// The filename of an image in the store.
pub open spec fn image_filename(i: ImageView) -> Seq<char> {
    i.name + "-"@ + i.version + "-"@ + i.version_id + arch_suffix(i.architecture) + ".raw"@
}

/// The split of `stem` (the filename without architecture tag and extension): the
/// release is what follows the last `-`, the version what lies between the name,
/// with its `-` separator, and that last `-`.
pub open spec fn split_stem(
    name: Seq<char>,
    stem: Seq<char>,
    arch: Architecture,
    hash: Option<Seq<char>>,
) -> Result<ImageView, ImageError> {
    let dash = last_index_of(stem, '-');
    let rest = stem.subrange(0, dash);
    if count_char(stem, '-') < 2 || rest.len() <= name.len() || rest[name.len() as int] != '-' {
        Err(ImageError::Fields)
    } else {
        let version = rest.subrange(name.len() as int + 1, rest.len() as int);
        if !version_parses(version) {
            Err(ImageError::Version)
        } else {
            Ok(
                ImageView {
                    name,
                    architecture: arch,
                    version_id: stem.subrange(dash + 1, stem.len() as int),
                    version,
                    hash,
                },
            )
        }
    }
}

/// What a filename says of an image of extension `name`, or why it says nothing.
pub open spec fn parse_image(name: Seq<char>, file: Seq<char>, hash: Option<Seq<char>>) -> Result<
    ImageView,
    ImageError,
> {
    if !has_prefix(file, name) {
        Err(ImageError::NamePrefix)
    } else if !has_suffix(file, ".raw"@) {
        Err(ImageError::Extension)
    } else {
        let base = file.subrange(0, file.len() - ".raw"@.len());
        match arch_of(base) {
            None => Err(ImageError::Architecture),
            Some(a) => split_stem(
                name,
                base.subrange(0, base.len() - arch_suffix(a).len()),
                a,
                hash,
            ),
        }
    }
}

/// A filename built from an image parses back to that image: names and versions
/// may hold `-`, the release may not, and the version must be valid.
pub proof fn lemma_filename_round_trip(i: ImageView, hash: Option<Seq<char>>)
    requires
        version_parses(i.version),
        forall|k: int| 0 <= k < i.version_id.len() ==> i.version_id[k] != '-',
    ensures
        parse_image(i.name, image_filename(i), hash) == Ok::<ImageView, ImageError>(
            ImageView { hash, ..i },
        ),
{
    reveal_strlit("-x86-64");
    reveal_strlit("-arm64");
    reveal_strlit(".raw");
    reveal_strlit("-");
    let dash = "-"@;
    let stem = i.name + dash + i.version + dash + i.version_id;
    let base = stem + arch_suffix(i.architecture);
    let f = base + ".raw"@;
    assert(f == image_filename(i));
    assert(f.subrange(0, i.name.len() as int) =~= i.name);
    assert(f.subrange(f.len() - 4, f.len() as int) =~= ".raw"@);
    assert(f.subrange(0, f.len() - 4) =~= base);
    match i.architecture {
        Architecture::x86_64 => {
            assert(base.subrange(base.len() - 7, base.len() as int) =~= "-x86-64"@);
        },
        Architecture::aarch64 => {
            assert(base.subrange(base.len() - 6, base.len() as int) =~= "-arm64"@);
            assert(base[base.len() - 3] == 'm');
            if base.len() >= 7 {
                assert(base.subrange(base.len() - 7, base.len() as int)[4] == 'm');
            }
        },
    }
    assert(arch_of(base) == Some(i.architecture));
    assert(base.subrange(0, base.len() - arch_suffix(i.architecture).len()) =~= stem);
    lemma_count_concat(i.name + dash + i.version + dash, i.version_id, '-');
    lemma_count_concat(i.name + dash + i.version, dash, '-');
    lemma_count_concat(i.name + dash, i.version, '-');
    lemma_count_concat(i.name, dash, '-');
    assert(dash.len() == 1 && dash[0] == '-');
    assert(dash.drop_last() =~= Seq::<char>::empty());
    assert(count_char(Seq::<char>::empty(), '-') == 0);
    assert(count_char(dash, '-') == count_char(dash.drop_last(), '-') + 1);
    assert(count_char(dash, '-') == 1);
    let idx = i.name.len() as int + 1 + i.version.len() as int;
    assert(stem[idx] == '-');
    assert forall|k: int| idx < k < stem.len() implies stem[k] != '-' by {
        assert(stem[k] == i.version_id[k - idx - 1]);
    }
    crate::text::lemma_last_index_of(stem, '-', idx);
    let rest = stem.subrange(0, idx);
    assert(rest =~= i.name + dash + i.version);
    assert(rest[i.name.len() as int] == '-');
    assert(rest.subrange(i.name.len() as int + 1, rest.len() as int) =~= i.version);
    assert(stem.subrange(idx + 1, stem.len() as int) =~= i.version_id);
}

impl Clone for Image {
    fn clone(&self) -> (r: Image)
        ensures
            r@ == self@,
    {
        let hash = match &self.hash {
            Some(h) => Some(h.clone()),
            None => None,
        };
        Image {
            name: self.name.clone(),
            architecture: self.architecture,
            version_id: self.version_id.clone(),
            version: self.version.clone(),
            hash,
        }
    }
}

impl Image {
    /// Parses `filename` as an image of the extension `name`, carrying `hash`.
    pub fn new(name: &str, filename: &str, hash: Option<String>) -> (r: Result<Image, ImageError>)
        ensures
            image_result_view(r) == parse_image(name@, filename@, opt_string_view(hash)),
    {
        let f = chars_of(filename);
        let nm = chars_of(name);
        if !matches_at(&f, 0, &nm) {
            return Err(ImageError::NamePrefix);
        }
        let raw = chars_of(".raw");
        if !ends_with_at(&f, f.len(), &raw) {
            assert(f@.subrange(0, f@.len() as int) =~= f@);
            return Err(ImageError::Extension);
        }
        assert(f@.subrange(0, f@.len() as int) =~= f@);
        let base_end = f.len() - raw.len();
        let ghost base = f@.subrange(0, base_end as int);
        let x86 = chars_of("-x86-64");
        let arm = chars_of("-arm64");
        let arch;
        let stem_end;
        if ends_with_at(&f, base_end, &x86) {
            arch = Architecture::x86_64;
            stem_end = base_end - x86.len();
        } else if ends_with_at(&f, base_end, &arm) {
            arch = Architecture::aarch64;
            stem_end = base_end - arm.len();
        } else {
            return Err(ImageError::Architecture);
        }
        let ghost stem = f@.subrange(0, stem_end as int);
        assert(base.subrange(0, base.len() - arch_suffix(arch).len()) =~= stem);
        let dashes = count_in(&f, stem_end, '-');
        let last = last_index_in(&f, stem_end, '-');
        proof {
            lemma_last_index_bounds(stem, '-');
        }
        let dash = match last {
            Some(d) => d,
            None => {
                proof {
                    crate::text::lemma_no_index_of(stem, '-');
                }
                return Err(ImageError::Fields);
            },
        };
        if dashes < 2 || dash <= nm.len() {
            return Err(ImageError::Fields);
        }
        assert(stem.subrange(0, dash as int)[nm@.len() as int] == f@[nm@.len() as int]);
        if f[nm.len()] != '-' {
            return Err(ImageError::Fields);
        }
        let version = string_of(&f, nm.len() + 1, dash);
        let version_id = string_of(&f, dash + 1, stem_end);
        let name_s = string_of(&f, 0, nm.len());
        assert(f@.subrange(0, nm@.len() as int) == nm@);
        assert(version@ =~= stem.subrange(0, dash as int).subrange(nm@.len() as int + 1, dash as int));
        assert(version_id@ =~= stem.subrange(dash + 1, stem.len() as int));
        if !version_is_valid(version.as_str()) {
            return Err(ImageError::Version);
        }
        Ok(Image { name: name_s, architecture: arch, version_id, version, hash })
    }

    /// The filename of this image in the store.
    pub fn path(&self) -> (r: String)
        ensures
            r@ == image_filename(self@),
    {
        let mut r = self.name.clone();
        r.append("-");
        r.append(self.version.as_str());
        r.append("-");
        r.append(self.version_id.as_str());
        match self.architecture {
            Architecture::x86_64 => r.append("-x86-64"),
            Architecture::aarch64 => r.append("-arm64"),
        }
        r.append(".raw");
        r
    }
}

} // verus!
