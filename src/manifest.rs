//! The remote manifest: UTF-8 text, one record per line, `<sha256-hex>  <filename>`.

use vstd::prelude::*;

use crate::image::{parse_image, Image, ImageView};
use crate::manager::images_view;
use crate::text::{chars_of, string_of};

verus! {

/// Index of the first `c` in `s`, or -1.
pub open spec fn first_index_of(s: Seq<char>, c: char) -> int
    decreases s.len(),
{
    if s.len() == 0 {
        -1
    } else if s[0] == c {
        0
    } else {
        let r = first_index_of(s.drop_first(), c);
        if r < 0 {
            -1
        } else {
            r + 1
        }
    }
}

/// A two-space separator starts at `k`.
pub open spec fn separator_at(s: Seq<char>, k: int) -> bool {
    0 <= k && k + 1 < s.len() && s[k] == ' ' && s[k + 1] == ' '
}

/// Index of the first two-space separator in `s`, or -1.
pub open spec fn first_separator(s: Seq<char>) -> int
    decreases s.len(),
{
    if s.len() < 2 {
        -1
    } else if s[0] == ' ' && s[1] == ' ' {
        0
    } else {
        let r = first_separator(s.drop_first());
        if r < 0 {
            -1
        } else {
            r + 1
        }
    }
}

pub proof fn lemma_first_index_at(s: Seq<char>, c: char, k: int)
    requires
        0 <= k < s.len(),
        s[k] == c,
        forall|j: int| 0 <= j < k ==> s[j] != c,
    ensures
        first_index_of(s, c) == k,
    decreases k,
{
    if k > 0 {
        assert forall|j: int| 0 <= j < k - 1 implies s.drop_first()[j] != c by {
            assert(s.drop_first()[j] == s[j + 1]);
        }
        lemma_first_index_at(s.drop_first(), c, k - 1);
    }
}

pub proof fn lemma_first_index_none(s: Seq<char>, c: char)
    requires
        forall|j: int| 0 <= j < s.len() ==> s[j] != c,
    ensures
        first_index_of(s, c) == -1,
    decreases s.len(),
{
    if s.len() > 0 {
        assert forall|j: int| 0 <= j < s.len() - 1 implies s.drop_first()[j] != c by {
            assert(s.drop_first()[j] == s[j + 1]);
        }
        lemma_first_index_none(s.drop_first(), c);
    }
}

pub proof fn lemma_first_separator_at(s: Seq<char>, k: int)
    requires
        separator_at(s, k),
        forall|j: int| 0 <= j < k ==> !separator_at(s, j),
    ensures
        first_separator(s) == k,
    decreases k,
{
    if k > 0 {
        assert(!separator_at(s, 0));
        let d = s.drop_first();
        assert forall|j: int| 0 <= j < k - 1 implies !separator_at(d, j) by {
            assert(!separator_at(s, j + 1));
            assert(d[j] == s[j + 1] && d[j + 1] == s[j + 2]);
        }
        assert(d[k - 1] == s[k] && d[k] == s[k + 1]);
        lemma_first_separator_at(d, k - 1);
    }
}

pub proof fn lemma_first_separator_none(s: Seq<char>)
    requires
        forall|j: int| 0 <= j < s.len() ==> !separator_at(s, j),
    ensures
        first_separator(s) == -1,
    decreases s.len(),
{
    if s.len() >= 2 {
        assert(!separator_at(s, 0));
        let d = s.drop_first();
        assert forall|j: int| 0 <= j < d.len() implies !separator_at(d, j) by {
            assert(!separator_at(s, j + 1));
            if j + 1 < d.len() {
                assert(d[j] == s[j + 1] && d[j + 1] == s[j + 2]);
            }
        }
        lemma_first_separator_none(d);
    }
}

/// A line without the `\r` of a `\r\n` ending.
pub open spec fn strip_cr(l: Seq<char>) -> Seq<char> {
    if l.len() > 0 && l.last() == '\r' {
        l.drop_last()
    } else {
        l
    }
}

/// The lines of a text: split at `\n` (a `\r` before it is dropped), the final
/// line ending being optional.
pub open spec fn lines(s: Seq<char>) -> Seq<Seq<char>>
    decreases s.len(),
{
    let k = first_index_of(s, '\n');
    if s.len() == 0 {
        Seq::empty()
    } else if k < 0 || k >= s.len() {
        seq![s]
    } else {
        seq![strip_cr(s.subrange(0, k))] + lines(s.subrange(k + 1, s.len() as int))
    }
}

/// The hash and filename of a manifest line: the pieces before the first and
/// second two-space separators; `None` when the line has no separator.
pub open spec fn record(line: Seq<char>) -> Option<(Seq<char>, Seq<char>)> {
    let k = first_separator(line);
    if k < 0 {
        None
    } else {
        let tail = line.subrange(k + 2, line.len() as int);
        let j = first_separator(tail);
        let file = if j < 0 {
            tail
        } else {
            tail.subrange(0, j)
        };
        Some((line.subrange(0, k), file))
    }
}

/// The image a manifest line lists for extension `name`, if it lists a valid one.
pub open spec fn line_image(name: Seq<char>, line: Seq<char>) -> Option<ImageView> {
    match record(line) {
        None => None,
        Some((hash, file)) => match parse_image(name, file, Some(hash)) {
            Ok(i) => Some(i),
            Err(_) => None,
        },
    }
}

/// The images that the lines `ls` list for extension `name`, in order; other
/// lines are skipped.
pub open spec fn manifest_images(name: Seq<char>, ls: Seq<Seq<char>>) -> Seq<ImageView>
    decreases ls.len(),
{
    if ls.len() == 0 {
        Seq::empty()
    } else {
        let first = match line_image(name, ls[0]) {
            Some(i) => seq![i],
            None => Seq::empty(),
        };
        first + manifest_images(name, ls.drop_first())
    }
}

/// The first `c` in `t[lo..hi]`.
fn find_char(t: &Vec<char>, lo: usize, hi: usize, c: char) -> (r: Option<usize>)
    requires
        lo <= hi <= t@.len(),
    ensures
        match r {
            Some(k) => lo <= k < hi && first_index_of(t@.subrange(lo as int, hi as int), c) == k - lo,
            None => first_index_of(t@.subrange(lo as int, hi as int), c) == -1,
        },
{
    let ghost s = t@.subrange(lo as int, hi as int);
    let mut k: usize = lo;
    while k < hi
        invariant
            lo <= k <= hi <= t@.len(),
            s == t@.subrange(lo as int, hi as int),
            forall|j: int| 0 <= j < k - lo ==> s[j] != c,
        decreases hi - k,
    {
        if t[k] == c {
            proof {
                lemma_first_index_at(s, c, k - lo);
            }
            return Some(k);
        }
        k = k + 1;
    }
    proof {
        lemma_first_index_none(s, c);
    }
    None
}

/// The first two-space separator in `t[lo..hi]`.
fn find_separator(t: &Vec<char>, lo: usize, hi: usize) -> (r: Option<usize>)
    requires
        lo <= hi <= t@.len(),
    ensures
        match r {
            Some(k) => lo <= k && k + 1 < hi && first_separator(t@.subrange(lo as int, hi as int)) == k - lo,
            None => first_separator(t@.subrange(lo as int, hi as int)) == -1,
        },
{
    let ghost s = t@.subrange(lo as int, hi as int);
    let mut k: usize = lo;
    while hi - k > 1
        invariant
            lo <= k <= hi <= t@.len(),
            s == t@.subrange(lo as int, hi as int),
            forall|j: int| 0 <= j < k - lo ==> !separator_at(s, j),
        decreases hi - k,
    {
        if t[k] == ' ' && t[k + 1] == ' ' {
            proof {
                lemma_first_separator_at(s, k - lo);
            }
            return Some(k);
        }
        k = k + 1;
    }
    proof {
        lemma_first_separator_none(s);
    }
    None
}

/// The image that the line `t[lo..hi]` lists for `name`, if any.
fn image_of_line(name: &str, t: &Vec<char>, lo: usize, hi: usize) -> (r: Option<Image>)
    requires
        lo <= hi <= t@.len(),
    ensures
        match r {
            Some(i) => line_image(name@, t@.subrange(lo as int, hi as int)) == Some(i@),
            None => line_image(name@, t@.subrange(lo as int, hi as int)) is None,
        },
{
    let ghost line = t@.subrange(lo as int, hi as int);
    let k = match find_separator(t, lo, hi) {
        Some(k) => k,
        None => {
            return None;
        },
    };
    let ghost tail = line.subrange(k - lo + 2, line.len() as int);
    assert(tail =~= t@.subrange(k + 2, hi as int));
    let end = match find_separator(t, k + 2, hi) {
        Some(j) => j,
        None => hi,
    };
    let hash = string_of(t, lo, k);
    let file = string_of(t, k + 2, end);
    assert(hash@ =~= line.subrange(0, k - lo));
    assert(end < hi ==> file@ =~= tail.subrange(0, end - (k + 2)));
    assert(end == hi ==> file@ =~= tail);
    match Image::new(name, file.as_str(), Some(hash)) {
        Ok(i) => Some(i),
        Err(_) => None,
    }
}

/// The images that a manifest lists for extension `name`, in order. Lines
/// without a separator and filenames that are no valid image of `name` are
/// skipped.
pub fn parse_manifest(name: &str, text: &str) -> (r: Vec<Image>)
    ensures
        images_view(r@) == manifest_images(name@, lines(text@)),
{
    let t = chars_of(text);
    let n = t.len();
    let ghost whole = manifest_images(name@, lines(t@));
    let mut r: Vec<Image> = Vec::new();
    let mut p: usize = 0;
    assert(t@.subrange(0, n as int) =~= t@);
    assert(images_view(r@) =~= Seq::<ImageView>::empty());
    while p < n
        invariant
            p <= n == t@.len(),
            whole == manifest_images(name@, lines(t@)),
            images_view(r@) + manifest_images(name@, lines(t@.subrange(p as int, n as int))) == whole,
        decreases n - p,
    {
        let ghost rest = t@.subrange(p as int, n as int);
        let ghost before = images_view(r@);
        let (line_end, next) = match find_char(&t, p, n, '\n') {
            Some(k) => {
                assert(rest.subrange(0, k - p) =~= t@.subrange(p as int, k as int));
                assert(rest.subrange(k - p + 1, rest.len() as int) =~= t@.subrange(k + 1, n as int));
                if k > p && t[k - 1] == '\r' {
                    assert(t@.subrange(p as int, k as int).drop_last() =~= t@.subrange(p as int, k - 1));
                    (k - 1, k + 1)
                } else {
                    (k, k + 1)
                }
            },
            None => (n, n),
        };
        let ghost line = t@.subrange(p as int, line_end as int);
        assert(lines(rest) == seq![line] + lines(t@.subrange(next as int, n as int)));
        assert(seq![line].drop_first() =~= Seq::<Seq<char>>::empty());
        let found = image_of_line(name, &t, p, line_end);
        match found {
            Some(i) => {
                r.push(i);
                assert(images_view(r@) =~= before.push(i@));
            },
            None => {},
        }
        let ghost later = manifest_images(name@, lines(t@.subrange(next as int, n as int)));
        assert((seq![line] + lines(t@.subrange(next as int, n as int))).drop_first() =~= lines(
            t@.subrange(next as int, n as int),
        ));
        assert(images_view(r@) + later =~= before + manifest_images(name@, lines(rest)));
        p = next;
    }
    assert(images_view(r@) + manifest_images(name@, lines(t@.subrange(n as int, n as int)))
        =~= images_view(r@));
    r
}

} // verus!
