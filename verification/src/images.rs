//! Images: the directory abstraction, path and gallery helpers, catalog
//! registration, and the directory reconciler.
use vstd::prelude::*;

use crate::catalog::{Catalog, Image};
use crate::text::{find_last, find_last_char, str_eq_check};

verus! {

/// The mathematical content of an image row.
pub ghost struct ImageModel {
    /// Display name.
    pub name: Seq<char>,
    /// On-disk path.
    pub path: Seq<char>,
    /// Public web path.
    pub web_path: Seq<char>,
    /// Owning command identifier.
    pub command_id: i64,
}

impl View for Image {
    type V = ImageModel;

    open spec fn view(&self) -> ImageModel {
        ImageModel {
            name: self.name@,
            path: self.path@,
            web_path: self.web_path@,
            command_id: self.command_id,
        }
    }
}

/// The image table as a sequence of models.
pub open spec fn images_view(imgs: Seq<Image>) -> Seq<ImageModel> {
    imgs.map_values(|im: Image| im@)
}

/// The part of a path after its last separator; the whole path when it has
/// no separator.
pub open spec fn file_name_of(p: Seq<char>) -> Seq<char> {
    match find_last(p, '/') {
        None => p,
        Some(i) => p.skip(i + 1),
    }
}

/// The public web path an image file is served under.
pub open spec fn image_web_path(p: Seq<char>) -> Seq<char> {
    "/assets/images/"@ + file_name_of(p)
}

/// A directory path joined with a file name.
pub open spec fn joined_path(dir: Seq<char>, name: Seq<char>) -> Seq<char> {
    dir + seq!['/'] + name
}

/// The extension of a file name: the part after the last dot, when the dot
/// is neither absent nor leading.
pub open spec fn extension_of(name: Seq<char>) -> Option<Seq<char>> {
    match find_last(name, '.') {
        None => None,
        Some(i) => if i > 0 {
            Some(name.skip(i + 1))
        } else {
            None
        },
    }
}

/// Does the list hold a string with this content?
pub open spec fn has_string(v: Seq<String>, s: Seq<char>) -> bool {
    exists|j: int| 0 <= j < v.len() && (#[trigger] v[j])@ == s
}

/// Does a row carry this on-disk path?
pub open spec fn has_path(ms: Seq<ImageModel>, p: Seq<char>) -> bool {
    exists|j: int| 0 <= j < ms.len() && (#[trigger] ms[j]).path == p
}

/// Does a row carry this web path?
pub open spec fn has_web_path(ms: Seq<ImageModel>, w: Seq<char>) -> bool {
    exists|j: int| 0 <= j < ms.len() && (#[trigger] ms[j]).web_path == w
}

/// Query parameters of a gallery page request.
#[derive(Debug, Clone, Copy, PartialEq, Eq, Structural)]
pub struct GalleryQuery {
    /// The page wanted.
    pub page: Option<u32>,
    /// The page size wanted.
    pub psize: Option<u32>,
}

/// A storage directory and the file extensions recognised as images.
#[derive(Debug, Clone)]
pub struct ImageDirectory {
    /// The directory path.
    pub path: String,
    /// The extensions to keep when scanning.
    pub extensions: Vec<String>,
}

/// Does the file name carry one of the recognised extensions?
pub open spec fn ext_matches(exts: Seq<String>, name: Seq<char>) -> bool {
    match extension_of(name) {
        None => false,
        Some(e) => has_string(exts, e),
    }
}

/// The paths under the directory of exactly those entries whose extension is
/// recognised, in listing order.
pub open spec fn find_images_spec(
    dir: Seq<char>,
    exts: Seq<String>,
    entries: Seq<String>,
) -> Seq<Seq<char>>
    decreases entries.len(),
{
    if entries.len() == 0 {
        Seq::empty()
    } else {
        let rest = find_images_spec(dir, exts, entries.drop_last());
        if ext_matches(exts, entries.last()@) {
            rest.push(joined_path(dir, entries.last()@))
        } else {
            rest
        }
    }
}

impl ImageDirectory {
    /// An image directory from its path and extension list.
    pub fn new(path: String, extensions: Vec<String>) -> (d: ImageDirectory)
        ensures
            d.path@ == path@,
            d.extensions@ == extensions@,
    {
        ImageDirectory { path, extensions }
    }

    /// The extension of the entry, when it has one.
    fn extension_part<'a>(&self, name: &'a str) -> (r: Option<&'a str>)
        ensures
            match r {
                Some(e) => extension_of(name@) == Some(e@),
                None => extension_of(name@) is None,
            },
    {
        let len = name.unicode_len();
        match find_last_char(name, '.') {
            None => None,
            Some(i) => if i > 0 {
                proof {
                    crate::text::lemma_find_last(name@, '.');
                }
                Some(name.substring_char(i + 1, len))
            } else {
                None
            },
        }
    }

    /// Does the entry carry a recognised extension?
    fn matches_extension(&self, name: &str) -> (r: bool)
        ensures
            r == ext_matches(self.extensions@, name@),
    {
        let e = match self.extension_part(name) {
            Some(e) => e,
            None => {
                return false;
            },
        };
        let n = self.extensions.len();
        let mut i: usize = 0;
        while i < n
            invariant
                0 <= i <= n,
                n == self.extensions@.len(),
                extension_of(name@) == Some(e@),
                forall|j: int| 0 <= j < i ==> (#[trigger] self.extensions@[j])@ != e@,
            decreases n - i,
        {
            if str_eq_check(self.extensions[i].as_str(), e) {
                return true;
            }
            i = i + 1;
        }
        proof {
            if has_string(self.extensions@, e@) {
                let j = choose|j: int|
                    0 <= j < self.extensions@.len() && (#[trigger] self.extensions@[j])@ == e@;
            }
        }
        false
    }

    /// Filters a directory listing down to the image files and returns their
    /// full paths, in listing order.
    pub fn find_images(&self, entries: &Vec<String>) -> (r: Vec<String>)
        ensures
            r@.map_values(|s: String| s@) == find_images_spec(
                self.path@,
                self.extensions@,
                entries@,
            ),
    {
        let n = entries.len();
        let mut out: Vec<String> = Vec::new();
        let mut i: usize = 0;
        while i < n
            invariant
                0 <= i <= n,
                n == entries@.len(),
                out@.map_values(|s: String| s@) == find_images_spec(
                    self.path@,
                    self.extensions@,
                    entries@.take(i as int),
                ),
            decreases n - i,
        {
            proof {
                assert(entries@.take(i + 1).drop_last() =~= entries@.take(i as int));
                assert(entries@.take(i + 1).last() == entries@[i as int]);
            }
            if self.matches_extension(entries[i].as_str()) {
                let mut p = self.path.clone();
                p.append("/");
                p.append(entries[i].as_str());
                proof {
                    reveal_strlit("/");
                    assert("/"@ =~= seq!['/']);
                    assert(p@ =~= joined_path(self.path@, entries@[i as int]@));
                }
                out.push(p);
                proof {
                    assert(out@.map_values(|s: String| s@) =~= out@.drop_last().map_values(
                        |s: String| s@,
                    ).push(out@.last()@));
                }
            }
            i = i + 1;
        }
        proof {
            assert(entries@.take(n as int) =~= entries@);
        }
        out
    }
}

impl Default for ImageDirectory {
    /// The conventional storage directory and the six recognised image
    /// extensions.
    fn default() -> (d: ImageDirectory)
        ensures
            d.path@ == "./assets/images"@,
            d.extensions@.len() == 6,
            d.extensions@[0]@ == "png"@,
            d.extensions@[1]@ == "jpg"@,
            d.extensions@[2]@ == "jpeg"@,
            d.extensions@[3]@ == "webp"@,
            d.extensions@[4]@ == "gif"@,
            d.extensions@[5]@ == "svg"@,
    {
        let mut extensions: Vec<String> = Vec::new();
        extensions.push(String::from_str("png"));
        extensions.push(String::from_str("jpg"));
        extensions.push(String::from_str("jpeg"));
        extensions.push(String::from_str("webp"));
        extensions.push(String::from_str("gif"));
        extensions.push(String::from_str("svg"));
        ImageDirectory { path: String::from_str("./assets/images"), extensions }
    }
}

/// The public web path for an image file.
pub fn generate_image_url(path: &str) -> (r: String)
    ensures
        r@ == image_web_path(path@),
{
    let mut s = String::from_str("/assets/images/");
    let len = path.unicode_len();
    match find_last_char(path, '/') {
        None => {
            s.append(path);
        },
        Some(i) => {
            proof {
                crate::text::lemma_find_last(path@, '/');
            }
            s.append(path.substring_char(i + 1, len));
        },
    }
    s
}

/// The gallery markup line for one image path.
pub open spec fn img_tag(p: Seq<char>) -> Seq<char> {
    "<img src=\""@ + image_web_path(p) + "\" />\n"@
}

/// The gallery markup for a list of image paths, in order.
pub open spec fn gallery_html(paths: Seq<String>) -> Seq<char>
    decreases paths.len(),
{
    if paths.len() == 0 {
        Seq::empty()
    } else {
        gallery_html(paths.drop_last()) + img_tag(paths.last()@)
    }
}

/// Renders the gallery markup for the image paths, one tag per line.
pub fn generate_html(images: Vec<String>) -> (r: String)
    ensures
        r@ == gallery_html(images@),
{
    let n = images.len();
    let mut html = String::new();
    let mut i: usize = 0;
    while i < n
        invariant
            0 <= i <= n,
            n == images@.len(),
            html@ == gallery_html(images@.take(i as int)),
        decreases n - i,
    {
        proof {
            assert(images@.take(i + 1).drop_last() =~= images@.take(i as int));
            assert(images@.take(i + 1).last() == images@[i as int]);
        }
        html.append("<img src=\"");
        let url = generate_image_url(images[i].as_str());
        html.append(url.as_str());
        html.append("\" />\n");
        i = i + 1;
    }
    proof {
        assert(images@.take(n as int) =~= images@);
    }
    html
}

/// Why an image row could not be registered.
#[derive(Debug, Clone, Copy, PartialEq, Eq, Structural)]
pub enum ImageError {
    /// A row already carries the on-disk path.
    DuplicatePath,
    /// A row already carries the web path.
    DuplicateWebPath,
}

impl Catalog {
    /// Does a row carry this on-disk path?
    pub(crate) fn image_path_exists(&self, path: &str) -> (r: bool)
        ensures
            r == has_path(images_view(self.images@), path@),
    {
        let n = self.images.len();
        let mut i: usize = 0;
        while i < n
            invariant
                0 <= i <= n,
                n == self.images@.len(),
                forall|j: int| 0 <= j < i ==> (#[trigger] self.images@[j]).path@ != path@,
            decreases n - i,
        {
            if str_eq_check(self.images[i].path.as_str(), path) {
                assert(images_view(self.images@)[i as int].path == path@);
                return true;
            }
            i = i + 1;
        }
        proof {
            if has_path(images_view(self.images@), path@) {
                let j = choose|j: int|
                    0 <= j < images_view(self.images@).len() && (#[trigger] images_view(
                        self.images@,
                    )[j]).path == path@;
                assert(self.images@[j].path@ == path@);
            }
        }
        false
    }

    /// Does a row carry this web path?
    pub(crate) fn image_web_path_exists(&self, web_path: &str) -> (r: bool)
        ensures
            r == has_web_path(images_view(self.images@), web_path@),
    {
        let n = self.images.len();
        let mut i: usize = 0;
        while i < n
            invariant
                0 <= i <= n,
                n == self.images@.len(),
                forall|j: int| 0 <= j < i ==> (#[trigger] self.images@[j]).web_path@ != web_path@,
            decreases n - i,
        {
            if str_eq_check(self.images[i].web_path.as_str(), web_path) {
                assert(images_view(self.images@)[i as int].web_path == web_path@);
                return true;
            }
            i = i + 1;
        }
        proof {
            if has_web_path(images_view(self.images@), web_path@) {
                let j = choose|j: int|
                    0 <= j < images_view(self.images@).len() && (#[trigger] images_view(
                        self.images@,
                    )[j]).web_path == web_path@;
                assert(self.images@[j].web_path@ == web_path@);
            }
        }
        false
    }

    /// Registers an image row; the store's uniqueness constraints on both
    /// paths reject a duplicate, leaving the catalog unchanged.
    pub fn register_image(&mut self, name: &str, path: &str, web_path: &str, command_id: i64) -> (r:
        Result<(), ImageError>)
        requires
            old(self).wf(),
        ensures
            final(self).wf(),
            final(self).keys@ == old(self).keys@,
            final(self).commands@ == old(self).commands@,
            final(self).targets@ == old(self).targets@,
            final(self).positions@ == old(self).positions@,
            final(self).diagnostics@ == old(self).diagnostics@,
            final(self).next_command_id == old(self).next_command_id,
            final(self).next_key_id == old(self).next_key_id,
            r is Ok <==> !has_path(images_view(old(self).images@), path@) && !has_web_path(
                images_view(old(self).images@),
                web_path@,
            ),
            match r {
                Ok(u) => images_view(final(self).images@) == images_view(old(self).images@).push(
                    ImageModel { name: name@, path: path@, web_path: web_path@, command_id },
                ),
                Err(e) => {
                    &&& final(self).images@ == old(self).images@
                    &&& (e == ImageError::DuplicatePath <==> has_path(
                        images_view(old(self).images@),
                        path@,
                    ))
                },
            },
    {
        if self.image_path_exists(path) {
            return Err(ImageError::DuplicatePath);
        }
        if self.image_web_path_exists(web_path) {
            return Err(ImageError::DuplicateWebPath);
        }
        let row = Image {
            name: String::from_str(name),
            path: String::from_str(path),
            web_path: String::from_str(web_path),
            command_id,
        };
        self.images.push(row);
        proof {
            assert(images_view(self.images@) =~= images_view(old(self).images@).push(
                ImageModel { name: name@, path: path@, web_path: web_path@, command_id },
            ));
            assert forall|i: int, j: int|
                0 <= i < j < self.images@.len() implies (#[trigger] self.images@[i]).path@
                != (#[trigger] self.images@[j]).path@ by {
                if j == self.images@.len() - 1 {
                    assert(self.images@[i] == old(self).images@[i]);
                    if self.images@[i].path@ == path@ {
                        assert(images_view(old(self).images@)[i].path == path@);
                    }
                }
            }
            assert forall|i: int, j: int|
                0 <= i < j < self.images@.len() implies (#[trigger] self.images@[i]).web_path@
                != (#[trigger] self.images@[j]).web_path@ by {
                if j == self.images@.len() - 1 {
                    assert(self.images@[i] == old(self).images@[i]);
                    if self.images@[i].web_path@ == web_path@ {
                        assert(images_view(old(self).images@)[i].web_path == web_path@);
                    }
                }
            }
        }
        Ok(())
    }

    /// The registered images, in insertion order.
    pub fn get_image_list(&self) -> (r: &Vec<Image>)
        ensures
            r@ == self.images@,
    {
        &self.images
    }

    /// The number of registered images.
    pub fn get_image_count(&self) -> (r: u64)
        ensures
            r == self.images@.len(),
    {
        self.images.len() as u64
    }

    /// The most recently registered image, if any.
    pub fn get_last_image(&self) -> (r: Option<&Image>)
        ensures
            match r {
                Some(im) => self.images@.len() > 0 && im == self.images@.last(),
                None => self.images@.len() == 0,
            },
    {
        let n = self.images.len();
        if n == 0 {
            None
        } else {
            Some(&self.images[n - 1])
        }
    }

    /// One page of the image listing; a zero page or page size falls back to
    /// the first page and the default size of ten.
    pub fn get_image_info(&self, page: u32, page_size: u32) -> (r: Vec<Image>)
        ensures
            ({
                let p = if page == 0 {
                    1int
                } else {
                    page as int
                };
                let size = if page_size == 0 {
                    10int
                } else {
                    page_size as int
                };
                let off = (p - 1) * size;
                let len = self.images@.len() as int;
                let lo = if off < len {
                    off
                } else {
                    len
                };
                let hi = if off + size < len {
                    off + size
                } else {
                    len
                };
                r@ == self.images@.subrange(lo, hi)
            }),
    {
        let p: u64 = if page == 0 {
            1
        } else {
            page as u64
        };
        let size: u64 = if page_size == 0 {
            10
        } else {
            page_size as u64
        };
        let pm: u128 = (p - 1) as u128;
        let sm: u128 = size as u128;
        proof {
            assert(pm * sm < 0x1_0000_0000_0000_0000u128) by (nonlinear_arith)
                requires
                    pm < 0x1_0000_0000u128,
                    sm < 0x1_0000_0000u128,
            ;
        }
        let off: u128 = pm * sm;
        let n = self.images.len();
        let lo: usize = if off < n as u128 {
            off as usize
        } else {
            n
        };
        let hi: usize = if off + sm < n as u128 {
            (off + sm) as usize
        } else {
            n
        };
        let mut out: Vec<Image> = Vec::new();
        let mut i: usize = lo;
        while i < hi
            invariant
                lo <= i <= hi <= self.images@.len(),
                out@ == self.images@.subrange(lo as int, i as int),
            decreases hi - i,
        {
            let im = Image {
                name: self.images[i].name.clone(),
                path: self.images[i].path.clone(),
                web_path: self.images[i].web_path.clone(),
                command_id: self.images[i].command_id,
            };
            out.push(im);
            proof {
                assert(out@ =~= self.images@.subrange(lo as int, i + 1));
            }
            i = i + 1;
        }
        out
    }
}

} // verus!
