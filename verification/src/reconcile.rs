//! The directory reconciler: the filename convention, the prune phase that
//! drops rows whose file is gone, the adoption phase that registers orphan
//! files, and the proof that reconciliation is idempotent.
use vstd::prelude::*;

use crate::catalog::{Catalog, Image};
use crate::images::{
    file_name_of, generate_image_url, has_path, has_string, has_web_path, image_web_path,
    images_view, ImageModel,
};
use crate::text::{find_first, find_first_char, find_last_char, parse_i64, parsed_i64};

verus! {

/// What parsing a file name against the convention
/// `{timestamp}-{command_id}-{name}.{ext}` yields: the timestamp, the owning
/// command identifier, and the display name.  The part before the first dot
/// must consist of exactly three dash-separated fields, the first two being
/// non-negative decimal numbers.
pub open spec fn parsed_image_name(name: Seq<char>) -> Option<(i64, i64, Seq<char>)> {
    let stem = match find_first(name, '.') {
        None => name,
        Some(i) => name.take(i),
    };
    match find_first(stem, '-') {
        None => None,
        Some(p1) => {
            let rest = stem.skip(p1 + 1);
            match find_first(rest, '-') {
                None => None,
                Some(p2) => {
                    let part0 = stem.take(p1);
                    let part1 = rest.take(p2);
                    let part2 = rest.skip(p2 + 1);
                    if find_first(part2, '-') is Some {
                        None
                    } else {
                        match (parsed_i64(part0), parsed_i64(part1)) {
                            (Some(ts), Some(id)) => Some((ts, id, part2)),
                            _ => None,
                        }
                    }
                },
            }
        },
    }
}

/// The file-name part of a path.
pub fn file_name_part<'a>(p: &'a str) -> (r: &'a str)
    ensures
        r@ == file_name_of(p@),
{
    let len = p.unicode_len();
    match find_last_char(p, '/') {
        None => p,
        Some(i) => {
            proof {
                crate::text::lemma_find_last(p@, '/');
            }
            let r = p.substring_char(i + 1, len);
            proof {
                assert(r@ =~= p@.skip(i + 1));
            }
            r
        },
    }
}

/// Parses a file name against the adoption convention; rejects, without
/// error, any name that does not match it.
pub fn parse_image_filename(name: &str) -> (r: Option<(i64, i64, String)>)
    ensures
        match r {
            Some((ts, id, disp)) => parsed_image_name(name@) == Some((ts, id, disp@)),
            None => parsed_image_name(name@) is None,
        },
{
    let len = name.unicode_len();
    let stem: &str = match find_first_char(name, '.') {
        None => name,
        Some(i) => {
            proof {
                crate::text::lemma_find_first(name@, '.');
            }
            name.substring_char(0, i)
        },
    };
    proof {
        assert(stem@ == (match find_first(name@, '.') {
            None => name@,
            Some(i) => name@.take(i),
        }));
    }
    let slen = stem.unicode_len();
    let p1 = match find_first_char(stem, '-') {
        None => {
            return None;
        },
        Some(p) => p,
    };
    proof {
        crate::text::lemma_find_first(stem@, '-');
    }
    let rest = stem.substring_char(p1 + 1, slen);
    proof {
        assert(rest@ =~= stem@.skip(p1 + 1));
    }
    let rlen = rest.unicode_len();
    let p2 = match find_first_char(rest, '-') {
        None => {
            return None;
        },
        Some(p) => p,
    };
    proof {
        crate::text::lemma_find_first(rest@, '-');
    }
    let part0 = stem.substring_char(0, p1);
    let part1 = rest.substring_char(0, p2);
    let part2 = rest.substring_char(p2 + 1, rlen);
    proof {
        assert(part0@ =~= stem@.take(p1 as int));
        assert(part1@ =~= rest@.take(p2 as int));
        assert(part2@ =~= rest@.skip(p2 + 1));
    }
    if find_first_char(part2, '-').is_some() {
        return None;
    }
    let ts = match parse_i64(part0) {
        Some(t) => t,
        None => {
            return None;
        },
    };
    let id = match parse_i64(part1) {
        Some(v) => v,
        None => {
            return None;
        },
    };
    Some((ts, id, String::from_str(part2)))
}

/// The image table with every row whose path is not among the listed files
/// removed; the prune phase of reconciliation.
pub open spec fn prune_spec(ms: Seq<ImageModel>, files: Seq<String>) -> Seq<ImageModel>
    decreases ms.len(),
{
    if ms.len() == 0 {
        Seq::empty()
    } else {
        let rest = prune_spec(ms.drop_last(), files);
        if has_string(files, ms.last().path) {
            rest.push(ms.last())
        } else {
            rest
        }
    }
}

/// One adoption step: a listed file already registered by path, or whose
/// name does not match the convention, or whose web path is already taken,
/// changes nothing; otherwise a row for it is registered.
pub open spec fn adopt_one(ms: Seq<ImageModel>, f: String) -> Seq<ImageModel> {
    if has_path(ms, f@) {
        ms
    } else {
        match parsed_image_name(file_name_of(f@)) {
            None => ms,
            Some((ts, id, disp)) => if has_web_path(ms, image_web_path(f@)) {
                ms
            } else {
                ms.push(
                    ImageModel {
                        name: disp,
                        path: f@,
                        web_path: image_web_path(f@),
                        command_id: id,
                    },
                )
            },
        }
    }
}

/// The adoption phase over a whole listing, in listing order.
pub open spec fn adopt_spec(ms: Seq<ImageModel>, files: Seq<String>) -> Seq<ImageModel>
    decreases files.len(),
{
    if files.len() == 0 {
        ms
    } else {
        adopt_one(adopt_spec(ms, files.drop_last()), files.last())
    }
}

/// What one full reconciliation run does to the image table: prune always,
/// adoption when asked for.
pub open spec fn reconcile_spec(
    ms: Seq<ImageModel>,
    files: Seq<String>,
    adopt_orphans: bool,
) -> Seq<ImageModel> {
    if adopt_orphans {
        adopt_spec(prune_spec(ms, files), files)
    } else {
        prune_spec(ms, files)
    }
}

/// Every row of the table has a listed path.
pub open spec fn all_paths_listed(ms: Seq<ImageModel>, files: Seq<String>) -> bool {
    forall|i: int| 0 <= i < ms.len() ==> has_string(files, (#[trigger] ms[i]).path)
}

/// Pruning keeps exactly the rows with listed paths, keeps their order, and
/// keeps path and web-path uniqueness.
pub proof fn lemma_prune(ms: Seq<ImageModel>, files: Seq<String>)
    ensures
        ({
            let r = prune_spec(ms, files);
            &&& r.len() <= ms.len()
            &&& forall|i: int| 0 <= i < r.len() ==> ms.contains(#[trigger] r[i])
            &&& all_paths_listed(r, files)
            &&& forall|j: int|
                0 <= j < ms.len() && has_string(files, (#[trigger] ms[j]).path) ==> r.contains(
                    ms[j],
                )
            &&& (forall|i: int, j: int| 0 <= i < j < ms.len() ==> ms[i].path != ms[j].path) ==> (
            forall|i: int, j: int| 0 <= i < j < r.len() ==> r[i].path != r[j].path)
            &&& (forall|i: int, j: int|
                0 <= i < j < ms.len() ==> ms[i].web_path != ms[j].web_path) ==> (forall|
                i: int,
                j: int,
            | 0 <= i < j < r.len() ==> r[i].web_path != r[j].web_path)
        }),
    decreases ms.len(),
{
    if ms.len() > 0 {
        let sub = ms.drop_last();
        lemma_prune(sub, files);
        let rsub = prune_spec(sub, files);
        let r = prune_spec(ms, files);
        assert forall|i: int| 0 <= i < rsub.len() implies ms.contains(#[trigger] rsub[i]) by {
            assert(sub.contains(rsub[i]));
            let w = choose|w: int| 0 <= w < sub.len() && sub[w] == rsub[i];
            assert(ms[w] == rsub[i]);
        }
        assert(ms.last() == ms[ms.len() - 1]);
        if has_string(files, ms.last().path) {
            assert(r == rsub.push(ms.last()));
            assert(ms.contains(ms.last()));
            assert forall|j: int|
                0 <= j < ms.len() && has_string(files, (#[trigger] ms[j]).path) implies r.contains(
                ms[j],
            ) by {
                if j < ms.len() - 1 {
                    assert(sub[j] == ms[j]);
                    assert(rsub.contains(ms[j]));
                    let w = choose|w: int| 0 <= w < rsub.len() && rsub[w] == ms[j];
                    assert(r[w] == ms[j]);
                } else {
                    assert(r[r.len() - 1] == ms[j]);
                }
            }
            if forall|i: int, j: int| 0 <= i < j < ms.len() ==> ms[i].path != ms[j].path {
                assert(forall|i: int, j: int| 0 <= i < j < sub.len() ==> sub[i].path != sub[j].path);
                assert forall|i: int, j: int| 0 <= i < j < r.len() implies r[i].path
                    != r[j].path by {
                    if j < r.len() - 1 {
                        assert(rsub[i].path != rsub[j].path);
                    } else {
                        assert(r[j] == ms.last());
                        assert(sub.contains(r[i]));
                        let w = choose|w: int| 0 <= w < sub.len() && sub[w] == r[i];
                        assert(ms[w] == r[i]);
                        assert(ms[w].path != ms[ms.len() - 1].path);
                    }
                }
            }
            if forall|i: int, j: int| 0 <= i < j < ms.len() ==> ms[i].web_path != ms[j].web_path {
                assert(forall|i: int, j: int|
                    0 <= i < j < sub.len() ==> sub[i].web_path != sub[j].web_path);
                assert forall|i: int, j: int| 0 <= i < j < r.len() implies r[i].web_path
                    != r[j].web_path by {
                    if j < r.len() - 1 {
                        assert(rsub[i].web_path != rsub[j].web_path);
                    } else {
                        assert(r[j] == ms.last());
                        assert(sub.contains(r[i]));
                        let w = choose|w: int| 0 <= w < sub.len() && sub[w] == r[i];
                        assert(ms[w] == r[i]);
                        assert(ms[w].web_path != ms[ms.len() - 1].web_path);
                    }
                }
            }
        } else {
            assert(r == rsub);
            assert forall|j: int|
                0 <= j < ms.len() && has_string(files, (#[trigger] ms[j]).path) implies r.contains(
                ms[j],
            ) by {
                assert(j < ms.len() - 1);
                assert(sub[j] == ms[j]);
                assert(rsub.contains(ms[j]));
            }
            if forall|i: int, j: int| 0 <= i < j < ms.len() ==> ms[i].path != ms[j].path {
                assert(forall|i: int, j: int| 0 <= i < j < sub.len() ==> sub[i].path != sub[j].path);
            }
            if forall|i: int, j: int| 0 <= i < j < ms.len() ==> ms[i].web_path != ms[j].web_path {
                assert(forall|i: int, j: int|
                    0 <= i < j < sub.len() ==> sub[i].web_path != sub[j].web_path);
            }
        }
    }
}

/// Pruning a table whose paths are all listed changes nothing.
pub proof fn lemma_prune_id(ms: Seq<ImageModel>, files: Seq<String>)
    requires
        all_paths_listed(ms, files),
    ensures
        prune_spec(ms, files) == ms,
    decreases ms.len(),
{
    if ms.len() > 0 {
        let sub = ms.drop_last();
        assert(forall|i: int| 0 <= i < sub.len() ==> #[trigger] sub[i] == ms[i]);
        lemma_prune_id(sub, files);
        assert(has_string(files, ms[ms.len() - 1].path));
        assert(prune_spec(ms, files) =~= ms);
    }
}

/// A file on which adoption can change nothing: its name does not parse, or
/// a row already carries its path or its web path.
pub open spec fn file_settled(ms: Seq<ImageModel>, f: String) -> bool {
    ||| parsed_image_name(file_name_of(f@)) is None
    ||| has_path(ms, f@)
    ||| has_web_path(ms, image_web_path(f@))
}

/// Adoption only appends rows: the previous table is a prefix.
pub proof fn lemma_adopt_one_extends(ms: Seq<ImageModel>, f: String)
    ensures
        ({
            let r = adopt_one(ms, f);
            &&& r.len() >= ms.len()
            &&& forall|i: int| 0 <= i < ms.len() ==> #[trigger] r[i] == ms[i]
        }),
{
}

/// A whole adoption pass only appends rows.
pub proof fn lemma_adopt_extends(ms: Seq<ImageModel>, files: Seq<String>)
    ensures
        ({
            let r = adopt_spec(ms, files);
            &&& r.len() >= ms.len()
            &&& forall|i: int| 0 <= i < ms.len() ==> #[trigger] r[i] == ms[i]
        }),
    decreases files.len(),
{
    if files.len() > 0 {
        lemma_adopt_extends(ms, files.drop_last());
        lemma_adopt_one_extends(adopt_spec(ms, files.drop_last()), files.last());
    }
}

/// A settled file stays settled as the table grows.
pub proof fn lemma_settled_monotone(ms: Seq<ImageModel>, bigger: Seq<ImageModel>, f: String)
    requires
        file_settled(ms, f),
        bigger.len() >= ms.len(),
        forall|i: int| 0 <= i < ms.len() ==> #[trigger] bigger[i] == ms[i],
    ensures
        file_settled(bigger, f),
{
    if has_path(ms, f@) {
        let j = choose|j: int| 0 <= j < ms.len() && (#[trigger] ms[j]).path == f@;
        assert(bigger[j].path == f@);
    } else if has_web_path(ms, image_web_path(f@)) {
        let j = choose|j: int|
            0 <= j < ms.len() && (#[trigger] ms[j]).web_path == image_web_path(f@);
        assert(bigger[j].web_path == image_web_path(f@));
    }
}

/// Adoption of a settled file changes nothing.
pub proof fn lemma_adopt_one_settled(ms: Seq<ImageModel>, f: String)
    requires
        file_settled(ms, f),
    ensures
        adopt_one(ms, f) == ms,
{
}

/// One adoption step settles its file.
pub proof fn lemma_adopt_one_settles(ms: Seq<ImageModel>, f: String)
    ensures
        file_settled(adopt_one(ms, f), f),
{
    let r = adopt_one(ms, f);
    if !file_settled(ms, f) {
        assert(r[r.len() - 1].path == f@);
    } else {
        lemma_adopt_one_settled(ms, f);
        lemma_settled_monotone(ms, r, f);
    }
}

/// After a whole adoption pass, every listed file is settled.
pub proof fn lemma_adopt_settles(ms: Seq<ImageModel>, files: Seq<String>)
    ensures
        forall|k: int|
            0 <= k < files.len() ==> file_settled(adopt_spec(ms, files), #[trigger] files[k]),
    decreases files.len(),
{
    if files.len() > 0 {
        let sub = files.drop_last();
        let inner = adopt_spec(ms, sub);
        let r = adopt_spec(ms, files);
        lemma_adopt_settles(ms, sub);
        lemma_adopt_one_extends(inner, files.last());
        assert forall|k: int| 0 <= k < files.len() implies file_settled(
            r,
            #[trigger] files[k],
        ) by {
            if k < files.len() - 1 {
                assert(sub[k] == files[k]);
                assert(file_settled(inner, files[k]));
                lemma_settled_monotone(inner, r, files[k]);
            } else {
                lemma_adopt_one_settles(inner, files.last());
            }
        }
    }
}

/// An adoption pass over files that are all settled changes nothing.
pub proof fn lemma_adopt_id(ms: Seq<ImageModel>, files: Seq<String>)
    requires
        forall|k: int| 0 <= k < files.len() ==> file_settled(ms, #[trigger] files[k]),
    ensures
        adopt_spec(ms, files) == ms,
    decreases files.len(),
{
    if files.len() > 0 {
        let sub = files.drop_last();
        assert(forall|k: int| 0 <= k < sub.len() ==> #[trigger] sub[k] == files[k]);
        lemma_adopt_id(ms, sub);
        assert(file_settled(ms, files[files.len() - 1]));
        lemma_adopt_one_settled(ms, files.last());
    }
}

/// Adoption over files drawn from a listing only adds rows whose path is in
/// that listing.
pub proof fn lemma_adopt_paths_in(ms: Seq<ImageModel>, files: Seq<String>, all_files: Seq<String>)
    requires
        all_paths_listed(ms, all_files),
        forall|k: int| 0 <= k < files.len() ==> has_string(all_files, (#[trigger] files[k])@),
    ensures
        all_paths_listed(adopt_spec(ms, files), all_files),
    decreases files.len(),
{
    if files.len() > 0 {
        let sub = files.drop_last();
        assert(forall|k: int| 0 <= k < sub.len() ==> #[trigger] sub[k] == files[k]);
        lemma_adopt_paths_in(ms, sub, all_files);
        let inner = adopt_spec(ms, sub);
        let r = adopt_spec(ms, files);
        lemma_adopt_one_extends(inner, files.last());
        assert forall|i: int| 0 <= i < r.len() implies has_string(
            all_files,
            (#[trigger] r[i]).path,
        ) by {
            if i < inner.len() {
                assert(r[i] == inner[i]);
                assert(has_string(all_files, inner[i].path));
            } else {
                assert(r[i].path == files.last()@);
                assert(has_string(all_files, files[files.len() - 1]@));
            }
        }
    }
}

/// Adoption preserves "every row's path is listed": it only adds rows whose
/// path is one of the listed files.
pub proof fn lemma_adopt_paths_listed(ms: Seq<ImageModel>, files: Seq<String>)
    requires
        all_paths_listed(ms, files),
    ensures
        all_paths_listed(adopt_spec(ms, files), files),
{
    assert forall|k: int| 0 <= k < files.len() implies has_string(
        files,
        (#[trigger] files[k])@,
    ) by {
        assert((files[k])@ == files[k]@);
    }
    lemma_adopt_paths_in(ms, files, files);
}

/// The image table with every row carrying the path removed.
pub open spec fn without_path(ms: Seq<ImageModel>, p: Seq<char>) -> Seq<ImageModel>
    decreases ms.len(),
{
    if ms.len() == 0 {
        Seq::empty()
    } else {
        let rest = without_path(ms.drop_last(), p);
        if ms.last().path == p {
            rest
        } else {
            rest.push(ms.last())
        }
    }
}

/// Removal by path keeps exactly the rows with other paths, keeps their
/// order, and keeps path and web-path uniqueness.
pub proof fn lemma_without_path(ms: Seq<ImageModel>, p: Seq<char>)
    ensures
        ({
            let r = without_path(ms, p);
            &&& r.len() <= ms.len()
            &&& forall|i: int| 0 <= i < r.len() ==> ms.contains(#[trigger] r[i])
            &&& forall|i: int| 0 <= i < r.len() ==> (#[trigger] r[i]).path != p
            &&& forall|j: int|
                0 <= j < ms.len() && (#[trigger] ms[j]).path != p ==> r.contains(ms[j])
            &&& (forall|i: int, j: int| 0 <= i < j < ms.len() ==> ms[i].path != ms[j].path) ==> (
            forall|i: int, j: int| 0 <= i < j < r.len() ==> r[i].path != r[j].path)
            &&& (forall|i: int, j: int|
                0 <= i < j < ms.len() ==> ms[i].web_path != ms[j].web_path) ==> (forall|
                i: int,
                j: int,
            | 0 <= i < j < r.len() ==> r[i].web_path != r[j].web_path)
        }),
    decreases ms.len(),
{
    if ms.len() > 0 {
        let sub = ms.drop_last();
        lemma_without_path(sub, p);
        let rsub = without_path(sub, p);
        let r = without_path(ms, p);
        assert forall|i: int| 0 <= i < rsub.len() implies ms.contains(#[trigger] rsub[i]) by {
            assert(sub.contains(rsub[i]));
            let w = choose|w: int| 0 <= w < sub.len() && sub[w] == rsub[i];
            assert(ms[w] == rsub[i]);
        }
        assert(ms.last() == ms[ms.len() - 1]);
        if ms.last().path != p {
            assert(r == rsub.push(ms.last()));
            assert(ms.contains(ms.last()));
            assert forall|j: int|
                0 <= j < ms.len() && (#[trigger] ms[j]).path != p implies r.contains(ms[j]) by {
                if j < ms.len() - 1 {
                    assert(sub[j] == ms[j]);
                    assert(rsub.contains(ms[j]));
                    let w = choose|w: int| 0 <= w < rsub.len() && rsub[w] == ms[j];
                    assert(r[w] == ms[j]);
                } else {
                    assert(r[r.len() - 1] == ms[j]);
                }
            }
            if forall|i: int, j: int| 0 <= i < j < ms.len() ==> ms[i].path != ms[j].path {
                assert(forall|i: int, j: int| 0 <= i < j < sub.len() ==> sub[i].path != sub[j].path);
                assert forall|i: int, j: int| 0 <= i < j < r.len() implies r[i].path
                    != r[j].path by {
                    if j < r.len() - 1 {
                        assert(rsub[i].path != rsub[j].path);
                    } else {
                        assert(r[j] == ms.last());
                        assert(sub.contains(r[i]));
                        let w = choose|w: int| 0 <= w < sub.len() && sub[w] == r[i];
                        assert(ms[w] == r[i]);
                        assert(ms[w].path != ms[ms.len() - 1].path);
                    }
                }
            }
            if forall|i: int, j: int| 0 <= i < j < ms.len() ==> ms[i].web_path != ms[j].web_path {
                assert(forall|i: int, j: int|
                    0 <= i < j < sub.len() ==> sub[i].web_path != sub[j].web_path);
                assert forall|i: int, j: int| 0 <= i < j < r.len() implies r[i].web_path
                    != r[j].web_path by {
                    if j < r.len() - 1 {
                        assert(rsub[i].web_path != rsub[j].web_path);
                    } else {
                        assert(r[j] == ms.last());
                        assert(sub.contains(r[i]));
                        let w = choose|w: int| 0 <= w < sub.len() && sub[w] == r[i];
                        assert(ms[w] == r[i]);
                        assert(ms[w].web_path != ms[ms.len() - 1].web_path);
                    }
                }
            }
        } else {
            assert(r == rsub);
            assert forall|j: int|
                0 <= j < ms.len() && (#[trigger] ms[j]).path != p implies r.contains(ms[j]) by {
                assert(j < ms.len() - 1);
                assert(sub[j] == ms[j]);
                assert(rsub.contains(ms[j]));
            }
            if forall|i: int, j: int| 0 <= i < j < ms.len() ==> ms[i].path != ms[j].path {
                assert(forall|i: int, j: int| 0 <= i < j < sub.len() ==> sub[i].path != sub[j].path);
            }
            if forall|i: int, j: int| 0 <= i < j < ms.len() ==> ms[i].web_path != ms[j].web_path {
                assert(forall|i: int, j: int|
                    0 <= i < j < sub.len() ==> sub[i].web_path != sub[j].web_path);
            }
        }
    }
}

/// Does the listing hold this path?
fn contains_string(files: &Vec<String>, s: &str) -> (r: bool)
    ensures
        r == has_string(files@, s@),
{
    let n = files.len();
    let mut i: usize = 0;
    while i < n
        invariant
            0 <= i <= n,
            n == files@.len(),
            forall|j: int| 0 <= j < i ==> (#[trigger] files@[j])@ != s@,
        decreases n - i,
    {
        if crate::text::str_eq_check(files[i].as_str(), s) {
            return true;
        }
        i = i + 1;
    }
    proof {
        if has_string(files@, s@) {
            let j = choose|j: int| 0 <= j < files@.len() && (#[trigger] files@[j])@ == s@;
        }
    }
    false
}

impl Catalog {
    /// Removes the image row carrying the path; no effect when none does.
    pub fn unregister_image(&mut self, path: &str)
        requires
            old(self).wf(),
        ensures
            final(self).wf(),
            final(self).keys@ == old(self).keys@,
            final(self).commands@ == old(self).commands@,
            final(self).targets@ == old(self).targets@,
            final(self).positions@ == old(self).positions@,
            final(self).diagnostics@ == old(self).diagnostics@,
            final(self).next_command_id == old(self).next_command_id,
            final(self).next_key_id == old(self).next_key_id,
            images_view(final(self).images@) == without_path(images_view(old(self).images@), path@),
    {
        let n = self.images.len();
        let mut kept: Vec<Image> = Vec::new();
        let mut i: usize = 0;
        while i < n
            invariant
                0 <= i <= n,
                n == self.images@.len(),
                images_view(kept@) == without_path(
                    images_view(self.images@.take(i as int)),
                    path@,
                ),
            decreases n - i,
        {
            proof {
                assert(images_view(self.images@.take(i + 1)).drop_last() =~= images_view(
                    self.images@.take(i as int),
                ));
                assert(images_view(self.images@.take(i + 1)).last() == self.images@[i as int]@);
            }
            if !crate::text::str_eq_check(self.images[i].path.as_str(), path) {
                let im = Image {
                    name: self.images[i].name.clone(),
                    path: self.images[i].path.clone(),
                    web_path: self.images[i].web_path.clone(),
                    command_id: self.images[i].command_id,
                };
                kept.push(im);
                proof {
                    assert(images_view(kept@) =~= images_view(kept@.drop_last()).push(
                        kept@.last()@,
                    ));
                }
            }
            i = i + 1;
        }
        proof {
            assert(self.images@.take(n as int) =~= self.images@);
            lemma_without_path(images_view(old(self).images@), path@);
        }
        self.images = kept;
        proof {
            lemma_images_wf_from_view(old(self).images@, self.images@);
        }
    }

    /// The adoption pass: registers a row for every listed file that has no
    /// row yet and whose name matches the convention; files that do not
    /// match are skipped silently, and a web-path collision skips the file
    /// rather than aborting the pass.
    pub fn update_images(&mut self, files: &Vec<String>)
        requires
            old(self).wf(),
        ensures
            final(self).wf(),
            final(self).keys@ == old(self).keys@,
            final(self).commands@ == old(self).commands@,
            final(self).targets@ == old(self).targets@,
            final(self).positions@ == old(self).positions@,
            final(self).diagnostics@ == old(self).diagnostics@,
            final(self).next_command_id == old(self).next_command_id,
            final(self).next_key_id == old(self).next_key_id,
            images_view(final(self).images@) == adopt_spec(
                images_view(old(self).images@),
                files@,
            ),
    {
        let n = files.len();
        let mut i: usize = 0;
        while i < n
            invariant
                self.wf(),
                0 <= i <= n,
                n == files@.len(),
                self.keys@ == old(self).keys@,
                self.commands@ == old(self).commands@,
                self.targets@ == old(self).targets@,
                self.positions@ == old(self).positions@,
                self.diagnostics@ == old(self).diagnostics@,
                self.next_command_id == old(self).next_command_id,
                self.next_key_id == old(self).next_key_id,
                images_view(self.images@) == adopt_spec(
                    images_view(old(self).images@),
                    files@.take(i as int),
                ),
            decreases n - i,
        {
            proof {
                assert(files@.take(i + 1).drop_last() =~= files@.take(i as int));
                assert(files@.take(i + 1).last() == files@[i as int]);
            }
            let f = &files[i];
            if !self.image_path_exists(f.as_str()) {
                let fname = file_name_part(f.as_str());
                match parse_image_filename(fname) {
                    None => {},
                    Some((_ts, id, disp)) => {
                        let web = generate_image_url(f.as_str());
                        let ghost pre = images_view(self.images@);
                        let res = self.register_image(disp.as_str(), f.as_str(), web.as_str(), id);
                        proof {
                            if res is Err {
                                assert(has_web_path(pre, image_web_path(files@[i as int]@)));
                            }
                        }
                    },
                }
            }
            i = i + 1;
        }
        proof {
            assert(files@.take(n as int) =~= files@);
        }
    }

    /// One reconciliation run: always prunes rows whose backing file is
    /// absent from the listing, and, when asked to, adopts orphan files that
    /// match the naming convention.
    pub fn check_images(&mut self, files: &Vec<String>, update: bool)
        requires
            old(self).wf(),
        ensures
            final(self).wf(),
            final(self).keys@ == old(self).keys@,
            final(self).commands@ == old(self).commands@,
            final(self).targets@ == old(self).targets@,
            final(self).positions@ == old(self).positions@,
            final(self).diagnostics@ == old(self).diagnostics@,
            final(self).next_command_id == old(self).next_command_id,
            final(self).next_key_id == old(self).next_key_id,
            images_view(final(self).images@) == reconcile_spec(
                images_view(old(self).images@),
                files@,
                update,
            ),
    {
        let n = self.images.len();
        let mut kept: Vec<Image> = Vec::new();
        let mut i: usize = 0;
        while i < n
            invariant
                0 <= i <= n,
                n == self.images@.len(),
                images_view(kept@) == prune_spec(
                    images_view(self.images@.take(i as int)),
                    files@,
                ),
            decreases n - i,
        {
            proof {
                assert(images_view(self.images@.take(i + 1)).drop_last() =~= images_view(
                    self.images@.take(i as int),
                ));
                assert(images_view(self.images@.take(i + 1)).last() == self.images@[i as int]@);
            }
            if contains_string(files, self.images[i].path.as_str()) {
                let im = Image {
                    name: self.images[i].name.clone(),
                    path: self.images[i].path.clone(),
                    web_path: self.images[i].web_path.clone(),
                    command_id: self.images[i].command_id,
                };
                kept.push(im);
                proof {
                    assert(images_view(kept@) =~= images_view(kept@.drop_last()).push(
                        kept@.last()@,
                    ));
                }
            }
            i = i + 1;
        }
        proof {
            assert(self.images@.take(n as int) =~= self.images@);
            lemma_prune(images_view(old(self).images@), files@);
        }
        self.images = kept;
        proof {
            lemma_images_wf_from_view(old(self).images@, self.images@);
        }
        if update {
            self.update_images(files);
        }
    }
}

/// When the models of a new image table are pairwise unique wherever those
/// of a well-formed old table were, the new table's rows satisfy the
/// store's path constraints.
proof fn lemma_images_wf_from_view(olds: Seq<Image>, news: Seq<Image>)
    requires
        forall|i: int, j: int| 0 <= i < j < olds.len() ==> olds[i].path@ != olds[j].path@,
        forall|i: int, j: int| 0 <= i < j < olds.len() ==> olds[i].web_path@ != olds[j].web_path@,
        (forall|i: int, j: int|
            0 <= i < j < images_view(olds).len() ==> images_view(olds)[i].path != images_view(
                olds,
            )[j].path) ==> (forall|i: int, j: int|
            0 <= i < j < images_view(news).len() ==> images_view(news)[i].path != images_view(
                news,
            )[j].path),
        (forall|i: int, j: int|
            0 <= i < j < images_view(olds).len() ==> images_view(olds)[i].web_path != images_view(
                olds,
            )[j].web_path) ==> (forall|i: int, j: int|
            0 <= i < j < images_view(news).len() ==> images_view(news)[i].web_path != images_view(
                news,
            )[j].web_path),
    ensures
        forall|i: int, j: int| 0 <= i < j < news.len() ==> news[i].path@ != news[j].path@,
        forall|i: int, j: int| 0 <= i < j < news.len() ==> news[i].web_path@ != news[j].web_path@,
{
    assert(forall|i: int, j: int|
        0 <= i < j < images_view(olds).len() ==> images_view(olds)[i].path != images_view(
            olds,
        )[j].path);
    assert(forall|i: int, j: int|
        0 <= i < j < images_view(olds).len() ==> images_view(olds)[i].web_path != images_view(
            olds,
        )[j].web_path);
    assert forall|i: int, j: int| 0 <= i < j < news.len() implies news[i].path@
        != news[j].path@ by {
        assert(images_view(news)[i].path != images_view(news)[j].path);
    }
    assert forall|i: int, j: int| 0 <= i < j < news.len() implies news[i].web_path@
        != news[j].web_path@ by {
        assert(images_view(news)[i].web_path != images_view(news)[j].web_path);
    }
}

/// Reconciliation is idempotent: a second run over the same listing, with no
/// intervening filesystem change, leaves the catalog's image table exactly
/// as the first run left it.
pub proof fn lemma_reconcile_idempotent(
    ms: Seq<ImageModel>,
    files: Seq<String>,
    adopt_orphans: bool,
)
    ensures
        reconcile_spec(reconcile_spec(ms, files, adopt_orphans), files, adopt_orphans)
            == reconcile_spec(ms, files, adopt_orphans),
{
    let p = prune_spec(ms, files);
    lemma_prune(ms, files);
    if !adopt_orphans {
        lemma_prune_id(p, files);
    } else {
        let a = adopt_spec(p, files);
        lemma_adopt_paths_listed(p, files);
        lemma_prune_id(a, files);
        lemma_adopt_settles(p, files);
        lemma_adopt_id(a, files);
    }
}

} // verus!
