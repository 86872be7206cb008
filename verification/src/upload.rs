//! The upload finalizer: validates an inbound payload, derives the
//! deterministic storage paths, and, once the caller has written the bytes,
//! registers the artifact and completes the owning command.
use vstd::prelude::*;

use base64::Engine;

use crate::catalog::{key_id_of_token, Catalog, Command, TargetNameSql, TargetPosSql};
use crate::commands::command_idx;
use crate::images::{has_path, has_web_path, images_view, joined_path, ImageModel};
use crate::status::STATUS_COMPLETE;
use crate::text::{dec_str_int, i64_to_string};

verus! {

/// An image upload request as received from the wire.
#[derive(Debug, Clone)]
pub struct UploadImage {
    /// Authentication token of the uploading device.
    pub token: String,
    /// The image payload in its transport encoding.
    pub data: String,
    /// The identifier of the command the image fulfils.
    pub id: i64,
}

/// The display-name parts of an image, resolved from its command.
#[derive(Debug, Clone)]
pub struct ImageName {
    /// The target object's name.
    pub target: String,
    /// The position's name.
    pub position: String,
}

impl ImageName {
    /// The label the two parts form: target and position joined by an
    /// underscore.
    pub fn to_string(&self) -> (r: String)
        ensures
            r@ == self.target@ + seq!['_'] + self.position@,
    {
        let mut s = self.target.clone();
        s.append("_");
        s.append(self.position.as_str());
        proof {
            reveal_strlit("_");
            assert("_"@ =~= seq!['_']);
            assert(s@ =~= self.target@ + seq!['_'] + self.position@);
        }
        s
    }
}

/// What decoding the transport encoding yields.  Relies on base64's
/// standard-alphabet engine: the result is a function of the input string
/// alone.
pub uninterp spec fn base64_decoding(s: Seq<char>) -> Option<Seq<u8>>;

/// Relies on `base64::engine::general_purpose::STANDARD.decode`: decodes the
/// standard base64 alphabet, or fails on malformed input.
#[verifier::external_body]
fn decode_base64(s: &str) -> (r: Option<Vec<u8>>)
    ensures
        match r {
            Some(v) => base64_decoding(s@) == Some(v@),
            None => base64_decoding(s@) is None,
        },
{
    base64::engine::general_purpose::STANDARD.decode(s).ok()
}

/// Whether the bytes look like an image.  Relies on `infer::is_image`: the
/// sniff is a function of the bytes alone.
pub uninterp spec fn is_image_bytes(b: Seq<u8>) -> bool;

/// Relies on `infer::is_image`: matches the bytes against the known image
/// signatures.
#[verifier::external_body]
fn sniff_is_image(b: &Vec<u8>) -> (r: bool)
    ensures
        r == is_image_bytes(b@),
{
    infer::is_image(b)
}

/// The canonical file extension of the sniffed type.  Relies on
/// `infer::get`: the inferred type is a function of the bytes alone.
pub uninterp spec fn inferred_extension(b: Seq<u8>) -> Option<Seq<char>>;

/// Relies on `infer::get` and `infer::Type::extension`: the sniffed type's
/// canonical extension, or nothing when the bytes match no known type.
#[verifier::external_body]
fn sniff_extension(b: &Vec<u8>) -> (r: Option<String>)
    ensures
        match r {
            Some(e) => inferred_extension(b@) == Some(e@),
            None => inferred_extension(b@) is None,
        },
{
    infer::get(b).map(|t| t.extension().to_string())
}

/// Relies on `chrono::Utc::now` and `timestamp`: the wall clock's Unix
/// second.  Nothing can be promised of the clock's value.
#[verifier::external_body]
pub(crate) fn current_unix_time() -> (t: i64) {
    chrono::Utc::now().timestamp()
}

/// The name of the first target row carrying the identifier, if any.
pub open spec fn target_name_of(targets: Seq<TargetNameSql>, id: i64) -> Option<Seq<char>>
    decreases targets.len(),
{
    if targets.len() == 0 {
        None
    } else if targets[0].id == id {
        Some(targets[0].name@)
    } else {
        target_name_of(targets.drop_first(), id)
    }
}

/// The name of the first position row carrying the identifier, if any.
pub open spec fn position_name_of(positions: Seq<TargetPosSql>, id: i64) -> Option<Seq<char>>
    decreases positions.len(),
{
    if positions.len() == 0 {
        None
    } else if positions[0].id == id {
        Some(positions[0].position@)
    } else {
        position_name_of(positions.drop_first(), id)
    }
}

/// The resolved target and position names of the command carrying the
/// identifier; nothing when the command is absent or either lookup fails.
pub open spec fn image_name_of(
    cs: Seq<Command>,
    targets: Seq<TargetNameSql>,
    positions: Seq<TargetPosSql>,
    id: i64,
) -> Option<(Seq<char>, Seq<char>)> {
    match command_idx(cs, id) {
        None => None,
        Some(i) => match (target_name_of(targets, cs[i].target), position_name_of(
            positions,
            cs[i].position,
        )) {
            (Some(t), Some(p)) => Some((t, p)),
            _ => None,
        },
    }
}

/// The display label an upload is filed under: the resolved names joined by
/// an underscore, or the placeholder when resolution fails, so that an
/// upload is never lost to a metadata join failure.
pub open spec fn image_label_for(
    cs: Seq<Command>,
    targets: Seq<TargetNameSql>,
    positions: Seq<TargetPosSql>,
    id: i64,
) -> Seq<char> {
    match image_name_of(cs, targets, positions, id) {
        Some((t, p)) => t + seq!['_'] + p,
        None => "unknown"@ + seq!['_'] + "unknown"@,
    }
}

/// The deterministic file name of an upload: timestamp, command identifier,
/// and label, dash-separated, with the sniffed extension.
pub open spec fn upload_filename(now: int, id: int, label: Seq<char>, ext: Seq<char>) -> Seq<char> {
    dec_str_int(now) + seq!['-'] + dec_str_int(id) + seq!['-'] + label + seq!['.'] + ext
}

/// When no target row before index `i` carries the identifier and the row at
/// `i` does, the lookup resolves to the row at `i`.
proof fn lemma_target_name_prefix(targets: Seq<TargetNameSql>, id: i64, i: int)
    requires
        0 <= i < targets.len(),
        targets[i].id == id,
        forall|j: int| 0 <= j < i ==> (#[trigger] targets[j]).id != id,
    ensures
        target_name_of(targets, id) == Some(targets[i].name@),
    decreases i,
{
    if i > 0 {
        let sub = targets.drop_first();
        assert(forall|j: int| 0 <= j < sub.len() ==> #[trigger] sub[j] == targets[j + 1]);
        lemma_target_name_prefix(sub, id, i - 1);
    }
}

/// When no target row carries the identifier, the lookup fails.
proof fn lemma_target_name_none(targets: Seq<TargetNameSql>, id: i64)
    requires
        forall|j: int| 0 <= j < targets.len() ==> (#[trigger] targets[j]).id != id,
    ensures
        target_name_of(targets, id) is None,
    decreases targets.len(),
{
    if targets.len() > 0 {
        let sub = targets.drop_first();
        assert(forall|j: int| 0 <= j < sub.len() ==> #[trigger] sub[j] == targets[j + 1]);
        lemma_target_name_none(sub, id);
    }
}

/// When no position row before index `i` carries the identifier and the row
/// at `i` does, the lookup resolves to the row at `i`.
proof fn lemma_position_name_prefix(positions: Seq<TargetPosSql>, id: i64, i: int)
    requires
        0 <= i < positions.len(),
        positions[i].id == id,
        forall|j: int| 0 <= j < i ==> (#[trigger] positions[j]).id != id,
    ensures
        position_name_of(positions, id) == Some(positions[i].position@),
    decreases i,
{
    if i > 0 {
        let sub = positions.drop_first();
        assert(forall|j: int| 0 <= j < sub.len() ==> #[trigger] sub[j] == positions[j + 1]);
        lemma_position_name_prefix(sub, id, i - 1);
    }
}

/// When no position row carries the identifier, the lookup fails.
proof fn lemma_position_name_none(positions: Seq<TargetPosSql>, id: i64)
    requires
        forall|j: int| 0 <= j < positions.len() ==> (#[trigger] positions[j]).id != id,
    ensures
        position_name_of(positions, id) is None,
    decreases positions.len(),
{
    if positions.len() > 0 {
        let sub = positions.drop_first();
        assert(forall|j: int| 0 <= j < sub.len() ==> #[trigger] sub[j] == positions[j + 1]);
        lemma_position_name_none(sub, id);
    }
}

/// Why an upload was rejected; in every case but a successful commit the
/// catalog is unchanged.
#[derive(Debug, Clone, Copy, PartialEq, Eq, Structural)]
pub enum UploadError {
    /// The token is not a valid device credential.
    Unauthorized,
    /// The payload's transport encoding is malformed.
    DecodeFailed,
    /// The decoded bytes are not a recognised image type.
    NotAnImage,
    /// A storage-level failure: an unidentifiable type, a failed file write,
    /// or a path collision in the catalog.
    Internal,
}

/// A validated upload, ready to be written to disk: the derived names and
/// paths together with the decoded bytes.
#[derive(Debug, Clone)]
pub struct UploadPlan {
    /// The deterministic file name.
    pub filename: String,
    /// The on-disk path under the image directory.
    pub path: String,
    /// The public web path.
    pub web_path: String,
    /// The display label for the catalog row.
    pub name: String,
    /// The decoded image bytes to write.
    pub bytes: Vec<u8>,
    /// The command the upload fulfils.
    pub command_id: i64,
}

/// When an upload passes validation: the token is valid, the payload
/// decodes, the bytes are an image, and the image's type is identifiable.
pub open spec fn upload_accepted(cat: Catalog, req: UploadImage) -> bool {
    &&& key_id_of_token(cat.keys@, req.token@) is Some
    &&& base64_decoding(req.data@) is Some
    &&& is_image_bytes(base64_decoding(req.data@)->Some_0)
    &&& inferred_extension(base64_decoding(req.data@)->Some_0) is Some
}

/// The error a rejected upload reports, by the first check that fails.
pub open spec fn upload_error_for(cat: Catalog, req: UploadImage) -> UploadError {
    if key_id_of_token(cat.keys@, req.token@) is None {
        UploadError::Unauthorized
    } else if base64_decoding(req.data@) is None {
        UploadError::DecodeFailed
    } else if !is_image_bytes(base64_decoding(req.data@)->Some_0) {
        UploadError::NotAnImage
    } else {
        UploadError::Internal
    }
}

/// What a validated upload plan holds for a given catalog, directory,
/// request and timestamp.
pub open spec fn upload_plan_ok(
    cat: Catalog,
    dir: crate::images::ImageDirectory,
    req: UploadImage,
    now: int,
    plan: UploadPlan,
) -> bool {
    let bs = base64_decoding(req.data@)->Some_0;
    let ext = inferred_extension(bs)->Some_0;
    let label = image_label_for(cat.commands@, cat.targets@, cat.positions@, req.id);
    let fname = upload_filename(now, req.id as int, label, ext);
    &&& plan.bytes@ == bs
    &&& plan.name@ == label
    &&& plan.filename@ == fname
    &&& plan.path@ == joined_path(dir.path@, fname)
    &&& plan.web_path@ == "/assets/images/"@ + fname
    &&& plan.command_id == req.id
}

impl Catalog {
    /// The first target row's name for the identifier, if any.
    pub(crate) fn lookup_target_name(&self, id: i64) -> (r: Option<String>)
        ensures
            match r {
                Some(s) => target_name_of(self.targets@, id) == Some(s@),
                None => target_name_of(self.targets@, id) is None,
            },
    {
        let n = self.targets.len();
        let mut i: usize = 0;
        while i < n
            invariant
                0 <= i <= n,
                n == self.targets@.len(),
                forall|j: int| 0 <= j < i ==> (#[trigger] self.targets@[j]).id != id,
            decreases n - i,
        {
            if self.targets[i].id == id {
                proof {
                    lemma_target_name_prefix(self.targets@, id, i as int);
                }
                return Some(self.targets[i].name.clone());
            }
            i = i + 1;
        }
        proof {
            lemma_target_name_none(self.targets@, id);
        }
        None
    }

    /// The first position row's name for the identifier, if any.
    pub(crate) fn lookup_position_name(&self, id: i64) -> (r: Option<String>)
        ensures
            match r {
                Some(s) => position_name_of(self.positions@, id) == Some(s@),
                None => position_name_of(self.positions@, id) is None,
            },
    {
        let n = self.positions.len();
        let mut i: usize = 0;
        while i < n
            invariant
                0 <= i <= n,
                n == self.positions@.len(),
                forall|j: int| 0 <= j < i ==> (#[trigger] self.positions@[j]).id != id,
            decreases n - i,
        {
            if self.positions[i].id == id {
                proof {
                    lemma_position_name_prefix(self.positions@, id, i as int);
                }
                return Some(self.positions[i].position.clone());
            }
            i = i + 1;
        }
        proof {
            lemma_position_name_none(self.positions@, id);
        }
        None
    }

    /// Resolves the display-name parts of the command carrying the
    /// identifier: its target's name and its position's name.
    pub fn get_image_name(&self, id: i64) -> (r: Option<ImageName>)
        ensures
            match r {
                Some(name) => image_name_of(self.commands@, self.targets@, self.positions@, id)
                    == Some((name.target@, name.position@)),
                None => image_name_of(self.commands@, self.targets@, self.positions@, id) is None,
            },
    {
        let idx = match self.find_command_idx(id) {
            Some(i) => i,
            None => {
                return None;
            },
        };
        proof {
            crate::commands::lemma_command_idx(self.commands@, id);
        }
        let c = self.commands[idx];
        let target = match self.lookup_target_name(c.target) {
            Some(t) => t,
            None => {
                return None;
            },
        };
        let position = match self.lookup_position_name(c.position) {
            Some(p) => p,
            None => {
                return None;
            },
        };
        Some(ImageName { target, position })
    }

    /// Validates an upload request against the catalog and derives the
    /// deterministic storage plan for the given timestamp.  Rejects, with
    /// the catalog untouched, an invalid token, a malformed payload, bytes
    /// that are not an image, and an unidentifiable image type; a failed
    /// name resolution falls back to a placeholder label instead of losing
    /// the upload.
    pub fn process_upload(
        &self,
        dir: &crate::images::ImageDirectory,
        req: &UploadImage,
        now: i64,
    ) -> (r: Result<UploadPlan, UploadError>)
        ensures
            r is Ok <==> upload_accepted(*self, *req),
            match r {
                Ok(plan) => upload_plan_ok(*self, *dir, *req, now as int, plan),
                Err(e) => e == upload_error_for(*self, *req),
            },
    {
        if !self.verify_key(req.token.as_str()) {
            return Err(UploadError::Unauthorized);
        }
        let decoded = match decode_base64(req.data.as_str()) {
            Some(d) => d,
            None => {
                return Err(UploadError::DecodeFailed);
            },
        };
        if !sniff_is_image(&decoded) {
            return Err(UploadError::NotAnImage);
        }
        let ext = match sniff_extension(&decoded) {
            Some(e) => e,
            None => {
                return Err(UploadError::Internal);
            },
        };
        let label: String = match self.get_image_name(req.id) {
            Some(nm) => nm.to_string(),
            None => {
                let s = String::from_str("unknown_unknown");
                proof {
                    reveal_strlit("unknown_unknown");
                    reveal_strlit("unknown");
                    reveal_strlit("_");
                    assert(s@ =~= "unknown"@ + seq!['_'] + "unknown"@);
                }
                s
            },
        };
        let mut filename = i64_to_string(now);
        filename.append("-");
        let id_str = i64_to_string(req.id);
        filename.append(id_str.as_str());
        filename.append("-");
        filename.append(label.as_str());
        filename.append(".");
        filename.append(ext.as_str());
        proof {
            reveal_strlit("-");
            reveal_strlit(".");
            assert("-"@ =~= seq!['-']);
            assert("."@ =~= seq!['.']);
            assert(filename@ =~= upload_filename(
                now as int,
                req.id as int,
                image_label_for(self.commands@, self.targets@, self.positions@, req.id),
                inferred_extension(base64_decoding(req.data@)->Some_0)->Some_0,
            ));
        }
        let mut path = dir.path.clone();
        path.append("/");
        path.append(filename.as_str());
        let mut web_path = String::from_str("/assets/images/");
        web_path.append(filename.as_str());
        proof {
            reveal_strlit("/");
            assert("/"@ =~= seq!['/']);
            assert(path@ =~= joined_path(dir.path@, filename@));
        }
        Ok(
            UploadPlan {
                filename,
                path,
                web_path,
                name: label,
                bytes: decoded,
                command_id: req.id,
            },
        )
    }

    /// Validates an upload request against the wall clock's timestamp.
    pub fn upload_image(&self, dir: &crate::images::ImageDirectory, req: &UploadImage) -> (r:
        Result<UploadPlan, UploadError>)
        ensures
            r is Ok <==> upload_accepted(*self, *req),
            match r {
                Ok(plan) => exists|now: int| upload_plan_ok(*self, *dir, *req, now, plan),
                Err(e) => e == upload_error_for(*self, *req),
            },
    {
        let now = current_unix_time();
        let r = self.process_upload(dir, req, now);
        proof {
            if r is Ok {
                assert(upload_plan_ok(*self, *dir, *req, now as int, r->Ok_0));
            }
        }
        r
    }

    /// Finalizes an upload after the caller has attempted the file write.
    /// No image row is created unless the write succeeded, and the command
    /// is completed exactly when its image row is registered, so a failure
    /// at any step leaves the command re-uploadable.
    pub fn commit_upload(&mut self, plan: &UploadPlan, write_ok: bool) -> (r: Result<
        (),
        UploadError,
    >)
        requires
            old(self).wf(),
        ensures
            final(self).wf(),
            final(self).keys@ == old(self).keys@,
            final(self).targets@ == old(self).targets@,
            final(self).positions@ == old(self).positions@,
            final(self).diagnostics@ == old(self).diagnostics@,
            final(self).next_command_id == old(self).next_command_id,
            final(self).next_key_id == old(self).next_key_id,
            r is Ok <==> write_ok && !has_path(images_view(old(self).images@), plan.path@)
                && !has_web_path(images_view(old(self).images@), plan.web_path@),
            match r {
                Err(e) => {
                    &&& final(self).images@ == old(self).images@
                    &&& final(self).commands@ == old(self).commands@
                    &&& e == UploadError::Internal
                },
                Ok(u) => {
                    &&& images_view(final(self).images@) == images_view(old(self).images@).push(
                        ImageModel {
                            name: plan.name@,
                            path: plan.path@,
                            web_path: plan.web_path@,
                            command_id: plan.command_id,
                        },
                    )
                    &&& final(self).commands@ == match command_idx(
                        old(self).commands@,
                        plan.command_id,
                    ) {
                        None => old(self).commands@,
                        Some(i) => old(self).commands@.update(
                            i,
                            Command { status: STATUS_COMPLETE, ..old(self).commands@[i] },
                        ),
                    }
                },
            },
    {
        if !write_ok {
            return Err(UploadError::Internal);
        }
        match self.register_image(
            plan.name.as_str(),
            plan.path.as_str(),
            plan.web_path.as_str(),
            plan.command_id,
        ) {
            Err(_) => Err(UploadError::Internal),
            Ok(()) => {
                self.modify_command_status(plan.command_id, STATUS_COMPLETE);
                Ok(())
            },
        }
    }
}

} // verus!
