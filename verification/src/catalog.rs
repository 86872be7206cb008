//! The catalog: devices (keys), commands, images, the two lookup tables, and
//! the well-formedness invariant that every operation preserves.
use vstd::prelude::*;

use crate::status::{valid_status, STATUS_PENDING};

verus! {

/// A device credential: one row of the key table.
#[derive(Debug, Clone)]
pub struct Key {
    /// Row identifier.
    pub id: i64,
    /// The opaque token the device authenticates with; unique.
    pub api_token: String,
    /// Human-readable label.
    pub name: String,
}

/// A queued directive for one device: one row of the command table.
#[derive(Debug, Clone, Copy, PartialEq, Eq, Structural)]
pub struct Command {
    /// Row identifier; unique.
    pub id: i64,
    /// Identifier of the celestial object to image.
    pub target: i64,
    /// Identifier of the position to image it at.
    pub position: i64,
    /// Identifier of the owning key.
    pub associated_key: i64,
    /// Lifecycle status code.
    pub status: i64,
    /// Estimated completion time (Unix seconds), when reported.
    pub time: Option<i64>,
}

/// A registered image artifact: one row of the image table.
#[derive(Debug, Clone)]
pub struct Image {
    /// Display name, derived from target and position.
    pub name: String,
    /// On-disk path; unique.
    pub path: String,
    /// Public web path; unique.
    pub web_path: String,
    /// The command this image fulfils.
    pub command_id: i64,
}

/// A celestial-object name: one row of the target lookup table.
#[derive(Debug, Clone)]
pub struct TargetNameSql {
    /// Lookup identifier.
    pub id: i64,
    /// Object name.
    pub name: String,
}

/// A position name: one row of the position lookup table.
#[derive(Debug, Clone)]
pub struct TargetPosSql {
    /// Lookup identifier.
    pub id: i64,
    /// Position name.
    pub position: String,
}

/// A stored diagnostic message from a device.
#[derive(Debug, Clone)]
pub struct DiagnosticRecord {
    /// Token of the reporting device.
    pub token: String,
    /// Severity identifier.
    pub status: i64,
    /// Free-form message.
    pub message: String,
    /// Unix time of ingestion.
    pub time: i64,
}

/// The whole persistent state: the relational store's tables as plain values.
#[derive(Debug, Clone)]
pub struct Catalog {
    /// Device credentials.
    pub keys: Vec<Key>,
    /// Queued and finished commands, in insertion (age) order.
    pub commands: Vec<Command>,
    /// Registered images, in insertion order.
    pub images: Vec<Image>,
    /// Known celestial objects.
    pub targets: Vec<TargetNameSql>,
    /// Known positions.
    pub positions: Vec<TargetPosSql>,
    /// Stored diagnostics, in insertion order.
    pub diagnostics: Vec<DiagnosticRecord>,
    /// Next identifier handed to a command.
    pub next_command_id: i64,
    /// Next identifier handed to a key.
    pub next_key_id: i64,
}

/// Does some key carry this identifier?
pub open spec fn key_id_known(keys: Seq<Key>, id: i64) -> bool {
    exists|j: int| 0 <= j < keys.len() && keys[j].id == id
}

/// Does some key carry this token?
pub open spec fn has_key_with_token(keys: Seq<Key>, token: Seq<char>) -> bool {
    exists|j: int| 0 <= j < keys.len() && keys[j].api_token@ == token
}

/// The identifier of the key carrying this token, if any.
pub open spec fn key_id_of_token(keys: Seq<Key>, token: Seq<char>) -> Option<i64>
    decreases keys.len(),
{
    if keys.len() == 0 {
        None
    } else if keys[0].api_token@ == token {
        Some(keys[0].id)
    } else {
        key_id_of_token(keys.drop_first(), token)
    }
}

/// Does the target lookup table resolve this identifier?
pub open spec fn target_known(targets: Seq<TargetNameSql>, id: i64) -> bool {
    exists|j: int| 0 <= j < targets.len() && targets[j].id == id
}

/// Does the position lookup table resolve this identifier?
pub open spec fn position_known(positions: Seq<TargetPosSql>, id: i64) -> bool {
    exists|j: int| 0 <= j < positions.len() && positions[j].id == id
}

/// Is this command waiting in the queue of the given key?
pub open spec fn is_pending_for(c: Command, key_id: i64) -> bool {
    c.status == STATUS_PENDING && c.associated_key == key_id
}

impl Catalog {
    /// Every row obeys the store's constraints: unique identifiers, unique
    /// tokens and paths, valid statuses, commands owned by existing keys, and
    /// identifier counters ahead of every row.
    pub open spec fn wf(&self) -> bool {
        &&& forall|i: int, j: int|
            0 <= i < j < self.keys@.len() ==> self.keys@[i].id != self.keys@[j].id
        &&& forall|i: int, j: int|
            0 <= i < j < self.keys@.len() ==> self.keys@[i].api_token@ != self.keys@[j].api_token@
        &&& forall|i: int, j: int|
            0 <= i < j < self.commands@.len() ==> self.commands@[i].id != self.commands@[j].id
        &&& forall|i: int, j: int|
            0 <= i < j < self.images@.len() ==> self.images@[i].path@ != self.images@[j].path@
        &&& forall|i: int, j: int|
            0 <= i < j < self.images@.len() ==> self.images@[i].web_path@
                != self.images@[j].web_path@
        &&& forall|i: int|
            0 <= i < self.commands@.len() ==> valid_status(#[trigger] self.commands@[i].status)
        &&& forall|i: int|
            0 <= i < self.commands@.len() ==> key_id_known(
                self.keys@,
                #[trigger] self.commands@[i].associated_key,
            )
        &&& forall|i: int|
            0 <= i < self.commands@.len() ==> #[trigger] self.commands@[i].id
                < self.next_command_id
        &&& forall|i: int| 0 <= i < self.keys@.len() ==> #[trigger] self.keys@[i].id
            < self.next_key_id
        &&& 0 <= self.next_command_id
        &&& 0 <= self.next_key_id
    }

    /// An empty catalog with the standard lookup tables: the nine objects of
    /// the solar system and the four observation positions.
    pub fn new() -> (cat: Catalog)
        ensures
            cat.wf(),
            cat.keys@.len() == 0,
            cat.commands@.len() == 0,
            cat.images@.len() == 0,
            cat.diagnostics@.len() == 0,
            cat.next_command_id == 1,
            cat.next_key_id == 1,
            cat.targets@.len() == 9,
            forall|j: int| 0 <= j < 9 ==> (#[trigger] cat.targets@[j].id) == j + 1,
            cat.positions@.len() == 4,
            forall|j: int| 0 <= j < 4 ==> (#[trigger] cat.positions@[j].id) == j + 1,
            cat.targets@[4].name@ == "Mars"@,
            cat.positions@[1].position@ == "Zenith"@,
    {
        let mut targets: Vec<TargetNameSql> = Vec::new();
        targets.push(TargetNameSql { id: 1, name: String::from_str("Sun") });
        targets.push(TargetNameSql { id: 2, name: String::from_str("Moon") });
        targets.push(TargetNameSql { id: 3, name: String::from_str("Mercury") });
        targets.push(TargetNameSql { id: 4, name: String::from_str("Venus") });
        targets.push(TargetNameSql { id: 5, name: String::from_str("Mars") });
        targets.push(TargetNameSql { id: 6, name: String::from_str("Jupiter") });
        targets.push(TargetNameSql { id: 7, name: String::from_str("Saturn") });
        targets.push(TargetNameSql { id: 8, name: String::from_str("Uranus") });
        targets.push(TargetNameSql { id: 9, name: String::from_str("Neptune") });
        let mut positions: Vec<TargetPosSql> = Vec::new();
        positions.push(TargetPosSql { id: 1, position: String::from_str("Rising") });
        positions.push(TargetPosSql { id: 2, position: String::from_str("Zenith") });
        positions.push(TargetPosSql { id: 3, position: String::from_str("Setting") });
        positions.push(TargetPosSql { id: 4, position: String::from_str("Any") });
        Catalog {
            keys: Vec::new(),
            commands: Vec::new(),
            images: Vec::new(),
            targets,
            positions,
            diagnostics: Vec::new(),
            next_command_id: 1,
            next_key_id: 1,
        }
    }
}

} // verus!
