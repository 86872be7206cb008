//! The command queue: enqueue, the at-most-once dispatch protocol, device
//! status reports, soft deletion, and the administrative cascade.
use vstd::prelude::*;

use crate::catalog::{
    is_pending_for, key_id_known, key_id_of_token, position_known, target_known, Catalog, Command,
    Key, TargetNameSql, TargetPosSql,
};
use crate::status::{
    report_allowed, reportable_status, valid_status, STATUS_FETCHED, STATUS_INVALID_TARGET,
    STATUS_PENDING, STATUS_PROCESSING, STATUS_SOFT_DELETED,
};
use crate::text::str_eq_check;

verus! {

/// The payload handed to a device by a successful dispatch.
#[derive(Debug, Clone, Copy, PartialEq, Eq, Structural)]
pub struct CommandSql {
    /// The dispatched command's identifier.
    pub id: i64,
    /// Its target object identifier.
    pub target: i64,
    /// Its position identifier.
    pub position: i64,
}

/// What a dispatch call reports back to the polling device.
#[derive(Debug, Clone, Copy, PartialEq, Eq, Structural)]
pub enum DispatchResult {
    /// The device claimed this command; its status is now fetched.
    Dispatched(CommandSql),
    /// No pending command is available for the device.
    NoneAvailable,
}

/// An enqueue request: target, position, and owning key.
#[derive(Debug, Clone, Copy, PartialEq, Eq, Structural)]
pub struct CommandJson {
    /// Target object identifier.
    pub target: i64,
    /// Position identifier.
    pub position: i64,
    /// Identifier of the key that will own the command.
    pub associated_key_id: i64,
}

/// Why an enqueue request was rejected; no row is created in any of these cases.
#[derive(Debug, Clone, Copy, PartialEq, Eq, Structural)]
pub enum EnqueueError {
    /// The target does not resolve to a known object.
    UnknownTarget,
    /// The position does not resolve to a known position.
    UnknownPosition,
    /// No key carries the given identifier.
    UnknownDevice,
}

/// Why a report was rejected; the catalog is unchanged in every such case.
#[derive(Debug, Clone, Copy, PartialEq, Eq, Structural)]
pub enum ReportError {
    /// No command with that identifier belongs to the reporting device.
    NotFound,
    /// The requested status is not one a device may set.
    StatusOutOfRange,
    /// The command's current status does not permit the requested transition.
    IllegalTransition,
}

/// A device's status report as received from the wire.
#[derive(Debug, Clone)]
pub struct ResponseCommandJson {
    /// The reporting device's token.
    pub token: String,
    /// The command being reported on.
    pub id: i64,
    /// The requested new status.
    pub status: i64,
    /// An estimated completion time, meaningful when moving to processing.
    pub time: Option<i64>,
}

/// The index of the oldest command pending for the key, if any.
pub open spec fn first_pending_idx(cs: Seq<Command>, key_id: i64) -> Option<int>
    decreases cs.len(),
{
    if cs.len() == 0 {
        None
    } else if is_pending_for(cs[0], key_id) {
        Some(0int)
    } else {
        match first_pending_idx(cs.drop_first(), key_id) {
            Some(i) => Some(i + 1),
            None => None,
        }
    }
}

/// What `first_pending_idx` returns: the least index of a pending command of
/// the key, or nothing when the key has no pending command.
pub proof fn lemma_first_pending_idx(cs: Seq<Command>, key_id: i64)
    ensures
        match first_pending_idx(cs, key_id) {
            Some(i) => 0 <= i < cs.len() && is_pending_for(cs[i], key_id) && forall|j: int|
                0 <= j < i ==> !is_pending_for(#[trigger] cs[j], key_id),
            None => forall|j: int| 0 <= j < cs.len() ==> !is_pending_for(
                #[trigger] cs[j],
                key_id,
            ),
        },
    decreases cs.len(),
{
    if cs.len() > 0 && !is_pending_for(cs[0], key_id) {
        let sub = cs.drop_first();
        lemma_first_pending_idx(sub, key_id);
        match first_pending_idx(sub, key_id) {
            Some(i) => {
                assert forall|j: int| 0 <= j < i + 1 implies !is_pending_for(
                    #[trigger] cs[j],
                    key_id,
                ) by {
                    if j > 0 {
                        assert(!is_pending_for(sub[j - 1], key_id));
                    }
                }
            },
            None => {
                assert forall|j: int| 0 <= j < cs.len() implies !is_pending_for(
                    #[trigger] cs[j],
                    key_id,
                ) by {
                    if j > 0 {
                        assert(!is_pending_for(sub[j - 1], key_id));
                    }
                }
            },
        }
    }
}

/// One atomic dispatch over the command table for a resolved key: claims the
/// oldest pending command, or consumes it as invalid when its target or
/// position does not resolve.  Returns the new table and the claimed
/// command's pre-dispatch row, if one was claimed.
pub open spec fn dispatch_step(
    cs: Seq<Command>,
    targets: Seq<TargetNameSql>,
    positions: Seq<TargetPosSql>,
    key_id: i64,
) -> (Seq<Command>, Option<Command>) {
    match first_pending_idx(cs, key_id) {
        None => (cs, None),
        Some(i) => {
            let c = cs[i];
            if target_known(targets, c.target) && position_known(positions, c.position) {
                (cs.update(i, Command { status: STATUS_FETCHED, ..c }), Some(c))
            } else {
                (cs.update(i, Command { status: STATUS_INVALID_TARGET, ..c }), None)
            }
        },
    }
}

/// The index of the command carrying the identifier, if any.
pub open spec fn command_idx(cs: Seq<Command>, id: i64) -> Option<int>
    decreases cs.len(),
{
    if cs.len() == 0 {
        None
    } else if cs[0].id == id {
        Some(0int)
    } else {
        match command_idx(cs.drop_first(), id) {
            Some(i) => Some(i + 1),
            None => None,
        }
    }
}

/// What `command_idx` returns: the least index carrying the identifier, or
/// nothing when no command carries it.
pub proof fn lemma_command_idx(cs: Seq<Command>, id: i64)
    ensures
        match command_idx(cs, id) {
            Some(i) => 0 <= i < cs.len() && cs[i].id == id && forall|j: int|
                0 <= j < i ==> (#[trigger] cs[j]).id != id,
            None => forall|j: int| 0 <= j < cs.len() ==> (#[trigger] cs[j]).id != id,
        },
    decreases cs.len(),
{
    if cs.len() > 0 && cs[0].id != id {
        let sub = cs.drop_first();
        lemma_command_idx(sub, id);
        match command_idx(sub, id) {
            Some(i) => {
                assert forall|j: int| 0 <= j < i + 1 implies (#[trigger] cs[j]).id != id by {
                    if j > 0 {
                        assert(sub[j - 1].id != id);
                    }
                }
            },
            None => {
                assert forall|j: int| 0 <= j < cs.len() implies (#[trigger] cs[j]).id != id by {
                    if j > 0 {
                        assert(sub[j - 1].id != id);
                    }
                }
            },
        }
    }
}

/// What `key_id_of_token` returns: the identifier of the first key carrying
/// the token, or nothing when no key carries it.
pub proof fn lemma_key_id_of_token(keys: Seq<Key>, token: Seq<char>)
    ensures
        match key_id_of_token(keys, token) {
            Some(id) => exists|j: int|
                0 <= j < keys.len() && (#[trigger] keys[j]).api_token@ == token && keys[j].id
                    == id,
            None => forall|j: int| 0 <= j < keys.len() ==> (#[trigger] keys[j]).api_token@
                != token,
        },
    decreases keys.len(),
{
    if keys.len() > 0 && keys[0].api_token@ != token {
        let sub = keys.drop_first();
        lemma_key_id_of_token(sub, token);
        match key_id_of_token(sub, token) {
            Some(id) => {
                let j = choose|j: int|
                    0 <= j < sub.len() && (#[trigger] sub[j]).api_token@ == token && sub[j].id
                        == id;
                assert(keys[j + 1].api_token@ == token && keys[j + 1].id == id);
            },
            None => {
                assert forall|j: int| 0 <= j < keys.len() implies (#[trigger] keys[j]).api_token@
                    != token by {
                    if j > 0 {
                        assert(sub[j - 1].api_token@ != token);
                    }
                }
            },
        }
    }
}

/// When no key before index `i` carries the token and the key at `i` does,
/// the token resolves to the key at `i`.
pub proof fn lemma_key_id_of_token_prefix(keys: Seq<Key>, token: Seq<char>, i: int)
    requires
        0 <= i < keys.len(),
        keys[i].api_token@ == token,
        forall|j: int| 0 <= j < i ==> (#[trigger] keys[j]).api_token@ != token,
    ensures
        key_id_of_token(keys, token) == Some(keys[i].id),
    decreases i,
{
    if i > 0 {
        let sub = keys.drop_first();
        assert(forall|j: int| 0 <= j < sub.len() ==> #[trigger] sub[j] == keys[j + 1]);
        lemma_key_id_of_token_prefix(sub, token, i - 1);
    }
}

/// The command table with every command of the key removed; order of the
/// remaining commands is kept.
pub open spec fn without_key(cs: Seq<Command>, key_id: i64) -> Seq<Command>
    decreases cs.len(),
{
    if cs.len() == 0 {
        Seq::empty()
    } else {
        let rest = without_key(cs.drop_last(), key_id);
        if cs.last().associated_key == key_id {
            rest
        } else {
            rest.push(cs.last())
        }
    }
}

/// The cascade keeps exactly the commands of other keys, keeps their order,
/// and keeps identifier uniqueness.
pub proof fn lemma_without_key(cs: Seq<Command>, key_id: i64)
    ensures
        ({
            let r = without_key(cs, key_id);
            &&& r.len() <= cs.len()
            &&& forall|i: int| 0 <= i < r.len() ==> cs.contains(#[trigger] r[i])
            &&& forall|i: int| 0 <= i < r.len() ==> (#[trigger] r[i]).associated_key != key_id
            &&& forall|j: int|
                0 <= j < cs.len() && (#[trigger] cs[j]).associated_key != key_id ==> r.contains(
                    cs[j],
                )
            &&& (forall|i: int, j: int| 0 <= i < j < cs.len() ==> cs[i].id != cs[j].id)
                ==> (forall|i: int, j: int| 0 <= i < j < r.len() ==> r[i].id != r[j].id)
        }),
    decreases cs.len(),
{
    if cs.len() > 0 {
        let sub = cs.drop_last();
        lemma_without_key(sub, key_id);
        let rsub = without_key(sub, key_id);
        let r = without_key(cs, key_id);
        assert forall|i: int| 0 <= i < rsub.len() implies cs.contains(#[trigger] rsub[i]) by {
            assert(sub.contains(rsub[i]));
            let w = choose|w: int| 0 <= w < sub.len() && sub[w] == rsub[i];
            assert(cs[w] == rsub[i]);
        }
        assert(cs.last() == cs[cs.len() - 1]);
        if cs.last().associated_key != key_id {
            assert(r == rsub.push(cs.last()));
            assert(cs.contains(cs.last()));
            assert forall|j: int|
                0 <= j < cs.len() && (#[trigger] cs[j]).associated_key != key_id implies r.contains(
                cs[j],
            ) by {
                if j < cs.len() - 1 {
                    assert(sub[j] == cs[j]);
                    assert(rsub.contains(cs[j]));
                    let w = choose|w: int| 0 <= w < rsub.len() && rsub[w] == cs[j];
                    assert(r[w] == cs[j]);
                } else {
                    assert(r[r.len() - 1] == cs[j]);
                }
            }
            if forall|i: int, j: int| 0 <= i < j < cs.len() ==> cs[i].id != cs[j].id {
                assert forall|i: int, j: int| 0 <= i < j < r.len() implies r[i].id != r[j].id by {
                    if j < r.len() - 1 {
                        assert(rsub[i].id != rsub[j].id);
                    } else {
                        assert(r[j] == cs.last());
                        assert(sub.contains(r[i]));
                        let w = choose|w: int| 0 <= w < sub.len() && sub[w] == r[i];
                        assert(cs[w] == r[i]);
                        assert(cs[w].id != cs[cs.len() - 1].id);
                    }
                }
            }
        } else {
            assert(r == rsub);
            assert forall|j: int|
                0 <= j < cs.len() && (#[trigger] cs[j]).associated_key != key_id implies r.contains(
                cs[j],
            ) by {
                assert(j < cs.len() - 1);
                assert(sub[j] == cs[j]);
                assert(rsub.contains(cs[j]));
            }
        }
    }
}

/// The key table with the key of the identifier removed.
pub open spec fn keys_without(keys: Seq<Key>, id: i64) -> Seq<Key>
    decreases keys.len(),
{
    if keys.len() == 0 {
        Seq::empty()
    } else {
        let rest = keys_without(keys.drop_last(), id);
        if keys.last().id == id {
            rest
        } else {
            rest.push(keys.last())
        }
    }
}

/// Key removal keeps exactly the other keys, their order, and uniqueness of
/// identifiers and tokens.
pub proof fn lemma_keys_without(keys: Seq<Key>, id: i64)
    ensures
        ({
            let r = keys_without(keys, id);
            &&& r.len() <= keys.len()
            &&& forall|i: int| 0 <= i < r.len() ==> keys.contains(#[trigger] r[i])
            &&& forall|i: int| 0 <= i < r.len() ==> (#[trigger] r[i]).id != id
            &&& forall|j: int|
                0 <= j < keys.len() && (#[trigger] keys[j]).id != id ==> r.contains(keys[j])
            &&& (forall|i: int, j: int| 0 <= i < j < keys.len() ==> keys[i].id != keys[j].id)
                ==> (forall|i: int, j: int| 0 <= i < j < r.len() ==> r[i].id != r[j].id)
            &&& (forall|i: int, j: int|
                0 <= i < j < keys.len() ==> keys[i].api_token@ != keys[j].api_token@) ==> (forall|
                i: int,
                j: int,
            |
                0 <= i < j < r.len() ==> r[i].api_token@ != r[j].api_token@)
        }),
    decreases keys.len(),
{
    if keys.len() > 0 {
        let sub = keys.drop_last();
        lemma_keys_without(sub, id);
        let rsub = keys_without(sub, id);
        let r = keys_without(keys, id);
        assert forall|i: int| 0 <= i < rsub.len() implies keys.contains(#[trigger] rsub[i]) by {
            assert(sub.contains(rsub[i]));
            let w = choose|w: int| 0 <= w < sub.len() && sub[w] == rsub[i];
            assert(keys[w] == rsub[i]);
        }
        assert(keys.last() == keys[keys.len() - 1]);
        if keys.last().id != id {
            assert(r == rsub.push(keys.last()));
            assert(keys.contains(keys.last()));
            assert forall|j: int|
                0 <= j < keys.len() && (#[trigger] keys[j]).id != id implies r.contains(
                keys[j],
            ) by {
                if j < keys.len() - 1 {
                    assert(sub[j] == keys[j]);
                    assert(rsub.contains(keys[j]));
                    let w = choose|w: int| 0 <= w < rsub.len() && rsub[w] == keys[j];
                    assert(r[w] == keys[j]);
                } else {
                    assert(r[r.len() - 1] == keys[j]);
                }
            }
            if forall|i: int, j: int| 0 <= i < j < keys.len() ==> keys[i].id != keys[j].id {
                assert(forall|i: int, j: int| 0 <= i < j < sub.len() ==> sub[i].id != sub[j].id);
                assert forall|i: int, j: int| 0 <= i < j < r.len() implies r[i].id != r[j].id by {
                    if j < r.len() - 1 {
                        assert(rsub[i].id != rsub[j].id);
                    } else {
                        assert(r[j] == keys.last());
                        assert(sub.contains(r[i]));
                        let w = choose|w: int| 0 <= w < sub.len() && sub[w] == r[i];
                        assert(keys[w] == r[i]);
                        assert(keys[w].id != keys[keys.len() - 1].id);
                    }
                }
            }
            if forall|i: int, j: int|
                0 <= i < j < keys.len() ==> keys[i].api_token@ != keys[j].api_token@ {
                assert(forall|i: int, j: int|
                    0 <= i < j < sub.len() ==> sub[i].api_token@ != sub[j].api_token@);
                assert forall|i: int, j: int| 0 <= i < j < r.len() implies r[i].api_token@
                    != r[j].api_token@ by {
                    if j < r.len() - 1 {
                        assert(rsub[i].api_token@ != rsub[j].api_token@);
                    } else {
                        assert(r[j] == keys.last());
                        assert(sub.contains(r[i]));
                        let w = choose|w: int| 0 <= w < sub.len() && sub[w] == r[i];
                        assert(keys[w] == r[i]);
                        assert(keys[w].api_token@ != keys[keys.len() - 1].api_token@);
                    }
                }
            }
        } else {
            assert(r == rsub);
            assert forall|j: int|
                0 <= j < keys.len() && (#[trigger] keys[j]).id != id implies r.contains(
                keys[j],
            ) by {
                assert(j < keys.len() - 1);
                assert(sub[j] == keys[j]);
                assert(rsub.contains(keys[j]));
            }
            if forall|i: int, j: int| 0 <= i < j < keys.len() ==> keys[i].id != keys[j].id {
                assert(forall|i: int, j: int| 0 <= i < j < sub.len() ==> sub[i].id != sub[j].id);
            }
            if forall|i: int, j: int|
                0 <= i < j < keys.len() ==> keys[i].api_token@ != keys[j].api_token@ {
                assert(forall|i: int, j: int|
                    0 <= i < j < sub.len() ==> sub[i].api_token@ != sub[j].api_token@);
            }
        }
    }
}

impl Catalog {
    /// Is the token a valid device credential?
    pub fn verify_key(&self, token: &str) -> (r: bool)
        ensures
            r == (key_id_of_token(self.keys@, token@) is Some),
    {
        self.find_key_id(token).is_some()
    }

    /// The identifier of the key carrying the token, if any.
    pub fn find_key_id(&self, token: &str) -> (r: Option<i64>)
        ensures
            r == key_id_of_token(self.keys@, token@),
    {
        let n = self.keys.len();
        let mut i: usize = 0;
        while i < n
            invariant
                0 <= i <= n,
                n == self.keys@.len(),
                forall|j: int| 0 <= j < i ==> (#[trigger] self.keys@[j]).api_token@ != token@,
            decreases n - i,
        {
            if str_eq_check(self.keys[i].api_token.as_str(), token) {
                proof {
                    lemma_key_id_of_token_prefix(self.keys@, token@, i as int);
                }
                return Some(self.keys[i].id);
            }
            i = i + 1;
        }
        proof {
            lemma_key_id_of_token(self.keys@, token@);
            if key_id_of_token(self.keys@, token@) is Some {
                let j = choose|j: int|
                    0 <= j < self.keys@.len() && (#[trigger] self.keys@[j]).api_token@ == token@
                        && self.keys@[j].id == key_id_of_token(self.keys@, token@)->Some_0;
                assert(false);
            }
        }
        None
    }

    /// The index of the oldest pending command of the key, if any.
    fn find_first_pending(&self, key_id: i64) -> (r: Option<usize>)
        ensures
            match r {
                Some(i) => first_pending_idx(self.commands@, key_id) == Some(i as int),
                None => first_pending_idx(self.commands@, key_id) is None,
            },
    {
        let n = self.commands.len();
        let mut i: usize = 0;
        while i < n
            invariant
                0 <= i <= n,
                n == self.commands@.len(),
                forall|j: int| 0 <= j < i ==> !is_pending_for(#[trigger] self.commands@[j], key_id),
            decreases n - i,
        {
            let c = self.commands[i];
            if c.status == STATUS_PENDING && c.associated_key == key_id {
                proof {
                    lemma_first_pending_idx(self.commands@, key_id);
                    assert(is_pending_for(self.commands@[i as int], key_id));
                    match first_pending_idx(self.commands@, key_id) {
                        Some(k) => {
                            if k < i {
                                assert(!is_pending_for(self.commands@[k], key_id));
                            }
                            assert(k == i);
                        },
                        None => {
                            assert(false);
                        },
                    }
                }
                return Some(i);
            }
            i = i + 1;
        }
        proof {
            lemma_first_pending_idx(self.commands@, key_id);
            if first_pending_idx(self.commands@, key_id) is Some {
                let k = first_pending_idx(self.commands@, key_id)->Some_0;
                assert(!is_pending_for(self.commands@[k], key_id));
            }
        }
        None
    }

    /// The index of the command carrying the identifier, if any.
    pub(crate) fn find_command_idx(&self, id: i64) -> (r: Option<usize>)
        ensures
            match r {
                Some(i) => command_idx(self.commands@, id) == Some(i as int),
                None => command_idx(self.commands@, id) is None,
            },
    {
        let n = self.commands.len();
        let mut i: usize = 0;
        while i < n
            invariant
                0 <= i <= n,
                n == self.commands@.len(),
                forall|j: int| 0 <= j < i ==> (#[trigger] self.commands@[j]).id != id,
            decreases n - i,
        {
            if self.commands[i].id == id {
                proof {
                    lemma_command_idx(self.commands@, id);
                    assert(self.commands@[i as int].id == id);
                    match command_idx(self.commands@, id) {
                        Some(k) => {
                            if k < i {
                                assert(self.commands@[k].id == id);
                            }
                            assert(k == i);
                        },
                        None => {
                            assert(false);
                        },
                    }
                }
                return Some(i);
            }
            i = i + 1;
        }
        proof {
            lemma_command_idx(self.commands@, id);
            if command_idx(self.commands@, id) is Some {
                let k = command_idx(self.commands@, id)->Some_0;
                assert(self.commands@[k].id != id);
            }
        }
        None
    }

    /// Does the target lookup table resolve the identifier?
    fn target_exists(&self, id: i64) -> (r: bool)
        ensures
            r == target_known(self.targets@, id),
    {
        let n = self.targets.len();
        let mut i: usize = 0;
        while i < n
            invariant
                0 <= i <= n,
                n == self.targets@.len(),
                forall|j: int| 0 <= j < i ==> (#[trigger] self.targets@[j]).id != id,
            decreases n - i,
        {
            if self.targets[i].id == id {
                return true;
            }
            i = i + 1;
        }
        false
    }

    /// Does the position lookup table resolve the identifier?
    fn position_exists(&self, id: i64) -> (r: bool)
        ensures
            r == position_known(self.positions@, id),
    {
        let n = self.positions.len();
        let mut i: usize = 0;
        while i < n
            invariant
                0 <= i <= n,
                n == self.positions@.len(),
                forall|j: int| 0 <= j < i ==> (#[trigger] self.positions@[j]).id != id,
            decreases n - i,
        {
            if self.positions[i].id == id {
                return true;
            }
            i = i + 1;
        }
        false
    }

    /// Does some key carry the identifier?
    fn key_exists(&self, id: i64) -> (r: bool)
        ensures
            r == key_id_known(self.keys@, id),
    {
        let n = self.keys.len();
        let mut i: usize = 0;
        while i < n
            invariant
                0 <= i <= n,
                n == self.keys@.len(),
                forall|j: int| 0 <= j < i ==> (#[trigger] self.keys@[j]).id != id,
            decreases n - i,
        {
            if self.keys[i].id == id {
                return true;
            }
            i = i + 1;
        }
        false
    }

    /// Enqueues a command in the pending state.  Rejected, with no row
    /// created, when the target, the position, or the device is unknown.
    pub fn enqueue(&mut self, target: i64, position: i64, associated_key_id: i64) -> (r: Result<
        i64,
        EnqueueError,
    >)
        requires
            old(self).wf(),
            old(self).next_command_id < i64::MAX,
        ensures
            final(self).wf(),
            final(self).keys@ == old(self).keys@,
            final(self).images@ == old(self).images@,
            final(self).targets@ == old(self).targets@,
            final(self).positions@ == old(self).positions@,
            final(self).diagnostics@ == old(self).diagnostics@,
            final(self).next_key_id == old(self).next_key_id,
            r is Ok <==> target_known(old(self).targets@, target) && position_known(
                old(self).positions@,
                position,
            ) && key_id_known(old(self).keys@, associated_key_id),
            match r {
                Ok(id) => {
                    &&& id == old(self).next_command_id
                    &&& final(self).next_command_id == old(self).next_command_id + 1
                    &&& final(self).commands@ == old(self).commands@.push(
                        Command {
                            id,
                            target,
                            position,
                            associated_key: associated_key_id,
                            status: STATUS_PENDING,
                            time: None,
                        },
                    )
                },
                Err(e) => {
                    &&& final(self).commands@ == old(self).commands@
                    &&& final(self).next_command_id == old(self).next_command_id
                    &&& (e == EnqueueError::UnknownTarget <==> !target_known(
                        old(self).targets@,
                        target,
                    ))
                    &&& (e == EnqueueError::UnknownPosition <==> target_known(
                        old(self).targets@,
                        target,
                    ) && !position_known(old(self).positions@, position))
                },
            },
    {
        if !self.target_exists(target) {
            return Err(EnqueueError::UnknownTarget);
        }
        if !self.position_exists(position) {
            return Err(EnqueueError::UnknownPosition);
        }
        if !self.key_exists(associated_key_id) {
            return Err(EnqueueError::UnknownDevice);
        }
        let id = self.next_command_id;
        self.commands.push(
            Command {
                id,
                target,
                position,
                associated_key: associated_key_id,
                status: STATUS_PENDING,
                time: None,
            },
        );
        self.next_command_id = self.next_command_id + 1;
        Ok(id)
    }

    /// The at-most-once dispatch: claims the oldest pending command of the
    /// device identified by the token as one atomic conditional transition.
    /// A claimed command whose target or position does not resolve is
    /// consumed as invalid and reported as "none available".
    pub fn dispatch(&mut self, token: &str) -> (r: DispatchResult)
        requires
            old(self).wf(),
        ensures
            final(self).wf(),
            final(self).keys@ == old(self).keys@,
            final(self).images@ == old(self).images@,
            final(self).targets@ == old(self).targets@,
            final(self).positions@ == old(self).positions@,
            final(self).diagnostics@ == old(self).diagnostics@,
            final(self).next_command_id == old(self).next_command_id,
            final(self).next_key_id == old(self).next_key_id,
            match key_id_of_token(old(self).keys@, token@) {
                None => final(self).commands@ == old(self).commands@ && r == DispatchResult::NoneAvailable,
                Some(kid) => {
                    let (cs2, claimed) = dispatch_step(
                        old(self).commands@,
                        old(self).targets@,
                        old(self).positions@,
                        kid,
                    );
                    &&& final(self).commands@ == cs2
                    &&& match claimed {
                        Some(c) => r == DispatchResult::Dispatched(
                            CommandSql { id: c.id, target: c.target, position: c.position },
                        ),
                        None => r == DispatchResult::NoneAvailable,
                    }
                },
            },
    {
        let kid = match self.find_key_id(token) {
            Some(k) => k,
            None => {
                return DispatchResult::NoneAvailable;
            },
        };
        let idx = match self.find_first_pending(kid) {
            Some(i) => i,
            None => {
                return DispatchResult::NoneAvailable;
            },
        };
        proof {
            lemma_first_pending_idx(self.commands@, kid);
        }
        let c = self.commands[idx];
        if self.target_exists(c.target) && self.position_exists(c.position) {
            self.commands[idx] = Command { status: STATUS_FETCHED, ..c };
            DispatchResult::Dispatched(CommandSql { id: c.id, target: c.target, position: c.position })
        } else {
            self.commands[idx] = Command { status: STATUS_INVALID_TARGET, ..c };
            DispatchResult::NoneAvailable
        }
    }

    /// A device's status report on a command it owns.  The report is applied
    /// exactly when the requested status is one a device may set and the
    /// transition table permits it from the command's current status; it is
    /// rejected with no state change otherwise.  An estimate accompanies the
    /// move into processing.
    pub fn report(&mut self, token: &str, id: i64, new_status: i64, time: Option<i64>) -> (r:
        Result<(), ReportError>)
        requires
            old(self).wf(),
        ensures
            final(self).wf(),
            final(self).keys@ == old(self).keys@,
            final(self).images@ == old(self).images@,
            final(self).targets@ == old(self).targets@,
            final(self).positions@ == old(self).positions@,
            final(self).diagnostics@ == old(self).diagnostics@,
            final(self).next_command_id == old(self).next_command_id,
            final(self).next_key_id == old(self).next_key_id,
            r is Err ==> final(self).commands@ == old(self).commands@,
            ({
                let cs = old(self).commands@;
                let owner = owned_command_idx(cs, old(self).keys@, token@, id);
                if !reportable_status(new_status) {
                    r == Err::<(), ReportError>(ReportError::StatusOutOfRange)
                } else if owner is None {
                    r == Err::<(), ReportError>(ReportError::NotFound)
                } else {
                    let i = owner->Some_0;
                    if report_allowed(cs[i].status, new_status) {
                        &&& r is Ok
                        &&& final(self).commands@ == cs.update(
                            i,
                            Command {
                                status: new_status,
                                time: if new_status == STATUS_PROCESSING && time is Some {
                                    time
                                } else {
                                    cs[i].time
                                },
                                ..cs[i]
                            },
                        )
                    } else {
                        r == Err::<(), ReportError>(ReportError::IllegalTransition)
                    }
                }
            }),
    {
        if !crate::status::is_reportable_status(new_status) {
            return Err(ReportError::StatusOutOfRange);
        }
        let kid = match self.find_key_id(token) {
            Some(k) => k,
            None => {
                proof {
                    lemma_command_idx(self.commands@, id);
                }
                return Err(ReportError::NotFound);
            },
        };
        let idx = match self.find_command_idx(id) {
            Some(i) => i,
            None => {
                return Err(ReportError::NotFound);
            },
        };
        proof {
            lemma_command_idx(self.commands@, id);
        }
        let c = self.commands[idx];
        if c.associated_key != kid {
            return Err(ReportError::NotFound);
        }
        if !crate::status::is_report_allowed(c.status, new_status) {
            return Err(ReportError::IllegalTransition);
        }
        let new_time = if new_status == STATUS_PROCESSING && time.is_some() {
            time
        } else {
            c.time
        };
        self.commands[idx] = Command { status: new_status, time: new_time, ..c };
        Ok(())
    }

    /// Sets the status of the command carrying the identifier; no effect when
    /// no command carries it.
    pub fn modify_command_status(&mut self, id: i64, status: i64)
        requires
            old(self).wf(),
            valid_status(status),
        ensures
            final(self).wf(),
            final(self).keys@ == old(self).keys@,
            final(self).images@ == old(self).images@,
            final(self).targets@ == old(self).targets@,
            final(self).positions@ == old(self).positions@,
            final(self).diagnostics@ == old(self).diagnostics@,
            final(self).next_command_id == old(self).next_command_id,
            final(self).next_key_id == old(self).next_key_id,
            match command_idx(old(self).commands@, id) {
                None => final(self).commands@ == old(self).commands@,
                Some(i) => final(self).commands@ == old(self).commands@.update(
                    i,
                    Command { status, ..old(self).commands@[i] },
                ),
            },
    {
        let idx = match self.find_command_idx(id) {
            Some(i) => i,
            None => {
                return ;
            },
        };
        proof {
            lemma_command_idx(self.commands@, id);
        }
        let c = self.commands[idx];
        self.commands[idx] = Command { status, ..c };
    }

    /// Records the estimated completion time of the command carrying the
    /// identifier; no effect when no command carries it.
    pub fn update_command_est_time(&mut self, id: i64, time: i64)
        requires
            old(self).wf(),
        ensures
            final(self).wf(),
            final(self).keys@ == old(self).keys@,
            final(self).images@ == old(self).images@,
            final(self).targets@ == old(self).targets@,
            final(self).positions@ == old(self).positions@,
            final(self).diagnostics@ == old(self).diagnostics@,
            final(self).next_command_id == old(self).next_command_id,
            final(self).next_key_id == old(self).next_key_id,
            match command_idx(old(self).commands@, id) {
                None => final(self).commands@ == old(self).commands@,
                Some(i) => final(self).commands@ == old(self).commands@.update(
                    i,
                    Command { time: Some(time), ..old(self).commands@[i] },
                ),
            },
    {
        let idx = match self.find_command_idx(id) {
            Some(i) => i,
            None => {
                return ;
            },
        };
        proof {
            lemma_command_idx(self.commands@, id);
        }
        let c = self.commands[idx];
        self.commands[idx] = Command { time: Some(time), ..c };
    }

    /// Administrative soft delete: marks the command deleted whatever its
    /// current state; idempotent; no effect when no command carries the
    /// identifier.
    pub fn soft_delete(&mut self, id: i64)
        requires
            old(self).wf(),
        ensures
            final(self).wf(),
            final(self).keys@ == old(self).keys@,
            final(self).images@ == old(self).images@,
            final(self).targets@ == old(self).targets@,
            final(self).positions@ == old(self).positions@,
            final(self).diagnostics@ == old(self).diagnostics@,
            final(self).next_command_id == old(self).next_command_id,
            final(self).next_key_id == old(self).next_key_id,
            match command_idx(old(self).commands@, id) {
                None => final(self).commands@ == old(self).commands@,
                Some(i) => final(self).commands@ == old(self).commands@.update(
                    i,
                    Command { status: STATUS_SOFT_DELETED, ..old(self).commands@[i] },
                ),
            },
    {
        self.modify_command_status(id, STATUS_SOFT_DELETED);
    }

    /// Administrative cascade: removes every command owned by the key.
    pub fn delete_commands_by_key(&mut self, key_id: i64)
        requires
            old(self).wf(),
        ensures
            final(self).wf(),
            final(self).keys@ == old(self).keys@,
            final(self).images@ == old(self).images@,
            final(self).targets@ == old(self).targets@,
            final(self).positions@ == old(self).positions@,
            final(self).diagnostics@ == old(self).diagnostics@,
            final(self).next_command_id == old(self).next_command_id,
            final(self).next_key_id == old(self).next_key_id,
            final(self).commands@ == without_key(old(self).commands@, key_id),
    {
        let n = self.commands.len();
        let mut out: Vec<Command> = Vec::new();
        let mut i: usize = 0;
        while i < n
            invariant
                0 <= i <= n,
                n == self.commands@.len(),
                out@ == without_key(self.commands@.take(i as int), key_id),
            decreases n - i,
        {
            let c = self.commands[i];
            proof {
                assert(self.commands@.take(i + 1).drop_last() =~= self.commands@.take(i as int));
                assert(self.commands@.take(i + 1).last() == self.commands@[i as int]);
            }
            if c.associated_key != key_id {
                out.push(c);
            }
            i = i + 1;
        }
        proof {
            assert(self.commands@.take(n as int) =~= self.commands@);
            lemma_without_key(self.commands@, key_id);
        }
        self.commands = out;
    }

    /// Administrative removal of a device: one transactional operation that
    /// removes the key's commands and then the key itself, so no command can
    /// be left behind without its key.
    pub fn remove_key(&mut self, id: i64)
        requires
            old(self).wf(),
        ensures
            final(self).wf(),
            final(self).images@ == old(self).images@,
            final(self).targets@ == old(self).targets@,
            final(self).positions@ == old(self).positions@,
            final(self).diagnostics@ == old(self).diagnostics@,
            final(self).next_command_id == old(self).next_command_id,
            final(self).next_key_id == old(self).next_key_id,
            final(self).commands@ == without_key(old(self).commands@, id),
            final(self).keys@ == keys_without(old(self).keys@, id),
    {
        self.delete_commands_by_key(id);
        let n = self.keys.len();
        let mut out: Vec<Key> = Vec::new();
        let mut i: usize = 0;
        while i < n
            invariant
                0 <= i <= n,
                n == self.keys@.len(),
                out@ == keys_without(self.keys@.take(i as int), id),
            decreases n - i,
        {
            proof {
                assert(self.keys@.take(i + 1).drop_last() =~= self.keys@.take(i as int));
                assert(self.keys@.take(i + 1).last() == self.keys@[i as int]);
            }
            if self.keys[i].id != id {
                let k = Key {
                    id: self.keys[i].id,
                    api_token: self.keys[i].api_token.clone(),
                    name: self.keys[i].name.clone(),
                };
                out.push(k);
            }
            i = i + 1;
        }
        proof {
            assert(self.keys@.take(n as int) =~= self.keys@);
            lemma_keys_without(old(self).keys@, id);
            lemma_without_key(old(self).commands@, id);
        }
        self.keys = out;
        proof {
            assert forall|i2: int|
                0 <= i2 < self.keys@.len() implies (#[trigger] self.keys@[i2]).id
                < self.next_key_id by {
                let k = self.keys@[i2];
                assert(old(self).keys@.contains(k));
                let w = choose|w: int| 0 <= w < old(self).keys@.len() && old(self).keys@[w] == k;
                assert(old(self).keys@[w].id < old(self).next_key_id);
            }
            assert forall|i2: int|
                0 <= i2 < self.commands@.len() implies key_id_known(
                self.keys@,
                #[trigger] self.commands@[i2].associated_key,
            ) by {
                let c = self.commands@[i2];
                assert(old(self).commands@.contains(c));
                let w = choose|w: int|
                    0 <= w < old(self).commands@.len() && old(self).commands@[w] == c;
                assert(key_id_known(old(self).keys@, old(self).commands@[w].associated_key));
                let kw = choose|kw: int|
                    0 <= kw < old(self).keys@.len() && old(self).keys@[kw].id == c.associated_key;
                assert(c.associated_key != id);
                assert(old(self).keys@[kw].id != id);
                assert(self.keys@.contains(old(self).keys@[kw]));
                let v = choose|v: int|
                    0 <= v < self.keys@.len() && self.keys@[v] == old(self).keys@[kw];
                assert(self.keys@[v].id == c.associated_key);
            }
        }
    }

    /// The status of the command carrying the identifier, provided it is
    /// owned by the device carrying the token.
    pub fn check_command_status(&self, token: &str, id: i64) -> (r: Option<i64>)
        ensures
            r == ({
                let owner = owned_command_idx(self.commands@, self.keys@, token@, id);
                match owner {
                    Some(i) => Some(self.commands@[i].status),
                    None => None::<i64>,
                }
            }),
    {
        let kid = match self.find_key_id(token) {
            Some(k) => k,
            None => {
                proof {
                    lemma_command_idx(self.commands@, id);
                }
                return None;
            },
        };
        let idx = match self.find_command_idx(id) {
            Some(i) => i,
            None => {
                return None;
            },
        };
        proof {
            lemma_command_idx(self.commands@, id);
        }
        let c = self.commands[idx];
        if c.associated_key == kid {
            Some(c.status)
        } else {
            None
        }
    }
}

/// The index of the command carrying the identifier, provided its owning key
/// carries the token; nothing when the command does not exist, the token is
/// unknown, or the command belongs to another key.
pub open spec fn owned_command_idx(
    cs: Seq<Command>,
    keys: Seq<Key>,
    token: Seq<char>,
    id: i64,
) -> Option<int> {
    match (key_id_of_token(keys, token), command_idx(cs, id)) {
        (Some(kid), Some(i)) => if cs[i].associated_key == kid {
            Some(i)
        } else {
            None
        },
        _ => None,
    }
}

/// Two dispatches that linearize one after the other never hand out the
/// same command, however many commands are pending: a claim flips its
/// command out of the pending state, and a dispatch claims pending commands
/// only.
pub proof fn lemma_dispatch_never_repeats(
    cs: Seq<Command>,
    targets: Seq<TargetNameSql>,
    positions: Seq<TargetPosSql>,
    key_id: i64,
)
    requires
        forall|i: int, j: int| 0 <= i < j < cs.len() ==> cs[i].id != cs[j].id,
    ensures
        ({
            let (cs1, claimed1) = dispatch_step(cs, targets, positions, key_id);
            let (cs2, claimed2) = dispatch_step(cs1, targets, positions, key_id);
            claimed1 is Some && claimed2 is Some ==> claimed1->Some_0.id != claimed2->Some_0.id
        }),
{
    lemma_first_pending_idx(cs, key_id);
    let (cs1, claimed1) = dispatch_step(cs, targets, positions, key_id);
    lemma_first_pending_idx(cs1, key_id);
    let (cs2, claimed2) = dispatch_step(cs1, targets, positions, key_id);
    if claimed1 is Some && claimed2 is Some {
        let i = first_pending_idx(cs, key_id)->Some_0;
        let j = first_pending_idx(cs1, key_id)->Some_0;
        assert(claimed1 == Some(cs[i]));
        assert(claimed2 == Some(cs1[j]));
        assert(is_pending_for(cs1[j], key_id));
        assert(!is_pending_for(cs1[i], key_id));
        assert(j != i);
        assert(cs1[j] == cs[j]);
        assert(cs[i].id != cs[j].id);
    }
}

/// The single most important concurrency contract: when exactly one pending
/// command exists for a device, one dispatch claims exactly that command, and
/// a dispatch that linearizes after it finds nothing, so no two dispatches
/// can ever hand out the same command.
pub proof fn lemma_dispatch_at_most_once(
    cs: Seq<Command>,
    targets: Seq<TargetNameSql>,
    positions: Seq<TargetPosSql>,
    key_id: i64,
    i: int,
)
    requires
        0 <= i < cs.len(),
        is_pending_for(cs[i], key_id),
        forall|j: int| 0 <= j < cs.len() && j != i ==> !is_pending_for(#[trigger] cs[j], key_id),
        target_known(targets, cs[i].target),
        position_known(positions, cs[i].position),
    ensures
        ({
            let (cs1, claimed1) = dispatch_step(cs, targets, positions, key_id);
            let (cs2, claimed2) = dispatch_step(cs1, targets, positions, key_id);
            &&& claimed1 == Some(cs[i])
            &&& cs1 == cs.update(i, Command { status: STATUS_FETCHED, ..cs[i] })
            &&& claimed2 is None
            &&& cs2 == cs1
        }),
{
    lemma_first_pending_idx(cs, key_id);
    match first_pending_idx(cs, key_id) {
        Some(k) => {
            assert(k == i) by {
                if k != i {
                    assert(!is_pending_for(cs[k], key_id));
                }
            }
        },
        None => {
            assert(is_pending_for(cs[i], key_id));
        },
    }
    let (cs1, claimed1) = dispatch_step(cs, targets, positions, key_id);
    assert(forall|j: int| 0 <= j < cs1.len() ==> !is_pending_for(#[trigger] cs1[j], key_id));
    lemma_first_pending_idx(cs1, key_id);
    match first_pending_idx(cs1, key_id) {
        Some(k) => {
            assert(!is_pending_for(cs1[k], key_id));
        },
        None => {},
    }
}

} // verus!
