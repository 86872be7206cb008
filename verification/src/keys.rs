//! Device key administration: listing, creation with a fresh random token,
//! and verification.  Removal cascades and lives with the command queue.
use vstd::prelude::*;

use crate::catalog::{has_key_with_token, key_id_of_token, Catalog, Key};

verus! {

/// Request body naming a key to create.
#[derive(Debug, Clone)]
pub struct NewKeyJson {
    /// The label of the new key.
    pub name: String,
}

/// Query parameters naming a key to delete.
#[derive(Debug, Clone, Copy, PartialEq, Eq, Structural)]
pub struct DeleteKeyQuery {
    /// The identifier of the key to delete.
    pub id: i64,
}

/// Relies on `uuid::Uuid::new_v4` and its `Display` form: a freshly drawn
/// random identifier rendered in the hyphenated format, which is always 36
/// characters long.  Nothing further can be promised of a random value.
#[verifier::external_body]
fn generate_token() -> (r: String)
    ensures
        r@.len() == 36,
{
    uuid::Uuid::new_v4().to_string()
}

impl Catalog {
    /// All device keys, in insertion order.
    pub fn get_keys(&self) -> (r: &Vec<Key>)
        ensures
            r@ == self.keys@,
    {
        &self.keys
    }

    /// Creates a key with a freshly drawn token and returns the token.  The
    /// vanishingly unlikely draw of a token already in use is rejected so
    /// that tokens stay unique; the catalog is then unchanged.
    pub fn create_key(&mut self, name: String) -> (r: Option<String>)
        requires
            old(self).wf(),
            old(self).next_key_id < i64::MAX,
        ensures
            final(self).wf(),
            final(self).commands@ == old(self).commands@,
            final(self).images@ == old(self).images@,
            final(self).targets@ == old(self).targets@,
            final(self).positions@ == old(self).positions@,
            final(self).diagnostics@ == old(self).diagnostics@,
            final(self).next_command_id == old(self).next_command_id,
            match r {
                Some(token) => {
                    &&& token@.len() == 36
                    &&& !has_key_with_token(old(self).keys@, token@)
                    &&& final(self).keys@.len() == old(self).keys@.len() + 1
                    &&& final(self).keys@.drop_last() == old(self).keys@
                    &&& final(self).keys@.last().id == old(self).next_key_id
                    &&& final(self).keys@.last().api_token@ == token@
                    &&& final(self).keys@.last().name@ == name@
                    &&& final(self).next_key_id == old(self).next_key_id + 1
                },
                None => final(self).keys@ == old(self).keys@ && final(self).next_key_id == old(
                    self,
                ).next_key_id,
            },
    {
        let token = generate_token();
        if self.verify_key(token.as_str()) {
            proof {
                crate::commands::lemma_key_id_of_token(self.keys@, token@);
            }
            return None;
        }
        proof {
            crate::commands::lemma_key_id_of_token(self.keys@, token@);
            if has_key_with_token(self.keys@, token@) {
                let j = choose|j: int|
                    0 <= j < self.keys@.len() && (#[trigger] self.keys@[j]).api_token@ == token@;
                lemma_key_id_of_token_some(self.keys@, token@, j);
            }
        }
        let id = self.next_key_id;
        let returned = token.clone();
        self.keys.push(Key { id, api_token: token, name });
        self.next_key_id = id + 1;
        proof {
            assert(self.keys@.drop_last() =~= old(self).keys@);
        }
        Some(returned)
    }
}

/// A key carrying the token makes the token resolve to some key.
proof fn lemma_key_id_of_token_some(keys: Seq<Key>, token: Seq<char>, j: int)
    requires
        0 <= j < keys.len(),
        keys[j].api_token@ == token,
    ensures
        key_id_of_token(keys, token) is Some,
    decreases j,
{
    if keys[0].api_token@ != token {
        let sub = keys.drop_first();
        assert(sub[j - 1] == keys[j]);
        lemma_key_id_of_token_some(sub, token, j - 1);
    }
}

} // verus!
