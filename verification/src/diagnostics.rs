//! Diagnostic log ingestion and the paginated diagnostics listing.
use vstd::prelude::*;

use crate::catalog::{has_key_with_token, Catalog, DiagnosticRecord, Key};
use crate::text::{dec_str_int, i64_to_string, str_eq_check};

verus! {

/// A diagnostic message as received from a device.
#[derive(Debug, Clone)]
pub struct DiagnosticsJson {
    /// The reporting device's token.
    pub token: String,
    /// The severity: informational, warning, or error.
    pub status: i64,
    /// The message body.
    pub message: String,
}

/// Why a diagnostic message was rejected.
#[derive(Debug, Clone, Copy, PartialEq, Eq, Structural)]
pub enum DiagnosticsError {
    /// The token is not a valid device credential.
    Unauthorized,
    /// The severity is outside the accepted range.
    InvalidStatus,
}

/// A joined diagnostics row, as the listing returns it.
#[derive(Debug, Clone)]
pub struct DiagnosticsSql {
    /// The reporting device's label.
    pub name: String,
    /// The severity's name.
    pub status: String,
    /// The message body.
    pub message: String,
    /// The ingestion time rendered as text.
    pub datetime: String,
}

/// One page of the diagnostics listing.
#[derive(Debug)]
pub struct Diagnostics {
    /// The page returned.
    pub page: u64,
    /// How many pages the filtered listing has.
    pub pages: u64,
    /// The rows of the page.
    pub data: Vec<DiagnosticsSql>,
    /// The severity filtered by; zero when none was.
    pub status: u8,
}

/// A device label that has sent diagnostics.
#[derive(Debug, Clone)]
pub struct DiagnosticNamesSql {
    /// The device's label.
    pub name: String,
}

/// Query parameters of a diagnostics listing request.
#[derive(Debug, Clone)]
pub struct DiagnosticQuery {
    /// Keep only rows of the device with this label.
    pub name: Option<String>,
    /// The page wanted.
    pub page: Option<u32>,
    /// Keep only rows of this severity.
    pub status: Option<u8>,
}

/// The mathematical content of a joined diagnostics row.
pub ghost struct DiagRowModel {
    /// The reporting device's label.
    pub name: Seq<char>,
    /// The severity's name.
    pub status: Seq<char>,
    /// The message body.
    pub message: Seq<char>,
    /// The ingestion time rendered as text.
    pub datetime: Seq<char>,
}

impl View for DiagnosticsSql {
    type V = DiagRowModel;

    open spec fn view(&self) -> DiagRowModel {
        DiagRowModel {
            name: self.name@,
            status: self.status@,
            message: self.message@,
            datetime: self.datetime@,
        }
    }
}

/// The label of the first key carrying the token, if any.
pub open spec fn key_name_by_token(keys: Seq<Key>, token: Seq<char>) -> Option<Seq<char>>
    decreases keys.len(),
{
    if keys.len() == 0 {
        None
    } else if keys[0].api_token@ == token {
        Some(keys[0].name@)
    } else {
        key_name_by_token(keys.drop_first(), token)
    }
}

/// The name of a severity level, per the standard severity table.
pub open spec fn status_name_of(s: i64) -> Option<Seq<char>> {
    if s == 1 {
        Some("Info"@)
    } else if s == 2 {
        Some("Warning"@)
    } else if s == 3 {
        Some("Error"@)
    } else {
        None
    }
}

/// Does the record pass the label filter?  The filter joins: a record whose
/// token resolves to no key never passes a label filter.
pub open spec fn diag_name_matches(
    d: DiagnosticRecord,
    keys: Seq<Key>,
    name: Option<Seq<char>>,
) -> bool {
    match name {
        None => true,
        Some(nm) => key_name_by_token(keys, d.token@) == Some(nm),
    }
}

/// Does the record pass the severity filter?
pub open spec fn diag_status_matches(d: DiagnosticRecord, status: Option<i64>) -> bool {
    match status {
        None => true,
        Some(s) => d.status == s,
    }
}

/// Does the record resolve through both joins?
pub open spec fn diag_resolvable(d: DiagnosticRecord, keys: Seq<Key>) -> bool {
    key_name_by_token(keys, d.token@) is Some && status_name_of(d.status) is Some
}

/// The joined row of a resolvable record.
pub open spec fn diag_row_of(d: DiagnosticRecord, keys: Seq<Key>) -> DiagRowModel {
    DiagRowModel {
        name: key_name_by_token(keys, d.token@)->Some_0,
        status: status_name_of(d.status)->Some_0,
        message: d.message@,
        datetime: dec_str_int(d.time as int),
    }
}

/// The joined rows passing both filters, in ingestion order.
pub open spec fn diag_rows(
    ds: Seq<DiagnosticRecord>,
    keys: Seq<Key>,
    name: Option<Seq<char>>,
    status: Option<i64>,
) -> Seq<DiagRowModel>
    decreases ds.len(),
{
    if ds.len() == 0 {
        Seq::empty()
    } else {
        let rest = diag_rows(ds.drop_last(), keys, name, status);
        let d = ds.last();
        if diag_name_matches(d, keys, name) && diag_status_matches(d, status) && diag_resolvable(
            d,
            keys,
        ) {
            rest.push(diag_row_of(d, keys))
        } else {
            rest
        }
    }
}

/// How many records pass both filters; the count joins only through the
/// label filter, as the count queries do.
pub open spec fn diag_count(
    ds: Seq<DiagnosticRecord>,
    keys: Seq<Key>,
    name: Option<Seq<char>>,
    status: Option<i64>,
) -> int
    decreases ds.len(),
{
    if ds.len() == 0 {
        0
    } else {
        diag_count(ds.drop_last(), keys, name, status) + if diag_name_matches(
            ds.last(),
            keys,
            name,
        ) && diag_status_matches(ds.last(), status) {
            1int
        } else {
            0int
        }
    }
}

/// A severity filter value normalised to the accepted range; anything else
/// reads as zero, which no record carries.
pub open spec fn normalized_status(s: u8) -> i64 {
    if 1 <= s <= 3 {
        s as i64
    } else {
        0
    }
}

/// The device labels that occur in the diagnostics log, first occurrence
/// first, each once.
pub open spec fn diag_names(ds: Seq<DiagnosticRecord>, keys: Seq<Key>) -> Seq<Seq<char>>
    decreases ds.len(),
{
    if ds.len() == 0 {
        Seq::empty()
    } else {
        let rest = diag_names(ds.drop_last(), keys);
        match key_name_by_token(keys, ds.last().token@) {
            None => rest,
            Some(nm) => if rest.contains(nm) {
                rest
            } else {
                rest.push(nm)
            },
        }
    }
}

/// A filter count never exceeds the log's length.
proof fn lemma_diag_count_bounded(
    ds: Seq<DiagnosticRecord>,
    keys: Seq<Key>,
    name: Option<Seq<char>>,
    status: Option<i64>,
)
    ensures
        0 <= diag_count(ds, keys, name, status) <= ds.len(),
    decreases ds.len(),
{
    if ds.len() > 0 {
        lemma_diag_count_bounded(ds.drop_last(), keys, name, status);
    }
}

/// When no key before index `i` carries the token and the key at `i` does,
/// the label lookup resolves to the key at `i`.
proof fn lemma_key_name_by_token_prefix(keys: Seq<Key>, token: Seq<char>, i: int)
    requires
        0 <= i < keys.len(),
        keys[i].api_token@ == token,
        forall|j: int| 0 <= j < i ==> (#[trigger] keys[j]).api_token@ != token,
    ensures
        key_name_by_token(keys, token) == Some(keys[i].name@),
    decreases i,
{
    if i > 0 {
        let sub = keys.drop_first();
        assert(forall|j: int| 0 <= j < sub.len() ==> #[trigger] sub[j] == keys[j + 1]);
        lemma_key_name_by_token_prefix(sub, token, i - 1);
    }
}

/// When no key carries the token, the label lookup fails.
proof fn lemma_key_name_by_token_none(keys: Seq<Key>, token: Seq<char>)
    requires
        forall|j: int| 0 <= j < keys.len() ==> (#[trigger] keys[j]).api_token@ != token,
    ensures
        key_name_by_token(keys, token) is None,
    decreases keys.len(),
{
    if keys.len() > 0 {
        let sub = keys.drop_first();
        assert(forall|j: int| 0 <= j < sub.len() ==> #[trigger] sub[j] == keys[j + 1]);
        lemma_key_name_by_token_none(sub, token);
    }
}

/// Is the label already among the collected names?
fn contains_name(v: &Vec<DiagnosticNamesSql>, nm: &str) -> (r: bool)
    ensures
        r == v@.map_values(|row: DiagnosticNamesSql| row.name@).contains(nm@),
{
    let n = v.len();
    let mut i: usize = 0;
    while i < n
        invariant
            0 <= i <= n,
            n == v@.len(),
            forall|j: int| 0 <= j < i ==> (#[trigger] v@[j]).name@ != nm@,
        decreases n - i,
    {
        if str_eq_check(v[i].name.as_str(), nm) {
            proof {
                let names = v@.map_values(|row: DiagnosticNamesSql| row.name@);
                assert(names[i as int] == nm@);
            }
            return true;
        }
        i = i + 1;
    }
    proof {
        let names = v@.map_values(|row: DiagnosticNamesSql| row.name@);
        if names.contains(nm@) {
            let w = choose|w: int| 0 <= w < names.len() && names[w] == nm@;
            assert(v@[w].name@ == nm@);
        }
    }
    false
}

impl Catalog {
    /// The label of the first key carrying the token, if any.
    fn lookup_key_name_by_token(&self, token: &str) -> (r: Option<String>)
        ensures
            match r {
                Some(s) => key_name_by_token(self.keys@, token@) == Some(s@),
                None => key_name_by_token(self.keys@, token@) is None,
            },
    {
        let n = self.keys.len();
        let mut i: usize = 0;
        while i < n
            invariant
                0 <= i <= n,
                n == self.keys@.len(),
                forall|j: int| 0 <= j < i ==> (#[trigger] self.keys@[j]).api_token@ != token@,
            decreases n - i,
        {
            if str_eq_check(self.keys[i].api_token.as_str(), token) {
                proof {
                    lemma_key_name_by_token_prefix(self.keys@, token@, i as int);
                }
                return Some(self.keys[i].name.clone());
            }
            i = i + 1;
        }
        proof {
            lemma_key_name_by_token_none(self.keys@, token@);
        }
        None
    }

    /// The name of a severity level, when it is in the accepted range.
    fn lookup_status_name(&self, s: i64) -> (r: Option<String>)
        ensures
            match r {
                Some(nm) => status_name_of(s) == Some(nm@),
                None => status_name_of(s) is None,
            },
    {
        if s == 1 {
            Some(String::from_str("Info"))
        } else if s == 2 {
            Some(String::from_str("Warning"))
        } else if s == 3 {
            Some(String::from_str("Error"))
        } else {
            None
        }
    }

    /// Ingests a diagnostic message: the token must be a valid credential
    /// and the severity must be in the accepted range; the record is stamped
    /// with the wall clock.
    pub fn send_diagnostics(&mut self, payload: &DiagnosticsJson) -> (r: Result<
        (),
        DiagnosticsError,
    >)
        requires
            old(self).wf(),
        ensures
            final(self).wf(),
            final(self).keys@ == old(self).keys@,
            final(self).commands@ == old(self).commands@,
            final(self).images@ == old(self).images@,
            final(self).targets@ == old(self).targets@,
            final(self).positions@ == old(self).positions@,
            final(self).next_command_id == old(self).next_command_id,
            final(self).next_key_id == old(self).next_key_id,
            r is Ok <==> has_key_with_token(old(self).keys@, payload.token@) && 1 <= payload.status
                <= 3,
            match r {
                Ok(u) => {
                    &&& final(self).diagnostics@.len() == old(self).diagnostics@.len() + 1
                    &&& final(self).diagnostics@.drop_last() == old(self).diagnostics@
                    &&& final(self).diagnostics@.last().token@ == payload.token@
                    &&& final(self).diagnostics@.last().status == payload.status
                    &&& final(self).diagnostics@.last().message@ == payload.message@
                },
                Err(e) => {
                    &&& final(self).diagnostics@ == old(self).diagnostics@
                    &&& (e == DiagnosticsError::Unauthorized <==> !has_key_with_token(
                        old(self).keys@,
                        payload.token@,
                    ))
                },
            },
    {
        let authorized = self.verify_key(payload.token.as_str());
        proof {
            crate::commands::lemma_key_id_of_token(self.keys@, payload.token@);
            if has_key_with_token(self.keys@, payload.token@) {
                let j = choose|j: int|
                    0 <= j < self.keys@.len() && (#[trigger] self.keys@[j]).api_token@
                        == payload.token@;
            }
        }
        if !authorized {
            return Err(DiagnosticsError::Unauthorized);
        }
        if payload.status < 1 || payload.status > 3 {
            return Err(DiagnosticsError::InvalidStatus);
        }
        let record = DiagnosticRecord {
            token: payload.token.clone(),
            status: payload.status,
            message: payload.message.clone(),
            time: crate::upload::current_unix_time(),
        };
        self.diagnostics.push(record);
        proof {
            assert(self.diagnostics@.drop_last() =~= old(self).diagnostics@);
        }
        Ok(())
    }

    /// One page, of twenty-five rows, of the diagnostics listing, filtered
    /// by device label and severity when asked; with the page echoed, the
    /// page count of the filtered listing, and the severity filtered by.
    pub fn get_diagnostics(
        &self,
        name: Option<String>,
        page: Option<u32>,
        status: Option<u8>,
    ) -> (r: Diagnostics)
        ensures
            ({
                let nm = match name {
                    Some(n) => Some(n@),
                    None => None::<Seq<char>>,
                };
                let st = match status {
                    Some(s) => Some(normalized_status(s)),
                    None => None::<i64>,
                };
                let rows = diag_rows(self.diagnostics@, self.keys@, nm, st);
                let count = diag_count(self.diagnostics@, self.keys@, nm, st);
                let p = match page {
                    Some(v) => if v > 0 {
                        v as int
                    } else {
                        1int
                    },
                    None => 1int,
                };
                let off = (p - 1) * 25;
                let len = rows.len() as int;
                let lo = if off < len {
                    off
                } else {
                    len
                };
                let hi = if off + 25 < len {
                    off + 25
                } else {
                    len
                };
                &&& r.page == p
                &&& r.pages == (count + 24) / 25
                &&& r.status as int == match status {
                    Some(s) => normalized_status(s) as int,
                    None => 0int,
                }
                &&& r.data@.map_values(|row: DiagnosticsSql| row@) == rows.subrange(lo, hi)
            }),
    {
        let p: u32 = match page {
            Some(v) => if v > 0 {
                v
            } else {
                1
            },
            None => 1,
        };
        let st: Option<i64> = match status {
            Some(s) => if 1 <= s && s <= 3 {
                Some(s as i64)
            } else {
                Some(0)
            },
            None => None,
        };
        let n = self.diagnostics.len();
        let mut rows: Vec<DiagnosticsSql> = Vec::new();
        let mut count: usize = 0;
        let ghost nm = match &name {
            Some(n2) => Some(n2@),
            None => None::<Seq<char>>,
        };
        let mut i: usize = 0;
        while i < n
            invariant
                0 <= i <= n,
                n == self.diagnostics@.len(),
                count <= i,
                nm == (match name {
                    Some(n2) => Some(n2@),
                    None => None::<Seq<char>>,
                }),
                rows@.map_values(|row: DiagnosticsSql| row@) == diag_rows(
                    self.diagnostics@.take(i as int),
                    self.keys@,
                    nm,
                    st,
                ),
                count == diag_count(self.diagnostics@.take(i as int), self.keys@, nm, st),
            decreases n - i,
        {
            proof {
                assert(self.diagnostics@.take(i + 1).drop_last() =~= self.diagnostics@.take(
                    i as int,
                ));
                assert(self.diagnostics@.take(i + 1).last() == self.diagnostics@[i as int]);
            }
            let d = &self.diagnostics[i];
            let resolved_name = self.lookup_key_name_by_token(d.token.as_str());
            let name_ok: bool = match (&name, &resolved_name) {
                (Some(want), Some(have)) => str_eq_check(want.as_str(), have.as_str()),
                (Some(want), None) => false,
                (None, _) => true,
            };
            let status_ok: bool = match st {
                Some(s) => d.status == s,
                None => true,
            };
            if name_ok && status_ok {
                count = count + 1;
                match (resolved_name, self.lookup_status_name(d.status)) {
                    (Some(rn), Some(sn)) => {
                        let row = DiagnosticsSql {
                            name: rn,
                            status: sn,
                            message: d.message.clone(),
                            datetime: i64_to_string(d.time),
                        };
                        rows.push(row);
                        proof {
                            assert(rows@.map_values(|row: DiagnosticsSql| row@) =~= rows@
                                .drop_last().map_values(|row: DiagnosticsSql| row@).push(
                                rows@.last()@,
                            ));
                        }
                    },
                    _ => {},
                }
            }
            i = i + 1;
        }
        proof {
            assert(self.diagnostics@.take(n as int) =~= self.diagnostics@);
            lemma_diag_count_bounded(self.diagnostics@, self.keys@, nm, st);
        }
        let pages128: u128 = (count as u128 + 24) / 25;
        let pages: u64 = pages128 as u64;
        let m = rows.len();
        let pm: u128 = (p - 1) as u128;
        proof {
            assert(pm * 25 < 0x1_0000_0000_0000_0000u128) by (nonlinear_arith)
                requires
                    pm < 0x1_0000_0000u128,
            ;
        }
        let off: u128 = pm * 25;
        let lo: usize = if off < m as u128 {
            off as usize
        } else {
            m
        };
        let hi: usize = if off + 25 < m as u128 {
            (off + 25) as usize
        } else {
            m
        };
        let mut data: Vec<DiagnosticsSql> = Vec::new();
        let mut k: usize = lo;
        while k < hi
            invariant
                lo <= k <= hi <= rows@.len(),
                data@ == rows@.subrange(lo as int, k as int),
            decreases hi - k,
        {
            let row = DiagnosticsSql {
                name: rows[k].name.clone(),
                status: rows[k].status.clone(),
                message: rows[k].message.clone(),
                datetime: rows[k].datetime.clone(),
            };
            proof {
                assert(row == rows@[k as int]);
            }
            data.push(row);
            proof {
                assert(data@ =~= rows@.subrange(lo as int, k + 1));
            }
            k = k + 1;
        }
        let status_field: u8 = match status {
            Some(s) => if 1 <= s && s <= 3 {
                s
            } else {
                0
            },
            None => 0,
        };
        proof {
            assert(data@.map_values(|row: DiagnosticsSql| row@) =~= rows@.map_values(
                |row: DiagnosticsSql| row@,
            ).subrange(lo as int, hi as int));
        }
        Diagnostics { page: p as u64, pages, data, status: status_field }
    }

    /// The device labels occurring in the log, first occurrence first, each
    /// once.
    pub fn get_diagnostics_names(&self) -> (r: Vec<DiagnosticNamesSql>)
        ensures
            r@.map_values(|row: DiagnosticNamesSql| row.name@) == diag_names(
                self.diagnostics@,
                self.keys@,
            ),
    {
        let n = self.diagnostics.len();
        let mut out: Vec<DiagnosticNamesSql> = Vec::new();
        let mut i: usize = 0;
        while i < n
            invariant
                0 <= i <= n,
                n == self.diagnostics@.len(),
                out@.map_values(|row: DiagnosticNamesSql| row.name@) == diag_names(
                    self.diagnostics@.take(i as int),
                    self.keys@,
                ),
            decreases n - i,
        {
            proof {
                assert(self.diagnostics@.take(i + 1).drop_last() =~= self.diagnostics@.take(
                    i as int,
                ));
                assert(self.diagnostics@.take(i + 1).last() == self.diagnostics@[i as int]);
            }
            match self.lookup_key_name_by_token(self.diagnostics[i].token.as_str()) {
                None => {},
                Some(nm) => {
                    if !contains_name(&out, nm.as_str()) {
                        out.push(DiagnosticNamesSql { name: nm });
                        proof {
                            assert(out@.map_values(|row: DiagnosticNamesSql| row.name@) =~= out@
                                .drop_last().map_values(|row: DiagnosticNamesSql| row.name@).push(
                                out@.last().name@,
                            ));
                        }
                    }
                },
            }
            i = i + 1;
        }
        proof {
            assert(self.diagnostics@.take(n as int) =~= self.diagnostics@);
        }
        out
    }
}

} // verus!
