//! The read façade: joined command rows, filtered and paginated listings,
//! count queries, command statistics, and the next-estimate query.  These
//! are read-only and carry no state-machine side effects.
use vstd::prelude::*;

use crate::catalog::{Catalog, Command, Key, TargetNameSql, TargetPosSql};
use crate::status::{
    STATUS_COMPLETE, STATUS_PENDING, STATUS_PROCESSING, STATUS_SOFT_DELETED,
};
use crate::text::{dec_str_int, i64_to_string};
use crate::upload::{position_name_of, target_name_of};

verus! {

/// Query parameters of a dispatch poll.
#[derive(Debug, Clone)]
pub struct FetchCommandQuery {
    /// The polling device's token.
    pub token: String,
}

/// A bare status row, as a status check returns it.
#[derive(Debug, Clone, Copy, PartialEq, Eq, Structural)]
pub struct CheckCommandSql {
    /// The command's current status.
    pub status: i64,
}

/// Query parameters naming a command to soft delete.
#[derive(Debug, Clone)]
pub struct RemoveCommandQuery {
    /// The command's identifier, as received from the wire.
    pub id: String,
}

/// The parameters of a command listing request.
#[derive(Debug, Clone, Copy, PartialEq, Eq, Structural)]
pub struct RequestCommandsJson {
    /// Which listing is wanted: all, completed, in progress, failed,
    /// deleted, by status, or by key.
    pub filter_type: i64,
    /// The status or key the last two listings filter by.
    pub filter_value: Option<i64>,
    /// The page wanted; the first page when absent.
    pub page: Option<i64>,
}

/// A count of commands together with the status it was filtered by; zero
/// stands for "no single status".
#[derive(Debug, Clone, Copy, PartialEq, Eq, Structural)]
pub struct CommandCount {
    /// How many commands match.
    pub count: i64,
    /// The status filtered by.
    pub status: i64,
}

/// The three headline counts of the command table.
#[derive(Debug, Clone, Copy, PartialEq, Eq, Structural)]
pub struct CommandStatistics {
    /// Commands that finished with an image.
    pub completed: i64,
    /// Commands in a failure state.
    pub failed: i64,
    /// Commands between pending and processing.
    pub in_progress: i64,
}

/// A fully joined command row, as the listings return it.
#[derive(Debug, Clone)]
pub struct MultipleCommandSql {
    /// The target object's name.
    pub target: String,
    /// The position's name.
    pub position: String,
    /// The owning key's identifier.
    pub associated_key: i64,
    /// The command's identifier.
    pub id: i64,
    /// The owning key's label.
    pub name: String,
    /// The command's status.
    pub status: i64,
    /// The estimated completion time rendered as text; empty when absent.
    pub datetime: String,
}

/// The mathematical content of a joined command row.
pub ghost struct CommandRowModel {
    /// The target object's name.
    pub target: Seq<char>,
    /// The position's name.
    pub position: Seq<char>,
    /// The owning key's identifier.
    pub associated_key: i64,
    /// The command's identifier.
    pub id: i64,
    /// The owning key's label.
    pub name: Seq<char>,
    /// The command's status.
    pub status: i64,
    /// The estimate rendered as text; empty when absent.
    pub datetime: Seq<char>,
}

impl View for MultipleCommandSql {
    type V = CommandRowModel;

    open spec fn view(&self) -> CommandRowModel {
        CommandRowModel {
            target: self.target@,
            position: self.position@,
            associated_key: self.associated_key,
            id: self.id,
            name: self.name@,
            status: self.status,
            datetime: self.datetime@,
        }
    }
}

/// The label of the first key carrying the identifier, if any.
pub open spec fn key_name_of(keys: Seq<Key>, id: i64) -> Option<Seq<char>>
    decreases keys.len(),
{
    if keys.len() == 0 {
        None
    } else if keys[0].id == id {
        Some(keys[0].name@)
    } else {
        key_name_of(keys.drop_first(), id)
    }
}

/// The textual rendering of an optional estimate.
pub open spec fn datetime_of(t: Option<i64>) -> Seq<char> {
    match t {
        Some(v) => dec_str_int(v as int),
        None => Seq::empty(),
    }
}

/// Does the command resolve through all three joins?
pub open spec fn row_resolvable(
    c: Command,
    keys: Seq<Key>,
    targets: Seq<TargetNameSql>,
    positions: Seq<TargetPosSql>,
) -> bool {
    &&& target_name_of(targets, c.target) is Some
    &&& position_name_of(positions, c.position) is Some
    &&& key_name_of(keys, c.associated_key) is Some
}

/// The joined row of a resolvable command.
pub open spec fn row_model_of(
    c: Command,
    keys: Seq<Key>,
    targets: Seq<TargetNameSql>,
    positions: Seq<TargetPosSql>,
) -> CommandRowModel {
    CommandRowModel {
        target: target_name_of(targets, c.target)->Some_0,
        position: position_name_of(positions, c.position)->Some_0,
        associated_key: c.associated_key,
        id: c.id,
        name: key_name_of(keys, c.associated_key)->Some_0,
        status: c.status,
        datetime: datetime_of(c.time),
    }
}

/// The listing filters the façade offers.
#[derive(Debug, Clone, Copy, PartialEq, Eq, Structural)]
pub enum CommandFilter {
    /// Every command.
    All,
    /// Commands that finished with an image.
    Completed,
    /// Commands between pending and processing.
    InProgress,
    /// Commands in the failure range.
    Failed,
    /// Soft-deleted commands.
    Deleted,
    /// Commands with exactly this status.
    Status(i64),
    /// Commands owned by this key.
    Key(i64),
}

/// Does a command match the filter?
pub open spec fn filter_matches(f: CommandFilter, c: Command) -> bool {
    match f {
        CommandFilter::All => true,
        CommandFilter::Completed => c.status == STATUS_COMPLETE,
        CommandFilter::InProgress => STATUS_PENDING <= c.status <= STATUS_PROCESSING,
        CommandFilter::Failed => -5 <= c.status <= -1,
        CommandFilter::Deleted => c.status == STATUS_SOFT_DELETED,
        CommandFilter::Status(s) => c.status == s,
        CommandFilter::Key(k) => c.associated_key == k,
    }
}

/// The joined rows of the commands matching the filter, in table order; a
/// command that does not resolve through the joins is omitted.
pub open spec fn facade_rows(
    cs: Seq<Command>,
    keys: Seq<Key>,
    targets: Seq<TargetNameSql>,
    positions: Seq<TargetPosSql>,
    f: CommandFilter,
) -> Seq<CommandRowModel>
    decreases cs.len(),
{
    if cs.len() == 0 {
        Seq::empty()
    } else {
        let rest = facade_rows(cs.drop_last(), keys, targets, positions, f);
        if filter_matches(f, cs.last()) && row_resolvable(cs.last(), keys, targets, positions) {
            rest.push(row_model_of(cs.last(), keys, targets, positions))
        } else {
            rest
        }
    }
}

/// How many commands match the filter; the counts, unlike the listings, do
/// not join, so unresolvable commands are counted too.
pub open spec fn count_matching(cs: Seq<Command>, f: CommandFilter) -> int
    decreases cs.len(),
{
    if cs.len() == 0 {
        0
    } else {
        count_matching(cs.drop_last(), f) + if filter_matches(f, cs.last()) {
            1int
        } else {
            0int
        }
    }
}

/// One page of a row listing: a fixed-size window, clamped to the listing;
/// a negative page reads as the first.
pub open spec fn page_slice(rows: Seq<CommandRowModel>, page: int, limit: int) -> Seq<
    CommandRowModel,
> {
    let p = if page < 0 {
        0
    } else {
        page
    };
    let off = p * limit;
    let len = rows.len() as int;
    let lo = if off < len {
        off
    } else {
        len
    };
    let hi = if off + limit < len {
        off + limit
    } else {
        len
    };
    rows.subrange(lo, hi)
}

/// When no key before index `i` carries the identifier and the key at `i`
/// does, the label lookup resolves to the key at `i`.
proof fn lemma_key_name_prefix(keys: Seq<Key>, id: i64, i: int)
    requires
        0 <= i < keys.len(),
        keys[i].id == id,
        forall|j: int| 0 <= j < i ==> (#[trigger] keys[j]).id != id,
    ensures
        key_name_of(keys, id) == Some(keys[i].name@),
    decreases i,
{
    if i > 0 {
        let sub = keys.drop_first();
        assert(forall|j: int| 0 <= j < sub.len() ==> #[trigger] sub[j] == keys[j + 1]);
        lemma_key_name_prefix(sub, id, i - 1);
    }
}

/// When no key carries the identifier, the label lookup fails.
proof fn lemma_key_name_none(keys: Seq<Key>, id: i64)
    requires
        forall|j: int| 0 <= j < keys.len() ==> (#[trigger] keys[j]).id != id,
    ensures
        key_name_of(keys, id) is None,
    decreases keys.len(),
{
    if keys.len() > 0 {
        let sub = keys.drop_first();
        assert(forall|j: int| 0 <= j < sub.len() ==> #[trigger] sub[j] == keys[j + 1]);
        lemma_key_name_none(sub, id);
    }
}

/// Does the command match the filter?
fn matches_filter(f: CommandFilter, c: &Command) -> (r: bool)
    ensures
        r == filter_matches(f, *c),
{
    match f {
        CommandFilter::All => true,
        CommandFilter::Completed => c.status == STATUS_COMPLETE,
        CommandFilter::InProgress => STATUS_PENDING <= c.status && c.status <= STATUS_PROCESSING,
        CommandFilter::Failed => -5 <= c.status && c.status <= -1,
        CommandFilter::Deleted => c.status == STATUS_SOFT_DELETED,
        CommandFilter::Status(s) => c.status == s,
        CommandFilter::Key(k) => c.associated_key == k,
    }
}

impl Catalog {
    /// The label of the first key carrying the identifier, if any.
    fn lookup_key_name(&self, id: i64) -> (r: Option<String>)
        ensures
            match r {
                Some(s) => key_name_of(self.keys@, id) == Some(s@),
                None => key_name_of(self.keys@, id) is None,
            },
    {
        let n = self.keys.len();
        let mut i: usize = 0;
        while i < n
            invariant
                0 <= i <= n,
                n == self.keys@.len(),
                forall|j: int| 0 <= j < i ==> (#[trigger] self.keys@[j]).id != id,
            decreases n - i,
        {
            if self.keys[i].id == id {
                proof {
                    lemma_key_name_prefix(self.keys@, id, i as int);
                }
                return Some(self.keys[i].name.clone());
            }
            i = i + 1;
        }
        proof {
            lemma_key_name_none(self.keys@, id);
        }
        None
    }

    /// Every joined row matching the filter, in table order.
    fn all_rows(&self, f: CommandFilter) -> (r: Vec<MultipleCommandSql>)
        ensures
            r@.map_values(|row: MultipleCommandSql| row@) == facade_rows(
                self.commands@,
                self.keys@,
                self.targets@,
                self.positions@,
                f,
            ),
    {
        let n = self.commands.len();
        let mut out: Vec<MultipleCommandSql> = Vec::new();
        let mut i: usize = 0;
        while i < n
            invariant
                0 <= i <= n,
                n == self.commands@.len(),
                out@.map_values(|row: MultipleCommandSql| row@) == facade_rows(
                    self.commands@.take(i as int),
                    self.keys@,
                    self.targets@,
                    self.positions@,
                    f,
                ),
            decreases n - i,
        {
            proof {
                assert(self.commands@.take(i + 1).drop_last() =~= self.commands@.take(i as int));
                assert(self.commands@.take(i + 1).last() == self.commands@[i as int]);
            }
            let c = self.commands[i];
            if matches_filter(f, &c) {
                let target = self.lookup_target_name(c.target);
                let position = self.lookup_position_name(c.position);
                let name = self.lookup_key_name(c.associated_key);
                match (target, position, name) {
                    (Some(target), Some(position), Some(name)) => {
                        let datetime = match c.time {
                            Some(t) => i64_to_string(t),
                            None => String::new(),
                        };
                        let row = MultipleCommandSql {
                            target,
                            position,
                            associated_key: c.associated_key,
                            id: c.id,
                            name,
                            status: c.status,
                            datetime,
                        };
                        out.push(row);
                        proof {
                            assert(out@.map_values(|row: MultipleCommandSql| row@)
                                =~= out@.drop_last().map_values(
                                |row: MultipleCommandSql| row@,
                            ).push(out@.last()@));
                        }
                    },
                    _ => {},
                }
            }
            i = i + 1;
        }
        proof {
            assert(self.commands@.take(n as int) =~= self.commands@);
        }
        out
    }

    /// One page, of twenty-five rows, of the joined listing for a filter.
    pub fn commands_page(&self, f: CommandFilter, page: i64) -> (r: Vec<MultipleCommandSql>)
        ensures
            r@.map_values(|row: MultipleCommandSql| row@) == page_slice(
                facade_rows(self.commands@, self.keys@, self.targets@, self.positions@, f),
                page as int,
                25,
            ),
    {
        let rows = self.all_rows(f);
        let p: i64 = if page < 0 {
            0
        } else {
            page
        };
        let off: i128 = (p as i128) * 25;
        let n = rows.len();
        let lo: usize = if off < n as i128 {
            off as usize
        } else {
            n
        };
        let hi: usize = if off + 25 < n as i128 {
            (off + 25) as usize
        } else {
            n
        };
        let mut out: Vec<MultipleCommandSql> = Vec::new();
        let mut i: usize = lo;
        while i < hi
            invariant
                lo <= i <= hi <= rows@.len(),
                out@ == rows@.subrange(lo as int, i as int),
            decreases hi - i,
        {
            let row = MultipleCommandSql {
                target: rows[i].target.clone(),
                position: rows[i].position.clone(),
                associated_key: rows[i].associated_key,
                id: rows[i].id,
                name: rows[i].name.clone(),
                status: rows[i].status,
                datetime: rows[i].datetime.clone(),
            };
            proof {
                assert(row == rows@[i as int]);
            }
            out.push(row);
            proof {
                assert(out@ =~= rows@.subrange(lo as int, i + 1));
            }
            i = i + 1;
        }
        proof {
            assert(out@.map_values(|row: MultipleCommandSql| row@) =~= rows@.map_values(
                |row: MultipleCommandSql| row@,
            ).subrange(lo as int, hi as int));
            assert(out@.map_values(|row: MultipleCommandSql| row@) =~= page_slice(
                rows@.map_values(|row: MultipleCommandSql| row@),
                page as int,
                25,
            ));
        }
        out
    }

    /// One page of every command.
    pub fn get_commands(&self, page: i64) -> (r: Vec<MultipleCommandSql>)
        ensures
            r@.map_values(|row: MultipleCommandSql| row@) == page_slice(
                facade_rows(
                    self.commands@,
                    self.keys@,
                    self.targets@,
                    self.positions@,
                    CommandFilter::All,
                ),
                page as int,
                25,
            ),
    {
        self.commands_page(CommandFilter::All, page)
    }

    /// One page of the commands with the given status.
    pub fn get_commands_by_status(&self, status: i64, page: i64) -> (r: Vec<MultipleCommandSql>)
        ensures
            r@.map_values(|row: MultipleCommandSql| row@) == page_slice(
                facade_rows(
                    self.commands@,
                    self.keys@,
                    self.targets@,
                    self.positions@,
                    CommandFilter::Status(status),
                ),
                page as int,
                25,
            ),
    {
        self.commands_page(CommandFilter::Status(status), page)
    }

    /// One page of the commands owned by the given key.
    pub fn get_commands_by_key(&self, key: i64, page: i64) -> (r: Vec<MultipleCommandSql>)
        ensures
            r@.map_values(|row: MultipleCommandSql| row@) == page_slice(
                facade_rows(
                    self.commands@,
                    self.keys@,
                    self.targets@,
                    self.positions@,
                    CommandFilter::Key(key),
                ),
                page as int,
                25,
            ),
    {
        self.commands_page(CommandFilter::Key(key), page)
    }

    /// One page of the completed commands.
    pub fn get_completed_commands(&self, page: i64) -> (r: Vec<MultipleCommandSql>)
        ensures
            r@.map_values(|row: MultipleCommandSql| row@) == page_slice(
                facade_rows(
                    self.commands@,
                    self.keys@,
                    self.targets@,
                    self.positions@,
                    CommandFilter::Completed,
                ),
                page as int,
                25,
            ),
    {
        self.commands_page(CommandFilter::Completed, page)
    }

    /// One page of the failed commands.
    pub fn get_failed_commands(&self, page: i64) -> (r: Vec<MultipleCommandSql>)
        ensures
            r@.map_values(|row: MultipleCommandSql| row@) == page_slice(
                facade_rows(
                    self.commands@,
                    self.keys@,
                    self.targets@,
                    self.positions@,
                    CommandFilter::Failed,
                ),
                page as int,
                25,
            ),
    {
        self.commands_page(CommandFilter::Failed, page)
    }

    /// One page of the in-progress commands.
    pub fn get_in_progress_commands(&self, page: i64) -> (r: Vec<MultipleCommandSql>)
        ensures
            r@.map_values(|row: MultipleCommandSql| row@) == page_slice(
                facade_rows(
                    self.commands@,
                    self.keys@,
                    self.targets@,
                    self.positions@,
                    CommandFilter::InProgress,
                ),
                page as int,
                25,
            ),
    {
        self.commands_page(CommandFilter::InProgress, page)
    }

    /// One page of the soft-deleted commands.
    pub fn get_deleted_commands(&self, page: i64) -> (r: Vec<MultipleCommandSql>)
        ensures
            r@.map_values(|row: MultipleCommandSql| row@) == page_slice(
                facade_rows(
                    self.commands@,
                    self.keys@,
                    self.targets@,
                    self.positions@,
                    CommandFilter::Deleted,
                ),
                page as int,
                25,
            ),
    {
        self.commands_page(CommandFilter::Deleted, page)
    }

    /// How many commands match the filter, with the status the count was
    /// filtered by (zero when the filter is not a single status).
    pub fn count_commands(&self, f: CommandFilter) -> (r: CommandCount)
        requires
            self.commands@.len() <= i64::MAX,
        ensures
            r.count == count_matching(self.commands@, f),
            r.status == match f {
                CommandFilter::Status(s) => s,
                CommandFilter::Completed => STATUS_COMPLETE,
                CommandFilter::Deleted => STATUS_SOFT_DELETED,
                _ => 0i64,
            },
    {
        let n = self.commands.len();
        let mut count: usize = 0;
        let mut i: usize = 0;
        while i < n
            invariant
                0 <= i <= n,
                n == self.commands@.len(),
                count <= i,
                count == count_matching(self.commands@.take(i as int), f),
            decreases n - i,
        {
            proof {
                assert(self.commands@.take(i + 1).drop_last() =~= self.commands@.take(i as int));
                assert(self.commands@.take(i + 1).last() == self.commands@[i as int]);
            }
            let c = self.commands[i];
            if matches_filter(f, &c) {
                count = count + 1;
            }
            i = i + 1;
        }
        proof {
            assert(self.commands@.take(n as int) =~= self.commands@);
            lemma_count_bounded(self.commands@, f);
        }
        let status: i64 = match f {
            CommandFilter::Status(s) => s,
            CommandFilter::Completed => STATUS_COMPLETE,
            CommandFilter::Deleted => STATUS_SOFT_DELETED,
            _ => 0,
        };
        CommandCount { count: count as i64, status }
    }

    /// The headline counts: completed, failed, and in-progress commands.
    pub fn fetch_command_statistics(&self) -> (r: CommandStatistics)
        requires
            self.commands@.len() <= i64::MAX,
        ensures
            r.completed == count_matching(self.commands@, CommandFilter::Completed),
            r.failed == count_matching(self.commands@, CommandFilter::Failed),
            r.in_progress == count_matching(self.commands@, CommandFilter::InProgress),
    {
        let completed = self.count_commands(CommandFilter::Completed);
        let failed = self.count_commands(CommandFilter::Failed);
        let in_progress = self.count_commands(CommandFilter::InProgress);
        CommandStatistics {
            completed: completed.count,
            failed: failed.count,
            in_progress: in_progress.count,
        }
    }
}

/// The JSON object a joined row renders to.
pub open spec fn json_of_row(m: CommandRowModel) -> Seq<char> {
    "{\"target\": \""@ + m.target + "\", \"position\": \""@ + m.position + "\", \"id\": "@
        + dec_str_int(m.id as int) + ", \"name\": \""@ + m.name + "\", \"key_id\": "@
        + dec_str_int(m.associated_key as int) + ", \"status\": "@ + dec_str_int(m.status as int)
        + ", \"datetime\": \""@ + m.datetime + "\"}"@
}

/// The rows rendered as JSON objects, comma-separated.
pub open spec fn rows_json(rows: Seq<CommandRowModel>) -> Seq<char>
    decreases rows.len(),
{
    if rows.len() == 0 {
        Seq::empty()
    } else if rows.len() == 1 {
        json_of_row(rows[0])
    } else {
        rows_json(rows.drop_last()) + seq![','] + json_of_row(rows.last())
    }
}

/// The filter a listing request names, when it names one.
pub open spec fn filter_of_payload(p: RequestCommandsJson) -> Option<CommandFilter> {
    if p.filter_type == 0 {
        Some(CommandFilter::All)
    } else if p.filter_type == 1 {
        Some(CommandFilter::Completed)
    } else if p.filter_type == 2 {
        Some(CommandFilter::InProgress)
    } else if p.filter_type == 3 {
        Some(CommandFilter::Failed)
    } else if p.filter_type == 4 {
        Some(CommandFilter::Deleted)
    } else if p.filter_type == 5 {
        match p.filter_value {
            Some(v) => Some(CommandFilter::Status(v)),
            None => None,
        }
    } else if p.filter_type == 6 {
        match p.filter_value {
            Some(v) => Some(CommandFilter::Key(v)),
            None => None,
        }
    } else {
        None
    }
}

/// The whole JSON response of a listing request: the requested page of
/// rows, the total count, the page count at twenty-five rows per page, and
/// the page echoed back.  A request naming no filter gets an empty listing.
pub open spec fn commands_response(cat: Catalog, p: RequestCommandsJson) -> Seq<char> {
    let page = match p.page {
        Some(v) => v as int,
        None => 0int,
    };
    let body = match filter_of_payload(p) {
        Some(f) => rows_json(
            page_slice(
                facade_rows(cat.commands@, cat.keys@, cat.targets@, cat.positions@, f),
                page,
                25,
            ),
        ),
        None => Seq::<char>::empty(),
    };
    let count = match filter_of_payload(p) {
        Some(f) => count_matching(cat.commands@, f),
        None => 0int,
    };
    "{\"commands\":["@ + body + "], \"total_count\": "@ + dec_str_int(count) + ", \"pages\": "@
        + dec_str_int((count + 24) / 25) + ", \"page\": "@ + dec_str_int(page) + "}"@
}

impl MultipleCommandSql {
    /// Renders the row as one JSON object.
    pub fn to_json(&self) -> (r: String)
        ensures
            r@ == json_of_row(self@),
    {
        let mut s = String::from_str("{\"target\": \"");
        s.append(self.target.as_str());
        s.append("\", \"position\": \"");
        s.append(self.position.as_str());
        s.append("\", \"id\": ");
        let id_str = i64_to_string(self.id);
        s.append(id_str.as_str());
        s.append(", \"name\": \"");
        s.append(self.name.as_str());
        s.append("\", \"key_id\": ");
        let key_str = i64_to_string(self.associated_key);
        s.append(key_str.as_str());
        s.append(", \"status\": ");
        let status_str = i64_to_string(self.status);
        s.append(status_str.as_str());
        s.append(", \"datetime\": \"");
        s.append(self.datetime.as_str());
        s.append("\"}");
        proof {
            assert(s@ =~= json_of_row(self@));
        }
        s
    }
}

/// The row the next-estimate query returns: the target's name and the
/// estimate rendered as text.
#[derive(Debug, Clone)]
pub struct NextPicEstimateSql {
    /// The target object's name.
    pub target: String,
    /// The estimated completion time rendered as text.
    pub datetime: String,
}

/// Is the command a candidate for the next-estimate query: processing, with
/// an estimate, and with a resolvable target?
pub open spec fn is_estimate_candidate(c: Command, targets: Seq<TargetNameSql>) -> bool {
    &&& c.status == STATUS_PROCESSING
    &&& c.time is Some
    &&& target_name_of(targets, c.target) is Some
}

/// The index of the candidate with the earliest estimate; the earliest
/// queued wins a tie.
pub open spec fn next_estimate_idx(cs: Seq<Command>, targets: Seq<TargetNameSql>) -> Option<int>
    decreases cs.len(),
{
    if cs.len() == 0 {
        None
    } else {
        let rest = next_estimate_idx(cs.drop_last(), targets);
        let lastok = is_estimate_candidate(cs.last(), targets);
        match rest {
            None => if lastok {
                Some(cs.len() - 1)
            } else {
                None
            },
            Some(i) => if lastok && cs.last().time->Some_0 < cs[i].time->Some_0 {
                Some(cs.len() - 1)
            } else {
                Some(i)
            },
        }
    }
}

/// A chosen next-estimate index is in range and names a candidate.
pub proof fn lemma_next_estimate_idx(cs: Seq<Command>, targets: Seq<TargetNameSql>)
    ensures
        match next_estimate_idx(cs, targets) {
            Some(i) => 0 <= i < cs.len() && is_estimate_candidate(cs[i], targets),
            None => true,
        },
    decreases cs.len(),
{
    if cs.len() > 0 {
        let sub = cs.drop_last();
        lemma_next_estimate_idx(sub, targets);
        match next_estimate_idx(sub, targets) {
            Some(i) => {
                assert(sub[i] == cs[i]);
            },
            None => {},
        }
    }
}

impl Catalog {
    /// The known celestial objects.
    pub fn get_target_names(&self) -> (r: &Vec<TargetNameSql>)
        ensures
            r@ == self.targets@,
    {
        &self.targets
    }

    /// The known positions.
    pub fn get_target_positions(&self) -> (r: &Vec<TargetPosSql>)
        ensures
            r@ == self.positions@,
    {
        &self.positions
    }

    /// The earliest estimated completion among processing commands that
    /// carry an estimate, with the target's name; nothing when no such
    /// command exists.
    pub fn get_next_pic_estimate(&self) -> (r: Option<NextPicEstimateSql>)
        ensures
            match next_estimate_idx(self.commands@, self.targets@) {
                Some(i) => match r {
                    Some(row) => row.target@ == target_name_of(
                        self.targets@,
                        self.commands@[i].target,
                    )->Some_0 && row.datetime@ == dec_str_int(
                        self.commands@[i].time->Some_0 as int,
                    ),
                    None => false,
                },
                None => r is None,
            },
    {
        let n = self.commands.len();
        let mut best: Option<usize> = None;
        let mut i: usize = 0;
        while i < n
            invariant
                0 <= i <= n,
                n == self.commands@.len(),
                match best {
                    Some(b) => next_estimate_idx(self.commands@.take(i as int), self.targets@)
                        == Some(b as int) && b < i,
                    None => next_estimate_idx(self.commands@.take(i as int), self.targets@)
                        is None,
                },
            decreases n - i,
        {
            proof {
                assert(self.commands@.take(i + 1).drop_last() =~= self.commands@.take(i as int));
                assert(self.commands@.take(i + 1).last() == self.commands@[i as int]);
                lemma_next_estimate_idx(self.commands@.take(i as int), self.targets@);
                match best {
                    Some(b) => {
                        assert(self.commands@.take(i as int)[b as int] == self.commands@[b as int]);
                    },
                    None => {},
                }
            }
            let c = self.commands[i];
            let candidate = c.status == STATUS_PROCESSING && c.time.is_some()
                && self.lookup_target_name(c.target).is_some();
            if candidate {
                match best {
                    None => {
                        best = Some(i);
                    },
                    Some(b) => {
                        let bt = self.commands[b].time.unwrap();
                        let ct = c.time.unwrap();
                        if ct < bt {
                            best = Some(i);
                        }
                    },
                }
            }
            i = i + 1;
        }
        proof {
            assert(self.commands@.take(n as int) =~= self.commands@);
            lemma_next_estimate_idx(self.commands@, self.targets@);
        }
        match best {
            None => None,
            Some(b) => {
                let c = self.commands[b];
                let target = match self.lookup_target_name(c.target) {
                    Some(t) => t,
                    None => {
                        proof {
                            assert(false);
                        }
                        return None;
                    },
                };
                let datetime = i64_to_string(c.time.unwrap());
                Some(NextPicEstimateSql { target, datetime })
            },
        }
    }

    /// Builds the whole JSON response of a listing request.
    pub fn request_commands_info(&self, payload: &RequestCommandsJson) -> (r: String)
        requires
            self.commands@.len() <= i64::MAX,
        ensures
            r@ == commands_response(*self, *payload),
    {
        let page: i64 = match payload.page {
            Some(v) => v,
            None => 0,
        };
        let filter: Option<CommandFilter> = if payload.filter_type == 0 {
            Some(CommandFilter::All)
        } else if payload.filter_type == 1 {
            Some(CommandFilter::Completed)
        } else if payload.filter_type == 2 {
            Some(CommandFilter::InProgress)
        } else if payload.filter_type == 3 {
            Some(CommandFilter::Failed)
        } else if payload.filter_type == 4 {
            Some(CommandFilter::Deleted)
        } else if payload.filter_type == 5 {
            match payload.filter_value {
                Some(v) => Some(CommandFilter::Status(v)),
                None => None,
            }
        } else if payload.filter_type == 6 {
            match payload.filter_value {
                Some(v) => Some(CommandFilter::Key(v)),
                None => None,
            }
        } else {
            None
        };
        let mut s = String::from_str("{\"commands\":[");
        let count: i64 = match filter {
            Some(f) => {
                let rows = self.commands_page(f, page);
                let m = rows.len();
                let mut k: usize = 0;
                while k < m
                    invariant
                        0 <= k <= m,
                        m == rows@.len(),
                        s@ == "{\"commands\":["@ + rows_json(
                            rows@.map_values(|row: MultipleCommandSql| row@).take(k as int),
                        ),
                    decreases m - k,
                {
                    proof {
                        let models = rows@.map_values(|row: MultipleCommandSql| row@);
                        assert(models.take(k + 1).drop_last() =~= models.take(k as int));
                        assert(models.take(k + 1).last() == models[k as int]);
                        assert(models[k as int] == rows@[k as int]@);
                    }
                    if k > 0 {
                        s.append(",");
                        proof {
                            reveal_strlit(",");
                            assert(","@ =~= seq![',']);
                        }
                    }
                    let rj = rows[k].to_json();
                    s.append(rj.as_str());
                    proof {
                        let models = rows@.map_values(|row: MultipleCommandSql| row@);
                        assert(s@ =~= "{\"commands\":["@ + rows_json(models.take(k + 1)));
                    }
                    k = k + 1;
                }
                proof {
                    let models = rows@.map_values(|row: MultipleCommandSql| row@);
                    assert(models.take(m as int) =~= models);
                }
                self.count_commands(f).count
            },
            None => 0,
        };
        proof {
            match filter {
                Some(f) => {
                    lemma_count_bounded(self.commands@, f);
                },
                None => {},
            }
            assert(count >= 0);
        }
        s.append("], \"total_count\": ");
        let count_str = i64_to_string(count);
        s.append(count_str.as_str());
        s.append(", \"pages\": ");
        let pages: i64 = ((count as i128 + 24) / 25) as i64;
        let pages_str = i64_to_string(pages);
        s.append(pages_str.as_str());
        s.append(", \"page\": ");
        let page_str = i64_to_string(page);
        s.append(page_str.as_str());
        s.append("}");
        proof {
            assert(s@ =~= commands_response(*self, *payload));
        }
        s
    }
}

/// A count never exceeds the table's length.
proof fn lemma_count_bounded(cs: Seq<Command>, f: CommandFilter)
    ensures
        0 <= count_matching(cs, f) <= cs.len(),
    decreases cs.len(),
{
    if cs.len() > 0 {
        lemma_count_bounded(cs.drop_last(), f);
    }
}

} // verus!
