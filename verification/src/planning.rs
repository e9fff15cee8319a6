//! The rules by which the storage plans its work: which encoding a stored table uses, how a
//! data frame is brought into the storage's encoding, how an index is scanned, which filters
//! are pushed into a scan, when a large write is flushed, when the local dictionary is synced,
//! and when a table counts as fresh.

use crate::claim::LocalObjectIdError;
use crate::index::{IndexComponents, QuadComponent};
use crate::log::DeltaStorageLogVersionRange;
use crate::decimal::{digits_of, format_u64, string_push};
use vstd::prelude::*;

verus! {

/// How the terms of a storage are encoded.
#[derive(Debug, Clone, Copy, PartialEq, Eq, Hash, Structural)]
pub enum StorageEncodingName {
    /// Terms as plain term structs.
    PlainTerm,
    /// Terms as strings.
    String,
    /// Terms as object ids of a dictionary.
    ObjectId,
}

/// The type of a column, as far as the encoding rules look at it.
#[derive(Debug, Clone, Copy, PartialEq, Eq, Hash, Structural)]
pub enum ColumnType {
    /// A plain term struct.
    PlainTerm,
    /// A UTF-8 string.
    Utf8,
    Int32,
    Int64,
    /// Fixed-size binary values of the given width.
    FixedSizeBinary(i32),
    /// Any other type.
    Other,
}

/// The encoding of a stored storage, read from the type of its graph column: plain term
/// structs, strings, or 64-bit object ids; any other type is not supported.
pub fn encoding_of_graph_column(data_type: ColumnType) -> (r: Option<StorageEncodingName>)
    ensures
        r == (match data_type {
            ColumnType::PlainTerm => Some(StorageEncodingName::PlainTerm),
            ColumnType::Utf8 => Some(StorageEncodingName::String),
            ColumnType::Int64 => Some(StorageEncodingName::ObjectId),
            _ => None,
        }),
{
    match data_type {
        ColumnType::PlainTerm => Some(StorageEncodingName::PlainTerm),
        ColumnType::Utf8 => Some(StorageEncodingName::String),
        ColumnType::Int64 => Some(StorageEncodingName::ObjectId),
        _ => None,
    }
}

/// What is done to one column to bring it into the target encoding.
#[derive(Debug, Clone, Copy, PartialEq, Eq, Hash, Structural)]
pub enum ColumnConversion {
    /// The column is already in the target encoding.
    Keep,
    /// Decode object ids into plain terms.
    DecodeObjectIds,
    /// Encode the column as plain terms.
    EncodePlainTerm,
    /// Encode the column as strings.
    EncodeString,
    /// Decode object ids into plain terms, then encode those as strings.
    DecodeThenEncodeString,
}

/// How a data frame is brought into the storage's encoding.
#[derive(Debug, Clone, PartialEq, Eq)]
pub enum EncodingPlan {
    /// Every column is already encoded.
    AlreadyEncoded,
    /// The whole frame is encoded into object ids.
    EncodeAsObjectIds,
    /// Each column is converted on its own.
    PerColumn(Vec<ColumnConversion>),
}

/// The target encoding of a storage, with the column type of its object ids.
#[derive(Debug, Clone, Copy, PartialEq, Eq, Hash, Structural)]
pub enum TargetEncoding {
    ObjectId(ColumnType),
    PlainTerm,
    String,
}

/// Whether a column of the type is in the target encoding.
pub open spec fn is_in_encoding(t: ColumnType, target: TargetEncoding) -> bool {
    match target {
        TargetEncoding::ObjectId(id_type) => t == id_type,
        TargetEncoding::PlainTerm => t == ColumnType::PlainTerm,
        TargetEncoding::String => t == ColumnType::Utf8,
    }
}

/// Whether a column of the type holds object ids to decode.
pub open spec fn holds_object_ids(t: ColumnType) -> bool {
    match t {
        ColumnType::Int32 | ColumnType::Int64 | ColumnType::FixedSizeBinary(_) => true,
        _ => false,
    }
}

/// The conversion of one column into plain terms or strings.
pub open spec fn column_conversion(t: ColumnType, target: TargetEncoding) -> ColumnConversion {
    match target {
        TargetEncoding::String => if holds_object_ids(t) {
            ColumnConversion::DecodeThenEncodeString
        } else if t != ColumnType::Utf8 {
            ColumnConversion::EncodeString
        } else {
            ColumnConversion::Keep
        },
        _ => if holds_object_ids(t) {
            ColumnConversion::DecodeObjectIds
        } else if t != ColumnType::PlainTerm {
            ColumnConversion::EncodePlainTerm
        } else {
            ColumnConversion::Keep
        },
    }
}

fn is_in_encoding_exec(t: ColumnType, target: TargetEncoding) -> (r: bool)
    ensures
        r == is_in_encoding(t, target),
{
    match target {
        TargetEncoding::ObjectId(id_type) => t == id_type,
        TargetEncoding::PlainTerm => t == ColumnType::PlainTerm,
        TargetEncoding::String => t == ColumnType::Utf8,
    }
}

fn column_conversion_exec(t: ColumnType, target: TargetEncoding) -> (r: ColumnConversion)
    ensures
        r == column_conversion(t, target),
{
    let ids = match t {
        ColumnType::Int32 | ColumnType::Int64 | ColumnType::FixedSizeBinary(_) => true,
        _ => false,
    };
    match target {
        TargetEncoding::String => if ids {
            ColumnConversion::DecodeThenEncodeString
        } else if t != ColumnType::Utf8 {
            ColumnConversion::EncodeString
        } else {
            ColumnConversion::Keep
        },
        _ => if ids {
            ColumnConversion::DecodeObjectIds
        } else if t != ColumnType::PlainTerm {
            ColumnConversion::EncodePlainTerm
        } else {
            ColumnConversion::Keep
        },
    }
}

/// Plans how a data frame with the given column types is brought into the target encoding:
/// not at all when every column is in it; as a whole for object ids; else column by column.
pub fn plan_dataframe_encoding(columns: &[ColumnType], target: TargetEncoding) -> (r: EncodingPlan)
    ensures
        (forall|i: int| 0 <= i < columns.len() ==> is_in_encoding(#[trigger] columns[i], target))
            ==> r == EncodingPlan::AlreadyEncoded,
        !(forall|i: int| 0 <= i < columns.len() ==> is_in_encoding(#[trigger] columns[i], target))
            ==> match target {
            TargetEncoding::ObjectId(_) => r == EncodingPlan::EncodeAsObjectIds,
            _ => r matches EncodingPlan::PerColumn(v) && v.len() == columns.len() && forall|i: int|
                0 <= i < columns.len() ==> #[trigger] v[i] == column_conversion(columns[i], target),
        },
{
    let mut all = true;
    let mut i: usize = 0;
    while i < columns.len()
        invariant
            i <= columns.len(),
            all == forall|j: int| 0 <= j < i ==> is_in_encoding(#[trigger] columns[j], target),
        decreases columns.len() - i,
    {
        all = all && is_in_encoding_exec(columns[i], target);
        i = i + 1;
    }
    if all {
        return EncodingPlan::AlreadyEncoded;
    }
    match target {
        TargetEncoding::ObjectId(_) => EncodingPlan::EncodeAsObjectIds,
        _ => {
            let mut v: Vec<ColumnConversion> = Vec::new();
            let mut k: usize = 0;
            while k < columns.len()
                invariant
                    k <= columns.len(),
                    v.len() == k,
                    forall|j: int| 0 <= j < k ==> #[trigger] v[j] == column_conversion(columns[j], target),
                decreases columns.len() - k,
            {
                v.push(column_conversion_exec(columns[k], target));
                k = k + 1;
            }
            EncodingPlan::PerColumn(v)
        },
    }
}

/// How an index is scanned.
#[derive(Debug, Clone, Copy, PartialEq, Eq, Structural)]
pub struct IndexScanStrategy {
    /// The filters are handed to the table scan.
    pub push_filters: bool,
    /// The projection is handed to the table scan.
    pub push_projection: bool,
    /// The filters and the projection are applied above the scan.
    pub filter_and_project_above: bool,
}

/// Plans the scan of an index: filters can be handed to the scan for object ids and strings
/// (not for plain term structs); only when the scan applies them exactly can the projection
/// go with them, and otherwise they are applied again above the scan, with the projection.
pub fn plan_index_scan(encoding: StorageEncodingName, pushdown_filters_exact: bool) -> (r: IndexScanStrategy)
    ensures
        r.push_filters == (encoding != StorageEncodingName::PlainTerm),
        r.push_projection == (r.push_filters && pushdown_filters_exact),
        r.filter_and_project_above == !r.push_projection,
{
    let can_push_filters = match encoding {
        StorageEncodingName::ObjectId | StorageEncodingName::String => true,
        StorageEncodingName::PlainTerm => false,
    };
    let push_projection = can_push_filters && pushdown_filters_exact;
    IndexScanStrategy {
        push_filters: can_push_filters,
        push_projection,
        filter_and_project_above: !push_projection,
    }
}

/// Which filters of a parent are pushed into a scan, given which of them call a user-defined
/// function (those stay above): `None` when no filter can go and the plan stays, else each
/// filter's answer.
pub fn filter_pushdown(has_udf: &[bool]) -> (r: Option<Vec<bool>>)
    ensures
        (forall|i: int| 0 <= i < has_udf.len() ==> #[trigger] has_udf[i]) <==> r is None,
        r matches Some(v) ==> v.len() == has_udf.len() && forall|i: int| 0 <= i < has_udf.len() ==> #[trigger] v[i]
            == !has_udf[i],
{
    let mut any = false;
    let mut v: Vec<bool> = Vec::new();
    let mut i: usize = 0;
    while i < has_udf.len()
        invariant
            i <= has_udf.len(),
            v.len() == i,
            any == exists|j: int| 0 <= j < i && !#[trigger] has_udf[j],
            forall|j: int| 0 <= j < i ==> #[trigger] v[j] == !has_udf[j],
        decreases has_udf.len() - i,
    {
        if !has_udf[i] {
            any = true;
        }
        v.push(!has_udf[i]);
        i = i + 1;
    }
    if any {
        Some(v)
    } else {
        None
    }
}

/// The number of rows after which a large write closes its file and starts a new one.
pub const FLUSH_ROW_COUNT: usize = 1000000;

/// Whether a writer that wrote the given rows since its last flush closes its file.
pub fn should_flush_writer(rows_since_flush: usize) -> (r: bool)
    ensures
        r == (rows_since_flush >= FLUSH_ROW_COUNT),
{
    rows_since_flush >= FLUSH_ROW_COUNT
}

/// The number of writers of a transaction: one per target partition, at least one.
pub fn writer_count(target_partitions: usize) -> (r: usize)
    ensures
        r == (if target_partitions == 0 {
            1
        } else {
            target_partitions
        }),
{
    if target_partitions == 0 {
        1
    } else {
        target_partitions
    }
}

/// Whether a commit of the given table version also writes a checkpoint: every tenth version.
pub fn should_checkpoint(version: i64) -> (r: bool)
    ensures
        r == (version > 0 && version % 10 == 0),
{
    version > 0 && version % 10 == 0
}

/// What bringing the local dictionary up to the global one takes.
#[derive(Debug, Clone, PartialEq, Eq)]
pub enum DictionarySync {
    /// The local dictionary is up to date.
    UpToDate,
    /// Apply the global versions from the first to the last, both included.
    Apply { first: u64, last: u64 },
}

/// Decides how the local dictionary, synced to `local_version` (none: zero), catches up with
/// the global dictionary at `global_version` (none: zero): not at all when they agree, by the
/// versions after the local one when it is behind; ahead of the global one it is corrupt.
pub fn plan_dictionary_sync(local_version: Option<u64>, global_version: Option<u64>) -> (r: Result<
    DictionarySync,
    LocalObjectIdError,
>)
    ensures
        ({
            let l = match local_version {
                Some(v) => v,
                None => 0,
            };
            let g = match global_version {
                Some(v) => v,
                None => 0,
            };
            &&& l == g ==> r == Ok::<DictionarySync, LocalObjectIdError>(DictionarySync::UpToDate)
            &&& l < g ==> r == Ok::<DictionarySync, LocalObjectIdError>(
                DictionarySync::Apply { first: (l + 1) as u64, last: g },
            )
            &&& l > g ==> (r matches Err(LocalObjectIdError::Corruption(m)) && m@ == sync_ahead_message(l, g))
        }),
{
    let local = match local_version {
        Some(v) => v,
        None => 0,
    };
    let global = match global_version {
        Some(v) => v,
        None => 0,
    };
    if local == global {
        return Ok(DictionarySync::UpToDate);
    }
    if local > global {
        let mut m = String::new();
        m.append("The local dictionary has a higher version than the global dictionary (local: ");
        let l = format_u64(local);
        m.append(l.as_str());
        m.append(", global: ");
        let g = format_u64(global);
        m.append(g.as_str());
        m.append(").");
        return Err(LocalObjectIdError::Corruption(m));
    }
    Ok(DictionarySync::Apply { first: local + 1, last: global })
}

/// The message of a local dictionary that is ahead of the global one.
pub open spec fn sync_ahead_message(local: u64, global: u64) -> Seq<char> {
    "The local dictionary has a higher version than the global dictionary (local: "@ + digits_of(local as nat)
        + ", global: "@ + digits_of(global as nat) + ")."@
}

/// The characters without their trailing slashes.
pub open spec fn trim_trailing_slashes(s: Seq<char>) -> Seq<char>
    decreases s.len(),
{
    if s.len() > 0 && s.last() == '/' {
        trim_trailing_slashes(s.drop_last())
    } else {
        s
    }
}

/// The location of a file that a commit added, from the table's location and the file's path
/// relative to it: the two joined by a single slash.
pub fn added_file_url(table_url: &str, path: &str) -> (r: String)
    ensures
        r@ == trim_trailing_slashes(table_url@) + seq!['/'] + path@,
{
    let chars_len = table_url.unicode_len();
    let mut end: usize = chars_len;
    proof {
        assert(table_url@.subrange(0, end as int) =~= table_url@);
    }
    while end > 0 && table_url.get_char(end - 1) == '/'
        invariant
            end <= chars_len,
            chars_len == table_url@.len(),
            trim_trailing_slashes(table_url@) == trim_trailing_slashes(table_url@.subrange(0, end as int)),
        decreases end,
    {
        proof {
            assert(table_url@.subrange(0, end as int).drop_last() =~= table_url@.subrange(0, end - 1));
        }
        end = end - 1;
    }
    proof {
        if end > 0 {
            assert(table_url@.subrange(0, end as int).last() == table_url@[end - 1]);
        }
    }
    let mut r = String::new();
    let mut i: usize = 0;
    while i < end
        invariant
            i <= end,
            end <= chars_len,
            chars_len == table_url@.len(),
            r@ == table_url@.subrange(0, i as int),
        decreases end - i,
    {
        string_push(&mut r, table_url.get_char(i));
        proof {
            assert(table_url@.subrange(0, i as int + 1) =~= table_url@.subrange(0, i as int).push(table_url@[i as int]));
        }
        i = i + 1;
    }
    string_push(&mut r, '/');
    r.append(path);
    r
}

/// Whether a table refreshed last at `last_success` is fresh enough for a query that arrived
/// at `arrival_time`, with `max_age` between them at most (all in the same unit of time).
pub fn is_fresh(last_success: u64, arrival_time: u64, max_age: u64) -> (r: bool)
    ensures
        r == (last_success >= arrival_time || arrival_time - last_success <= max_age),
{
    last_success >= arrival_time || arrival_time - last_success <= max_age
}

/// Whether a query that arrived at `arrival_time` makes the table reload: only when a maximum
/// age is set and the last successful refresh is older than it allows. Without a maximum age
/// the table is never reloaded for a query.
pub fn needs_refresh(last_success: u64, arrival_time: u64, max_age: Option<u64>) -> (r: bool)
    ensures
        r == match max_age {
            None => false,
            Some(age) => !(last_success >= arrival_time || arrival_time - last_success <= age),
        },
{
    match max_age {
        None => false,
        Some(age) => !is_fresh(last_success, arrival_time, age),
    }
}

/// Whether a table version is at least another, a table without a version being the oldest.
pub open spec fn version_at_least(a: Option<i64>, b: Option<i64>) -> bool {
    match (a, b) {
        (_, None) => true,
        (None, Some(_)) => false,
        (Some(x), Some(y)) => x >= y,
    }
}

/// Whether a reloaded table replaces the shared one: when it is at least as new.
pub fn should_replace_table(reloaded_version: Option<i64>, current_version: Option<i64>) -> (r: bool)
    ensures
        r == version_at_least(reloaded_version, current_version),
{
    match (reloaded_version, current_version) {
        (None, None) => true,
        (None, Some(_)) => false,
        (Some(_), None) => true,
        (Some(a), Some(b)) => a >= b,
    }
}

/// Keeps a table fresh enough for queries: the maximum age of the table for a query (none:
/// no refreshing) and the time of the last successful refresh (all times in one unit).
pub struct TableRefresher {
    max_age: Option<u64>,
    last_success: u64,
}

/// What a refresh did with the reloaded table.
#[derive(Debug, Clone, Copy, PartialEq, Eq, Structural)]
pub enum RefreshOutcome {
    /// The table was reloaded and replaces the shared one, being at least as new.
    Replaced,
    /// The table was reloaded but is older than the shared one, which stays.
    KeptCurrent,
    /// Reloading failed; nothing changes.
    Failed,
}

impl TableRefresher {
    /// The maximum age of the table for a query.
    pub closed spec fn max_age(&self) -> Option<u64> {
        self.max_age
    }

    /// The time of the last successful refresh.
    pub closed spec fn last_success(&self) -> u64 {
        self.last_success
    }

    /// A refresher whose last successful refresh is now.
    pub fn new(max_age: Option<u64>, now: u64) -> (r: Self)
        ensures
            r.max_age() == max_age,
            r.last_success() == now,
    {
        TableRefresher { max_age, last_success: now }
    }

    /// Changes the maximum age.
    pub fn set_max_age(&mut self, max_age: Option<u64>)
        ensures
            final(self).max_age() == max_age,
            final(self).last_success() == old(self).last_success(),
    {
        self.max_age = max_age;
    }

    /// Whether a query that arrived at `arrival_time` must wait for a reload: only with a
    /// maximum age, and only when the last successful refresh is older than it allows.
    pub open spec fn reload_due(&self, arrival_time: u64) -> bool {
        match self.max_age() {
            None => false,
            Some(age) => !(self.last_success() >= arrival_time || arrival_time - self.last_success() <= age),
        }
    }

    /// Whether a query that arrived at `arrival_time` must wait for a reload.
    pub fn needs_reload(&self, arrival_time: u64) -> (r: bool)
        ensures
            r == self.reload_due(arrival_time),
    {
        needs_refresh(self.last_success, arrival_time, self.max_age)
    }

    /// A reload that started at `start_time` ended: when it succeeded, the reloaded table
    /// replaces the shared one if it is at least as new, and the refresh counts as successful
    /// from `start_time` on; when it failed, nothing changes.
    pub fn reload_ended(
        &mut self,
        start_time: u64,
        reloaded_version: Option<Option<i64>>,
        current_version: Option<i64>,
    ) -> (r: RefreshOutcome)
        ensures
            final(self).max_age() == old(self).max_age(),
            match reloaded_version {
                None => r == RefreshOutcome::Failed && final(self).last_success() == old(self).last_success(),
                Some(v) => final(self).last_success() == start_time && (r == RefreshOutcome::Replaced
                    <==> version_at_least(v, current_version)) && r != RefreshOutcome::Failed,
            },
    {
        match reloaded_version {
            None => RefreshOutcome::Failed,
            Some(v) => {
                self.last_success = start_time;
                if should_replace_table(v, current_version) {
                    RefreshOutcome::Replaced
                } else {
                    RefreshOutcome::KeptCurrent
                }
            },
        }
    }
}

/// After a successful reload that started no earlier than a query arrived, the query needs no
/// further reload, whatever the maximum age.
pub proof fn lemma_reloaded_table_is_fresh(m: TableRefresher, arrival_time: u64)
    requires
        arrival_time <= m.last_success(),
    ensures
        !m.reload_due(arrival_time),
{
}

/// The message of an index validation that found duplicate rows.
pub open spec fn duplicates_message(total: u64, distinct: u64) -> Seq<char> {
    "Validation failed: Index contains duplicates. Total: "@ + digits_of(total as nat) + ", Distinct: "@
        + digits_of(distinct as nat)
}

/// Validates an index by its row count against its count of distinct rows: they must agree.
pub fn check_index_duplicates(total_count: u64, distinct_count: u64) -> (r: Result<(), String>)
    ensures
        total_count == distinct_count <==> r is Ok,
        r matches Err(m) ==> m@ == duplicates_message(total_count, distinct_count),
{
    if total_count != distinct_count {
        let mut m = String::new();
        m.append("Validation failed: Index contains duplicates. Total: ");
        let t = format_u64(total_count);
        m.append(t.as_str());
        m.append(", Distinct: ");
        let d = format_u64(distinct_count);
        m.append(d.as_str());
        return Err(m);
    }
    Ok(())
}

/// The changeset a scan applies on top of an index that is at `index_version` to read the
/// storage at `target_version`: none when they agree, the versions in between when the target
/// is newer; an older target cannot be read from the index.
pub fn changeset_range_for_scan(index_version: u64, target_version: u64) -> (r: Result<
    Option<DeltaStorageLogVersionRange>,
    String,
>)
    ensures
        target_version < index_version ==> (r matches Err(m) && m@ == "The target version is older than the index version"@),
        target_version >= index_version ==> (r matches Ok(o) && (o is Some <==> index_version < target_version)),
        r matches Ok(Some(range)) ==> range.start() == index_version && range.end() == target_version,
{
    if target_version < index_version {
        return Err("The target version is older than the index version".to_string());
    }
    Ok(DeltaStorageLogVersionRange::try_new(index_version, target_version))
}

/// Picks the index with the highest score; on a tie, the last of them. `None` when there is
/// no index.
pub fn choose_best_index_last(scores: &[usize]) -> (r: Option<usize>)
    ensures
        r is None <==> scores.len() == 0,
        r matches Some(b) ==> b < scores.len() && (forall|i: int| 0 <= i < scores.len() ==> scores[i] <= scores[b as int])
            && (forall|i: int| b < i < scores.len() ==> scores[i] < scores[b as int]),
{
    if scores.len() == 0 {
        return None;
    }
    let mut best: usize = 0;
    let mut i: usize = 1;
    while i < scores.len()
        invariant
            1 <= i <= scores.len(),
            best < i,
            forall|j: int| 0 <= j < i ==> scores[j] <= scores[best as int],
            forall|j: int| best < j < i ==> scores[j] < scores[best as int],
        decreases scores.len() - i,
    {
        if scores[i] >= scores[best] {
            best = i;
        }
        i = i + 1;
    }
    Some(best)
}

/// What opening a storage at a location does.
#[derive(Debug, Clone, Copy, PartialEq, Eq, Structural)]
pub enum OpenAction {
    /// Load the storage that is there.
    Load,
    /// Create a new storage.
    Create,
}

/// Decides how a storage is opened: a location that already holds files is loaded when loading
/// is allowed and refused otherwise; an empty location gets a new storage.
pub fn plan_open_storage(location_has_files: bool, may_load: bool) -> (r: Result<OpenAction, String>)
    ensures
        !location_has_files ==> r == Ok::<OpenAction, String>(OpenAction::Create),
        location_has_files && may_load ==> r == Ok::<OpenAction, String>(OpenAction::Load),
        location_has_files && !may_load ==> (r matches Err(m) && m@ == "Table already exists."@),
{
    if location_has_files {
        if may_load {
            Ok(OpenAction::Load)
        } else {
            Err("Table already exists.".to_string())
        }
    } else {
        Ok(OpenAction::Create)
    }
}

/// The quad tables a new storage keeps unless told otherwise: GSPO, GPOS and GOSP.
pub fn default_quad_tables() -> (r: Vec<IndexComponents>)
    ensures
        r.len() == 3,
        r[0].components() == seq![QuadComponent::GraphName, QuadComponent::Subject, QuadComponent::Predicate, QuadComponent::Object],
        r[1].components() == seq![QuadComponent::GraphName, QuadComponent::Predicate, QuadComponent::Object, QuadComponent::Subject],
        r[2].components() == seq![QuadComponent::GraphName, QuadComponent::Object, QuadComponent::Subject, QuadComponent::Predicate],
{
    let mut v: Vec<IndexComponents> = Vec::new();
    v.push(IndexComponents::GSPO());
    v.push(IndexComponents::GPOS());
    v.push(IndexComponents::GOSP());
    v
}

/// The files (by index, in order) that round-robin assignment puts into group `g`: those of
/// the first `n` files whose index is `g` modulo `groups`.
pub open spec fn group_files(n: int, groups: int, g: int) -> Seq<usize>
    decreases n,
{
    if n <= 0 {
        seq![]
    } else if (n - 1) % groups == g {
        group_files(n - 1, groups, g).push((n - 1) as usize)
    } else {
        group_files(n - 1, groups, g)
    }
}

/// Group `g` receives a file exactly when `g` is one of the file indices.
proof fn lemma_group_files_empty(n: int, groups: int, g: int)
    requires
        0 <= n,
        0 <= g < groups,
    ensures
        (group_files(n, groups, g).len() == 0) == (n <= g),
    decreases n,
{
    if n > 0 {
        lemma_group_files_empty(n - 1, groups, g);
        if n - 1 <= g {
            vstd::arithmetic::div_mod::lemma_small_mod((n - 1) as nat, groups as nat);
        }
    }
}

/// Spreads `n_files` files over `target_partitions` groups round-robin (file `i` into group
/// `i % target_partitions`) and drops the groups that stay empty.
pub fn round_robin_file_groups(n_files: usize, target_partitions: usize) -> (r: Vec<Vec<usize>>)
    requires
        target_partitions > 0,
    ensures
        r@.len() == if n_files < target_partitions {
            n_files
        } else {
            target_partitions
        },
        forall|g: int|
            0 <= g < r@.len() ==> r@[g]@ == group_files(
                n_files as int,
                target_partitions as int,
                g,
            ),
{
    let mut groups: Vec<Vec<usize>> = Vec::new();
    let mut g: usize = 0;
    while g < target_partitions
        invariant
            g <= target_partitions,
            groups@.len() == g,
            forall|h: int| 0 <= h < g ==> groups@[h]@ == Seq::<usize>::empty(),
        decreases target_partitions - g,
    {
        groups.push(Vec::new());
        g = g + 1;
    }
    let mut i: usize = 0;
    while i < n_files
        invariant
            target_partitions > 0,
            i <= n_files,
            groups@.len() == target_partitions,
            forall|h: int|
                0 <= h < target_partitions ==> groups@[h]@ == group_files(
                    i as int,
                    target_partitions as int,
                    h,
                ),
        decreases n_files - i,
    {
        let k = i % target_partitions;
        let ghost old_groups = groups@;
        let mut group: Vec<usize> = Vec::new();
        groups.set_and_swap(k, &mut group);
        group.push(i);
        groups.set_and_swap(k, &mut group);
        proof {
            assert forall|h: int|
                0 <= h < target_partitions implies groups@[h]@ == group_files(
                i as int + 1,
                target_partitions as int,
                h,
            ) by {
                assert(k as int == (i as int) % (target_partitions as int));
                assert(group_files(i as int + 1, target_partitions as int, h) == if (i as int) % (
                target_partitions as int) == h {
                    group_files(i as int, target_partitions as int, h).push(i)
                } else {
                    group_files(i as int, target_partitions as int, h)
                });
                if h == k as int {
                    assert(groups@[h]@ == group_files(i as int, target_partitions as int, h).push(i));
                } else {
                    assert(groups@[h] == old_groups[h]);
                }
            }
        }
        i = i + 1;
    }
    let keep = if n_files < target_partitions {
        n_files
    } else {
        target_partitions
    };
    let mut r: Vec<Vec<usize>> = Vec::new();
    let mut h: usize = 0;
    while h < target_partitions
        invariant
            target_partitions > 0,
            h <= target_partitions,
            groups@.len() == target_partitions,
            keep == if n_files < target_partitions {
                n_files
            } else {
                target_partitions
            },
            r@.len() == if h < keep {
                h
            } else {
                keep
            },
            forall|x: int|
                h <= x < target_partitions ==> groups@[x]@ == group_files(
                    n_files as int,
                    target_partitions as int,
                    x,
                ),
            forall|x: int|
                0 <= x < r@.len() ==> r@[x]@ == group_files(
                    n_files as int,
                    target_partitions as int,
                    x,
                ),
        decreases target_partitions - h,
    {
        proof {
            lemma_group_files_empty(n_files as int, target_partitions as int, h as int);
        }
        if groups[h].len() > 0 {
            let mut group: Vec<usize> = Vec::new();
            groups.set_and_swap(h, &mut group);
            r.push(group);
        }
        h = h + 1;
    }
    r
}

/// The smallest of the versions (`u64::MAX` when there is none).
pub open spec fn min_version(vs: Seq<u64>) -> u64
    decreases vs.len(),
{
    if vs.len() == 0 {
        u64::MAX
    } else if vs.last() < min_version(vs.drop_last()) {
        vs.last()
    } else {
        min_version(vs.drop_last())
    }
}

/// The tables (by index, in order) among the first `k` whose version is not `log_version`.
pub open spec fn stale_tables(vs: Seq<u64>, log_version: u64, k: int) -> Seq<usize>
    decreases k,
{
    if k <= 0 {
        seq![]
    } else if vs[k - 1] != log_version {
        stale_tables(vs, log_version, k - 1).push((k - 1) as usize)
    } else {
        stale_tables(vs, log_version, k - 1)
    }
}

/// What optimizing the quad tables takes.
#[derive(Debug)]
pub enum OptimizePlan {
    /// The storage has no quad table.
    NoQuadTables,
    /// Every quad table is at the log's version.
    UpToDate(u64),
    /// Compute the changeset of the range and update the listed tables with it.
    Update { range: DeltaStorageLogVersionRange, tables: Vec<usize> },
}

/// The message of a log that is older than its quad tables.
pub open spec fn downgrade_message(table_version: u64, log_version: u64) -> Seq<char> {
    "QuadTable is already at version "@ + digits_of(table_version as nat)
        + ". Cannot downgrade to version "@ + digits_of(log_version as nat) + "."@
}

/// Plans bringing the quad tables, at the given log versions, up to the log's version: the
/// changeset runs from the oldest table version to the log's, and every table not already at
/// the log's version is updated. A log older than the oldest table is refused.
pub fn plan_optimize(table_versions: &[u64], log_version: u64) -> (r: Result<OptimizePlan, String>)
    ensures
        table_versions@.len() == 0 ==> r matches Ok(OptimizePlan::NoQuadTables),
        table_versions@.len() > 0 ==> {
            let m = min_version(table_versions@);
            &&& log_version < m ==> (r matches Err(msg) && msg@ == downgrade_message(m, log_version))
            &&& log_version == m ==> (r matches Ok(OptimizePlan::UpToDate(v)) && v == log_version)
            &&& log_version > m ==> (r matches Ok(OptimizePlan::Update { range, tables })
                && range.start() == m && range.end() == log_version && tables@ == stale_tables(
                table_versions@,
                log_version,
                table_versions@.len() as int,
            ))
        },
{
    if table_versions.len() == 0 {
        return Ok(OptimizePlan::NoQuadTables);
    }
    let mut min: u64 = u64::MAX;
    let mut i: usize = 0;
    while i < table_versions.len()
        invariant
            i <= table_versions@.len(),
            min == min_version(table_versions@.take(i as int)),
        decreases table_versions@.len() - i,
    {
        proof {
            assert(table_versions@.take(i as int + 1).drop_last() =~= table_versions@.take(i as int));
        }
        if table_versions[i] < min {
            min = table_versions[i];
        }
        i = i + 1;
    }
    proof {
        assert(table_versions@.take(table_versions@.len() as int) =~= table_versions@);
    }
    if log_version < min {
        let mut m = String::new();
        m.append("QuadTable is already at version ");
        let t = format_u64(min);
        m.append(t.as_str());
        m.append(". Cannot downgrade to version ");
        let l = format_u64(log_version);
        m.append(l.as_str());
        m.append(".");
        return Err(m);
    }
    if log_version == min {
        return Ok(OptimizePlan::UpToDate(log_version));
    }
    let mut tables: Vec<usize> = Vec::new();
    let mut k: usize = 0;
    while k < table_versions.len()
        invariant
            k <= table_versions@.len(),
            tables@ == stale_tables(table_versions@, log_version, k as int),
        decreases table_versions@.len() - k,
    {
        if table_versions[k] != log_version {
            tables.push(k);
        }
        k = k + 1;
    }
    Ok(
        OptimizePlan::Update {
            range: DeltaStorageLogVersionRange::new_unchecked(min, log_version),
            tables,
        },
    )
}

} // verus!
