//! The category collector: it takes the filtered rows of one source after
//! another, partitions them by category and keeps, for every category key,
//! the tables contributed so far in the order in which they came.

use vstd::prelude::*;
use vstd::string::StringExecFns;
use crate::category::{category_key, is_category_key, sanitize};
use crate::codec::{parquet_of, read_record_set, write_parquet};
use crate::converter_uploader::{
    encoding_failed, filter_by_allow_list, missing_column, missing_column_text, object_key,
    reports_encoding_failure, s3_key, CsvProcessingError, UploadRequest, CATEGORY_COLUMN,
};
use crate::record_set::{
    allowed_rows, count_allowed, distinct, equal_pred, is_member, matching_rows, text_in,
    RecordSet, TableView,
};

verus! {

/// Some entry is filed under `key`.
pub open spec fn has_key(entries: Seq<(Seq<char>, Seq<TableView>)>, key: Seq<char>) -> bool {
    exists|i: int| 0 <= i < entries.len() && (#[trigger] entries[i]).0 == key
}

/// The position of the entry filed under `key`, where there is one.
pub open spec fn position(entries: Seq<(Seq<char>, Seq<TableView>)>, key: Seq<char>) -> int {
    choose|i: int| 0 <= i < entries.len() && (#[trigger] entries[i]).0 == key
}

/// No two entries are filed under the same key.
pub open spec fn distinct_keys(entries: Seq<(Seq<char>, Seq<TableView>)>) -> bool {
    forall|i: int, j: int|
        0 <= i < j < entries.len() ==> (#[trigger] entries[i]).0 != (#[trigger] entries[j]).0
}

/// The tables filed under `key`, oldest first; none for an unknown key.
pub open spec fn tables_of(entries: Seq<(Seq<char>, Seq<TableView>)>, key: Seq<char>) -> Seq<
    TableView,
> {
    if has_key(entries, key) {
        entries[position(entries, key)].1
    } else {
        Seq::empty()
    }
}

/// `entries` after `table` was filed under `key`: behind the tables already
/// there, or as the first table of a new entry at the end.
pub open spec fn appended(
    entries: Seq<(Seq<char>, Seq<TableView>)>,
    key: Seq<char>,
    table: TableView,
) -> Seq<(Seq<char>, Seq<TableView>)> {
    if has_key(entries, key) {
        let i = position(entries, key);
        entries.update(i, (key, entries[i].1.push(table)))
    } else {
        entries.push((key, seq![table]))
    }
}

/// `entries` after the rows of `table` with the category `value` were filed.
/// A missing value, a value that is not allowed and a value without rows
/// leave the entries as they are.
pub open spec fn filed(
    entries: Seq<(Seq<char>, Seq<TableView>)>,
    table: TableView,
    column: int,
    allowed: Seq<Seq<char>>,
    value: Option<Seq<char>>,
) -> Seq<(Seq<char>, Seq<TableView>)> {
    match value {
        Some(raw) => {
            let rows = matching_rows(table.rows, column, raw);
            if allowed.contains(raw) && rows.len() > 0 {
                appended(entries, category_key(raw), TableView { columns: table.columns, rows })
            } else {
                entries
            }
        },
        None => entries,
    }
}

/// `entries` after the rows of `table` were filed for each of `values` in
/// turn.
pub open spec fn grouped(
    entries: Seq<(Seq<char>, Seq<TableView>)>,
    table: TableView,
    column: int,
    allowed: Seq<Seq<char>>,
    values: Seq<Option<Seq<char>>>,
) -> Seq<(Seq<char>, Seq<TableView>)>
    decreases values.len(),
{
    if values.len() == 0 {
        entries
    } else {
        filed(
            grouped(entries, table, column, allowed, values.drop_last()),
            table,
            column,
            allowed,
            values.last(),
        )
    }
}

/// `entries` after `table` was partitioned by the distinct values of its
/// category column, taken in the order of their first occurrence.
pub open spec fn partitioned(
    entries: Seq<(Seq<char>, Seq<TableView>)>,
    table: TableView,
    allowed: Seq<Seq<char>>,
) -> Seq<(Seq<char>, Seq<TableView>)> {
    let column = table.position_of(CATEGORY_COLUMN@);
    grouped(entries, table, column, allowed, distinct(table.column_cells(column)))
}

/// The rows of all `tables`, one table after the other.
pub open spec fn stacked_rows(tables: Seq<TableView>) -> Seq<Seq<Option<Seq<char>>>>
    decreases tables.len(),
{
    if tables.len() == 0 {
        Seq::empty()
    } else {
        stacked_rows(tables.drop_last()) + tables.last().rows
    }
}

/// The number of rows in all `tables` together.
pub open spec fn total_rows(tables: Seq<TableView>) -> nat
    decreases tables.len(),
{
    if tables.len() == 0 {
        0
    } else {
        total_rows(tables.drop_last()) + tables.last().rows.len()
    }
}

/// All `tables` have the header of the first.
pub open spec fn same_header(tables: Seq<TableView>) -> bool {
    forall|i: int| 0 <= i < tables.len() ==> (#[trigger] tables[i]).columns == tables[0].columns
}

/// The one table made of all `tables`: the shared header over the rows of
/// each table in turn.
pub open spec fn consolidated(tables: Seq<TableView>) -> TableView {
    TableView { columns: tables[0].columns, rows: stacked_rows(tables) }
}

/// The smaller of `n` and the largest `usize`.
pub open spec fn capped(n: nat) -> usize {
    if n <= usize::MAX {
        n as usize
    } else {
        usize::MAX
    }
}

/// The number of tables in all `entries` together.
pub open spec fn total_tables(entries: Seq<(Seq<char>, Seq<TableView>)>) -> nat
    decreases entries.len(),
{
    if entries.len() == 0 {
        0
    } else {
        total_tables(entries.drop_last()) + entries.last().1.len()
    }
}

/// The number of rows in all tables of all `entries` together.
pub open spec fn all_rows(entries: Seq<(Seq<char>, Seq<TableView>)>) -> nat
    decreases entries.len(),
{
    if entries.len() == 0 {
        0
    } else {
        all_rows(entries.drop_last()) + total_rows(entries.last().1)
    }
}

/// What is said when a source has no category column.
pub open spec fn missing_category_text(source: Seq<char>) -> Seq<char> {
    "Missing 'platform_name' column in file: "@ + source
}

/// What is said when nothing is filed under a key.
pub open spec fn no_data_text(platform: Seq<char>) -> Seq<char> {
    "No data found for platform: "@ + platform
}

/// What is said when the list filed under a key is empty.
pub open spec fn no_tables_text(platform: Seq<char>) -> Seq<char> {
    "No DataFrames available for platform: "@ + platform
}

/// What is said when the tables filed under a key do not share one header.
pub open spec fn mixed_headers_text(platform: Seq<char>) -> Seq<char> {
    "Tables of different headers collected for platform: "@ + platform
}

/// What a collector holds after a table was offered to it: a table without
/// rows, or without a row of an allowed category, changes nothing; otherwise
/// the allowed rows are partitioned by category.
pub open spec fn ingested(
    entries: Seq<(Seq<char>, Seq<TableView>)>,
    table: TableView,
    allowed: Seq<Seq<char>>,
) -> Seq<(Seq<char>, Seq<TableView>)> {
    if table.rows.len() == 0 {
        entries
    } else {
        partitioned(entries, table.restricted_to(CATEGORY_COLUMN@, allowed), allowed)
    }
}

/// `after` is what a collector holds, and `r` what it answers, once it was
/// offered `table`: a table with rows but without the category column is
/// refused and changes nothing; any other table is taken in.
pub open spec fn is_taken_in(
    before: CollectorView,
    table: TableView,
    source: Seq<char>,
    r: Result<(), CsvProcessingError>,
    after: CollectorView,
) -> bool {
    &&& after.allowed == before.allowed
    &&& if table.rows.len() > 0 && !table.columns.contains(CATEGORY_COLUMN@) {
        &&& r matches Err(CsvProcessingError::InvalidPath(m))
        &&& m@ == missing_category_text(source)
        &&& after == before
    } else {
        r is Ok && after.entries == ingested(before.entries, table, before.allowed)
    }
}

/// Every entry is filed under a well-formed category key, and no key is
/// filed twice.
pub open spec fn well_kept(entries: Seq<(Seq<char>, Seq<TableView>)>) -> bool {
    &&& distinct_keys(entries)
    &&& forall|i: int| 0 <= i < entries.len() ==> is_category_key((#[trigger] entries[i]).0)
}

/// The keys of `entries`, in order.
pub open spec fn keys_of(entries: Seq<(Seq<char>, Seq<TableView>)>) -> Seq<Seq<char>> {
    entries.map_values(|e: (Seq<char>, Seq<TableView>)| e.0)
}

/// The mathematical content of a collector.
pub struct CollectorView {
    /// Category keys in the order of their first use, each with the tables
    /// filed under it, oldest first.
    pub entries: Seq<(Seq<char>, Seq<TableView>)>,
    /// The categories that are let through.
    pub allowed: Seq<Seq<char>>,
}

/// The views of a list of tables.
pub open spec fn tables_view(tables: Seq<RecordSet>) -> Seq<TableView> {
    tables.map_values(|t: RecordSet| t@)
}

/// The views of a list of accumulator entries.
pub open spec fn entries_view(entries: Seq<(String, Vec<RecordSet>)>) -> Seq<
    (Seq<char>, Seq<TableView>),
> {
    entries.map_values(|e: (String, Vec<RecordSet>)| (e.0@, tables_view(e.1@)))
}

/// Accumulates tables per category key over the sources of one run.
///
/// The entries are kept as a list in the order in which their keys were
/// first used, each key once. A list of pairs is what Verus can reason
/// about here: of a map keyed by strings it knows too little to prove what
/// a lookup after an insert gives.
#[derive(Debug)]
pub struct PlatformDataCollector {
    platform_data: Vec<(String, Vec<RecordSet>)>,
    allowed_platforms: Vec<String>,
}

impl View for PlatformDataCollector {
    type V = CollectorView;

    closed spec fn view(&self) -> CollectorView {
        CollectorView {
            entries: entries_view(self.platform_data@),
            allowed: self.allowed_platforms.deep_view(),
        }
    }
}

impl PlatformDataCollector {
    #[verifier::type_invariant]
    spec fn entries_well_kept(self) -> bool {
        well_kept(entries_view(self.platform_data@))
    }

    /// A collector with no data that lets the given categories through.
    pub fn new(allowed_platforms: Vec<String>) -> (collector: Self)
        ensures
            collector@.entries.len() == 0,
            collector@.allowed == allowed_platforms.deep_view(),
    {
        PlatformDataCollector { platform_data: Vec::new(), allowed_platforms }
    }

    /// The categories that are let through.
    pub fn allowed_platforms(&self) -> (allowed: &Vec<String>)
        ensures
            allowed.deep_view() == self@.allowed,
    {
        &self.allowed_platforms
    }

    /// Normalizes a raw category value into its category key.
    pub fn sanitize_platform_name(&self, platform_name: &str) -> (key: String)
        ensures
            key@ == category_key(platform_name@),
            is_category_key(key@),
    {
        sanitize(platform_name)
    }

    fn find(&self, key: &str) -> (found: Option<usize>)
        ensures
            found is Some <==> has_key(self@.entries, key@),
            found matches Some(i) ==> i < self.platform_data.len() && i == position(
                self@.entries,
                key@,
            ) && self@.entries[i as int].0 == key@,
            self@.entries.len() == self.platform_data.len(),
            well_kept(self@.entries),
    {
        proof {
            use_type_invariant(self);
        }
        let wanted = String::from_str(key);
        let mut i: usize = 0;
        while i < self.platform_data.len()
            invariant
                i <= self.platform_data.len(),
                wanted@ == key@,
                well_kept(self@.entries),
                self@.entries.len() == self.platform_data.len(),
                forall|j: int| 0 <= j < i ==> (#[trigger] self@.entries[j]).0 != key@,
            decreases self.platform_data.len() - i,
        {
            if self.platform_data[i].0 == wanted {
                assert(self@.entries[i as int].0 == key@);
                return Some(i);
            }
            i += 1;
        }
        None
    }

    /// Number of category keys with data.
    pub fn platform_count(&self) -> (n: usize)
        ensures
            n == self@.entries.len(),
    {
        self.platform_data.len()
    }

    /// True when data is filed under `platform`.
    pub fn has_platform_data(&self, platform: &str) -> (present: bool)
        ensures
            present == has_key(self@.entries, platform@),
    {
        self.find(platform).is_some()
    }

    /// The tables filed under `platform`, oldest first.
    pub fn get_platform_data(&self, platform: &str) -> (tables: Option<&Vec<RecordSet>>)
        ensures
            tables is Some <==> has_key(self@.entries, platform@),
            tables matches Some(list) ==> tables_view(list@) == tables_of(self@.entries, platform@),
    {
        match self.find(platform) {
            Some(i) => Some(&self.platform_data[i].1),
            None => None,
        }
    }

    fn append_table(&mut self, key: String, table: RecordSet)
        requires
            is_category_key(key@),
        ensures
            final(self)@.entries == appended(old(self)@.entries, key@, table@),
            final(self)@.allowed == old(self)@.allowed,
    {
        let ghost before = self@.entries;
        let found = self.find(key.as_str());
        // The list is taken out while it grows and put back when it is whole
        // again, so that the collector holds a well-kept list at every moment.
        let mut data: Vec<(String, Vec<RecordSet>)> = Vec::new();
        core::mem::swap(&mut self.platform_data, &mut data);
        match found {
            Some(i) => {
                data[i].1.push(table);
                proof {
                    let after = entries_view(data@);
                    let want = before.update(i as int, (key@, before[i as int].1.push(table@)));
                    assert forall|k: int| 0 <= k < after.len() implies after[k] == want[k] by {}
                }
            },
            None => {
                let mut tables: Vec<RecordSet> = Vec::new();
                tables.push(table);
                data.push((key, tables));
                proof {
                    let after = entries_view(data@);
                    let want = before.push((key@, seq![table@]));
                    assert forall|k: int| 0 <= k < after.len() implies after[k] == want[k] by {}
                }
            },
        }
        core::mem::swap(&mut self.platform_data, &mut data);
    }

    /// The category keys with data, in the order of their first use.
    pub fn get_platforms(&self) -> (keys: Vec<String>)
        ensures
            keys.deep_view() == keys_of(self@.entries),
            well_kept(self@.entries),
    {
        proof {
            use_type_invariant(self);
        }
        let mut keys: Vec<String> = Vec::new();
        let mut i: usize = 0;
        while i < self.platform_data.len()
            invariant
                i <= self.platform_data.len(),
                keys.len() == i,
                forall|j: int| 0 <= j < i ==> (#[trigger] keys[j])@ == self@.entries[j].0,
            decreases self.platform_data.len() - i,
        {
            keys.push(self.platform_data[i].0.clone());
            i += 1;
        }
        keys
    }

    /// Number of tables over all category keys; the largest `usize` where
    /// the number does not fit.
    pub fn total_dataframe_count(&self) -> (n: usize)
        ensures
            n == capped(total_tables(self@.entries)),
    {
        let ghost entries = self@.entries;
        let mut n: usize = 0;
        let mut i: usize = 0;
        while i < self.platform_data.len()
            invariant
                i <= self.platform_data.len(),
                entries == self@.entries,
                n == capped(total_tables(entries.take(i as int))),
            decreases self.platform_data.len() - i,
        {
            proof {
                assert(entries.take(i + 1).drop_last() == entries.take(i as int));
            }
            n = n.saturating_add(self.platform_data[i].1.len());
            i += 1;
        }
        proof {
            assert(entries.take(self.platform_data.len() as int) == entries);
        }
        n
    }

    /// For each category key, in the order of their first use, the number of
    /// rows filed under it; the largest `usize` where a number does not fit.
    pub fn get_summary(&self) -> (summary: Vec<(String, usize)>)
        ensures
            summary.len() == self@.entries.len(),
            forall|i: int|
                0 <= i < summary.len() ==> (#[trigger] summary[i]).0@ == self@.entries[i].0
                    && summary[i].1 == capped(total_rows(self@.entries[i].1)),
    {
        let mut summary: Vec<(String, usize)> = Vec::new();
        let mut i: usize = 0;
        while i < self.platform_data.len()
            invariant
                i <= self.platform_data.len(),
                summary.len() == i,
                self@.entries.len() == self.platform_data.len(),
                forall|j: int|
                    0 <= j < i ==> (#[trigger] summary[j]).0@ == self@.entries[j].0 && summary[j].1
                        == capped(total_rows(self@.entries[j].1)),
            decreases self.platform_data.len() - i,
        {
            let tables = &self.platform_data[i].1;
            let ghost views = tables_view(tables@);
            let mut rows: usize = 0;
            let mut k: usize = 0;
            while k < tables.len()
                invariant
                    k <= tables.len(),
                    views == tables_view(tables@),
                    rows == capped(total_rows(views.take(k as int))),
                decreases tables.len() - k,
            {
                proof {
                    assert(views.take(k + 1).drop_last() == views.take(k as int));
                }
                rows = rows.saturating_add(tables[k].height());
                k += 1;
            }
            proof {
                assert(views.take(tables.len() as int) == views);
            }
            summary.push((self.platform_data[i].0.clone(), rows));
            i += 1;
        }
        summary
    }

    /// Merges the tables filed under `platform` into one table: the shared
    /// header over the rows of each table, in the order in which the tables
    /// came. An unknown key, an empty list and tables of different headers
    /// are errors.
    pub fn consolidate_platform_data(&self, platform: &str) -> (r: Result<
        RecordSet,
        CsvProcessingError,
    >)
        ensures
            !has_key(self@.entries, platform@) ==> (r matches Err(
                CsvProcessingError::InvalidPath(m),
            ) && m@ == no_data_text(platform@)),
            has_key(self@.entries, platform@) ==> ({
                let tables = tables_of(self@.entries, platform@);
                &&& tables.len() == 0 ==> (r matches Err(CsvProcessingError::EmptyDataFrame(m))
                    && m@ == no_tables_text(platform@))
                &&& tables.len() > 0 && !same_header(tables) ==> (r matches Err(
                    CsvProcessingError::SchemaMismatch(m),
                ) && m@ == mixed_headers_text(platform@))
                &&& tables.len() > 0 && same_header(tables) ==> (r matches Ok(t) && t@
                    == consolidated(tables) && t@.rectangular())
                &&& tables.len() == 1 ==> (r matches Ok(t) && t@ == tables[0])
            }),
    {
        let i = match self.find(platform) {
            Some(i) => i,
            None => {
                return Err(
                    CsvProcessingError::InvalidPath(
                        String::from_str("No data found for platform: ").concat(platform),
                    ),
                );
            },
        };
        let tables = &self.platform_data[i].1;
        let ghost views = tables_view(tables@);
        if tables.len() == 0 {
            return Err(
                CsvProcessingError::EmptyDataFrame(
                    String::from_str("No DataFrames available for platform: ").concat(platform),
                ),
            );
        }
        let mut merged = tables[0].clone();
        proof {
            lemma_single_table(views.take(1));
        }
        let mut k: usize = 1;
        while k < tables.len()
            invariant
                1 <= k <= tables.len(),
                views == tables_view(tables@),
                has_key(self@.entries, platform@),
                views == tables_of(self@.entries, platform@),
                same_header(views.take(k as int)),
                merged@ == consolidated(views.take(k as int)),
                merged@.rectangular(),
            decreases tables.len() - k,
        {
            proof {
                let next = views.take(k + 1);
                assert(next.drop_last() == views.take(k as int));
                assert(next.last() == tables[k as int]@);
            }
            match merged.vstack(&tables[k]) {
                Some(next) => {
                    merged = next;
                },
                None => {
                    return Err(
                        CsvProcessingError::SchemaMismatch(
                            String::from_str(
                                "Tables of different headers collected for platform: ",
                            ).concat(platform),
                        ),
                    );
                },
            }
            k += 1;
        }
        proof {
            assert(views.take(tables.len() as int) == views);
            if views.len() == 1 {
                lemma_single_table(views);
            }
        }
        Ok(merged)
    }

    /// Prepares the one write that publishes a category: the consolidated
    /// table, encoded, under the key made of the prefix and the category
    /// key, with the number of rows it holds.
    pub fn prepare_upload(&self, platform: &str, prefix: &str) -> (r: Result<
        UploadRequest,
        CsvProcessingError,
    >)
        ensures
            !has_key(self@.entries, platform@) ==> (r matches Err(
                CsvProcessingError::InvalidPath(m),
            ) && m@ == no_data_text(platform@)),
            has_key(self@.entries, platform@) ==> ({
                let tables = tables_of(self@.entries, platform@);
                &&& tables.len() == 0 ==> (r matches Err(CsvProcessingError::EmptyDataFrame(m))
                    && m@ == no_tables_text(platform@))
                &&& tables.len() > 0 && !same_header(tables) ==> (r matches Err(
                    CsvProcessingError::SchemaMismatch(m),
                ) && m@ == mixed_headers_text(platform@))
                &&& tables.len() > 0 && same_header(tables) ==> (match parquet_of(
                    consolidated(tables),
                ) {
                    Some(bytes) => (r matches Ok(request) && request.key@ == object_key(
                        prefix@,
                        platform@,
                    ) && request.body@ == bytes && request.row_count == total_rows(tables)),
                    None => (r matches Err(CsvProcessingError::ParquetWriteError(m))
                        && reports_encoding_failure(m@, platform@, total_rows(tables))),
                })
            }),
    {
        let merged = match self.consolidate_platform_data(platform) {
            Ok(merged) => merged,
            Err(e) => {
                return Err(e);
            },
        };
        proof {
            lemma_consolidated_row_count(tables_of(self@.entries, platform@));
        }
        let rows = merged.height() as u64;
        match write_parquet(&merged) {
            Ok(body) => Ok(UploadRequest { key: s3_key(prefix, platform), body, row_count: rows }),
            Err(cause) => Err(encoding_failed(platform, rows, cause.as_str())),
        }
    }

    /// Partitions `table` by the distinct values of its category column and
    /// files each part under the key of its category. Missing values and
    /// categories that are not allowed are passed over.
    pub fn group_dataframe_by_platform(&mut self, table: &RecordSet, source: &str) -> (r: Result<
        (),
        CsvProcessingError,
    >)
        ensures
            final(self)@.allowed == old(self)@.allowed,
            !table@.columns.contains(CATEGORY_COLUMN@) ==> (r matches Err(
                CsvProcessingError::PolarsError(m),
            ) && m@ == missing_column_text(source@) && final(self)@ == old(self)@),
            table@.columns.contains(CATEGORY_COLUMN@) ==> r is Ok && final(self)@.entries
                == partitioned(old(self)@.entries, table@, old(self)@.allowed),
    {
        let column = match table.column_index(CATEGORY_COLUMN) {
            Some(column) => column,
            None => {
                return Err(missing_column(source));
            },
        };
        let values = table.distinct_values(column);
        let ghost start = self@.entries;
        let ghost allowed = self@.allowed;
        let mut i: usize = 0;
        while i < values.len()
            invariant
                i <= values.len(),
                column < table@.columns.len(),
                self@.allowed == allowed,
                self@.entries == grouped(
                    start,
                    table@,
                    column as int,
                    allowed,
                    values.deep_view().take(i as int),
                ),
            decreases values.len() - i,
        {
            proof {
                assert(values.deep_view().take(i + 1).drop_last() == values.deep_view().take(
                    i as int,
                ));
            }
            match &values[i] {
                Some(raw) => {
                    if text_in(&self.allowed_platforms, raw) {
                        let part = table.filter_equal(column, raw);
                        if part.height() > 0 {
                            let key = sanitize(raw.as_str());
                            self.append_table(key, part);
                        }
                    }
                },
                None => {},
            }
            i += 1;
        }
        proof {
            assert(values.deep_view().take(values.len() as int) == values.deep_view());
        }
        Ok(())
    }

    /// Takes in the table of one source: keeps the rows of allowed
    /// categories and files them by category. A table without rows, or
    /// without a row that is allowed, is passed over; a table without the
    /// category column is refused.
    pub fn add_record_set(&mut self, table: &RecordSet, source: &str) -> (r: Result<
        (),
        CsvProcessingError,
    >)
        ensures
            is_taken_in(old(self)@, table@, source@, r, final(self)@),
    {
        if table.height() == 0 {
            return Ok(());
        }
        let kept = match filter_by_allow_list(table, &self.allowed_platforms) {
            Some(kept) => kept,
            None => {
                return Err(
                    CsvProcessingError::InvalidPath(
                        String::from_str("Missing 'platform_name' column in file: ").concat(source),
                    ),
                );
            },
        };
        if kept.height() == 0 {
            return Ok(());
        }
        self.group_dataframe_by_platform(&kept, source)
    }

    /// Reads one delimited source with a header line and takes in its table.
    ///
    /// Whether the text can be read is for the reader to say. Either it
    /// cannot, and nothing changes; or a table was read from it, and the
    /// call has done what [`Self::add_record_set`] does with that table.
    pub fn add_csv_data(&mut self, csv: &[u8], source: &str) -> (r: Result<(), CsvProcessingError>)
        ensures
            final(self)@.allowed == old(self)@.allowed,
            (r matches Err(CsvProcessingError::PolarsError(_)) && final(self)@ == old(self)@) || (
            exists|table: TableView|
                table.rectangular() && #[trigger] is_taken_in(
                    old(self)@,
                    table,
                    source@,
                    r,
                    final(self)@,
                )),
    {
        match read_record_set(csv) {
            Err(cause) => Err(CsvProcessingError::PolarsError(cause)),
            Ok(table) => {
                let r = self.add_record_set(&table, source);
                assert(table@.rectangular() && is_taken_in(
                    old(self)@,
                    table@,
                    source@,
                    r,
                    self@,
                ));
                r
            },
        }
    }
}

/// Filing a table under a key adds it behind the tables of that key and
/// leaves every other key as it was.
pub proof fn lemma_appended_tables(
    entries: Seq<(Seq<char>, Seq<TableView>)>,
    key: Seq<char>,
    table: TableView,
    other: Seq<char>,
)
    requires
        distinct_keys(entries),
    ensures
        distinct_keys(appended(entries, key, table)),
        has_key(appended(entries, key, table), other) == (other == key || has_key(entries, other)),
        tables_of(appended(entries, key, table), other) == (if other == key {
            tables_of(entries, key).push(table)
        } else {
            tables_of(entries, other)
        }),
{
    let after = appended(entries, key, table);
    if !has_key(entries, key) {
        assert(after[entries.len() as int].0 == key);
    }
    if has_key(entries, other) {
        assert(after[position(entries, other)].0 == other);
    }
}

/// The collector only ever appends: whatever is filed for the values of a
/// table, the tables that a key held before are still there, in front and in
/// their order.
pub proof fn lemma_grouped_only_appends(
    entries: Seq<(Seq<char>, Seq<TableView>)>,
    table: TableView,
    column: int,
    allowed: Seq<Seq<char>>,
    values: Seq<Option<Seq<char>>>,
    key: Seq<char>,
)
    requires
        distinct_keys(entries),
    ensures
        distinct_keys(grouped(entries, table, column, allowed, values)),
        tables_of(entries, key).is_prefix_of(
            tables_of(grouped(entries, table, column, allowed, values), key),
        ),
    decreases values.len(),
{
    if values.len() > 0 {
        let earlier = grouped(entries, table, column, allowed, values.drop_last());
        lemma_grouped_only_appends(entries, table, column, allowed, values.drop_last(), key);
        match values.last() {
            Some(raw) => {
                let rows = matching_rows(table.rows, column, raw);
                lemma_appended_tables(
                    earlier,
                    category_key(raw),
                    TableView { columns: table.columns, rows },
                    key,
                );
            },
            None => {},
        }
    }
}

/// The number of rows that are filed for one value of the category column.
spec fn weight(
    rows: Seq<Seq<Option<Seq<char>>>>,
    column: int,
    allowed: Seq<Seq<char>>,
    value: Option<Seq<char>>,
) -> nat {
    match value {
        Some(raw) => if allowed.contains(raw) {
            matching_rows(rows, column, raw).len()
        } else {
            0
        },
        None => 0,
    }
}

/// The number of rows that are filed for all of `values` together.
spec fn filed_count(
    rows: Seq<Seq<Option<Seq<char>>>>,
    column: int,
    allowed: Seq<Seq<char>>,
    values: Seq<Option<Seq<char>>>,
) -> nat
    decreases values.len(),
{
    if values.len() == 0 {
        0
    } else {
        filed_count(rows, column, allowed, values.drop_last()) + weight(
            rows,
            column,
            allowed,
            values.last(),
        )
    }
}

/// The cells of one column of `rows`, top to bottom.
spec fn cells_of(rows: Seq<Seq<Option<Seq<char>>>>, column: int) -> Seq<Option<Seq<char>>> {
    Seq::new(rows.len(), |i: int| rows[i][column])
}

proof fn lemma_all_rows_replaced(
    entries: Seq<(Seq<char>, Seq<TableView>)>,
    i: int,
    entry: (Seq<char>, Seq<TableView>),
)
    requires
        0 <= i < entries.len(),
    ensures
        all_rows(entries.update(i, entry)) + total_rows(entries[i].1) == all_rows(entries)
            + total_rows(entry.1),
    decreases entries.len(),
{
    let after = entries.update(i, entry);
    if i == entries.len() - 1 {
        assert(after.drop_last() == entries.drop_last());
    } else {
        assert(after.drop_last() == entries.drop_last().update(i, entry));
        lemma_all_rows_replaced(entries.drop_last(), i, entry);
    }
}

proof fn lemma_all_rows_appended(
    entries: Seq<(Seq<char>, Seq<TableView>)>,
    key: Seq<char>,
    table: TableView,
)
    ensures
        all_rows(appended(entries, key, table)) == all_rows(entries) + table.rows.len(),
{
    if has_key(entries, key) {
        let i = position(entries, key);
        let tables = entries[i].1;
        assert(tables.push(table).drop_last() == tables);
        lemma_all_rows_replaced(entries, i, (key, tables.push(table)));
    } else {
        let entry = (key, seq![table]);
        assert(entries.push(entry).drop_last() == entries);
        assert(seq![table].drop_last() == Seq::<TableView>::empty());
        assert(total_rows(Seq::<TableView>::empty()) == 0);
    }
}

proof fn lemma_all_rows_grouped(
    entries: Seq<(Seq<char>, Seq<TableView>)>,
    table: TableView,
    column: int,
    allowed: Seq<Seq<char>>,
    values: Seq<Option<Seq<char>>>,
)
    ensures
        all_rows(grouped(entries, table, column, allowed, values)) == all_rows(entries)
            + filed_count(table.rows, column, allowed, values),
    decreases values.len(),
{
    if values.len() > 0 {
        let earlier = grouped(entries, table, column, allowed, values.drop_last());
        lemma_all_rows_grouped(entries, table, column, allowed, values.drop_last());
        match values.last() {
            Some(raw) => {
                let rows = matching_rows(table.rows, column, raw);
                lemma_all_rows_appended(
                    earlier,
                    category_key(raw),
                    TableView { columns: table.columns, rows },
                );
            },
            None => {},
        }
    }
}

/// One more row changes the count for a value by one if the row has that
/// value in the column, and not at all otherwise.
proof fn lemma_weight_of_longer(
    rows: Seq<Seq<Option<Seq<char>>>>,
    column: int,
    allowed: Seq<Seq<char>>,
    value: Option<Seq<char>>,
)
    requires
        rows.len() > 0,
    ensures
        weight(rows, column, allowed, value) == weight(rows.drop_last(), column, allowed, value)
            + (if value == rows.last()[column] && is_member(allowed, value) {
            1nat
        } else {
            0nat
        }),
{
    match value {
        Some(raw) => {
            assert(rows == rows.drop_last().push(rows.last()));
            rows.drop_last().lemma_filter_push(rows.last(), equal_pred(column, raw));
        },
        None => {},
    }
}

proof fn lemma_count_without_value(
    rows: Seq<Seq<Option<Seq<char>>>>,
    column: int,
    allowed: Seq<Seq<char>>,
    values: Seq<Option<Seq<char>>>,
)
    requires
        rows.len() > 0,
        !values.contains(rows.last()[column]),
    ensures
        filed_count(rows, column, allowed, values) == filed_count(
            rows.drop_last(),
            column,
            allowed,
            values,
        ),
    decreases values.len(),
{
    if values.len() > 0 {
        lemma_count_without_value(rows, column, allowed, values.drop_last());
        lemma_weight_of_longer(rows, column, allowed, values.last());
    }
}

proof fn lemma_count_with_value(
    rows: Seq<Seq<Option<Seq<char>>>>,
    column: int,
    allowed: Seq<Seq<char>>,
    values: Seq<Option<Seq<char>>>,
)
    requires
        rows.len() > 0,
        values.no_duplicates(),
        values.contains(rows.last()[column]),
    ensures
        filed_count(rows, column, allowed, values) == filed_count(
            rows.drop_last(),
            column,
            allowed,
            values,
        ) + (if is_member(allowed, rows.last()[column]) {
            1nat
        } else {
            0nat
        }),
    decreases values.len(),
{
    let cell = rows.last()[column];
    let front = values.drop_last();
    lemma_weight_of_longer(rows, column, allowed, values.last());
    if values.last() == cell {
        // The value stands once among the values: not before its last place.
        lemma_count_without_value(rows, column, allowed, front);
    } else {
        assert(front.contains(cell)) by {
            let k = choose|k: int| 0 <= k < values.len() && values[k] == cell;
            assert(front[k] == cell);
        }
        lemma_count_with_value(rows, column, allowed, front);
    }
}

/// The distinct values of a column are those that occur in it, each once.
proof fn lemma_distinct_values(cells: Seq<Option<Seq<char>>>)
    ensures
        distinct(cells).no_duplicates(),
        forall|v: Option<Seq<char>>|
            #[trigger] distinct(cells).contains(v) <==> cells.contains(v),
    decreases cells.len(),
{
    if cells.len() > 0 {
        let front = cells.drop_last();
        let earlier = distinct(front);
        let now = distinct(cells);
        lemma_distinct_values(front);
        assert(forall|j: int| 0 <= j < earlier.len() ==> now[j] == earlier[j]);
        assert forall|v: Option<Seq<char>>| #[trigger] now.contains(v) <==> cells.contains(v) by {
            if cells.contains(v) {
                let k = choose|k: int| 0 <= k < cells.len() && cells[k] == v;
                if k < front.len() {
                    assert(front[k] == v);
                    assert(earlier.contains(v));
                } else if !earlier.contains(v) {
                    assert(now[earlier.len() as int] == v);
                }
            }
            if now.contains(v) {
                let j = choose|j: int| 0 <= j < now.len() && now[j] == v;
                if j < earlier.len() {
                    assert(earlier.contains(v));
                }
            }
        }
    }
}

/// No row is filed for a value that stands in no row.
proof fn lemma_absent_value_has_no_rows(
    rows: Seq<Seq<Option<Seq<char>>>>,
    column: int,
    raw: Seq<char>,
)
    requires
        !cells_of(rows, column).contains(Some(raw)),
    ensures
        matching_rows(rows, column, raw).len() == 0,
    decreases rows.len(),
{
    reveal(Seq::filter);
    if rows.len() > 0 {
        let head = rows.drop_last();
        assert(cells_of(rows, column)[rows.len() - 1] == rows.last()[column]);
        assert forall|k: int| 0 <= k < head.len() implies cells_of(head, column)[k] != Some(
            raw,
        ) by {
            assert(cells_of(rows, column)[k] == rows[k][column]);
        }
        lemma_absent_value_has_no_rows(head, column, raw);
    }
}

proof fn lemma_count_of_distinct(
    rows: Seq<Seq<Option<Seq<char>>>>,
    column: int,
    allowed: Seq<Seq<char>>,
)
    ensures
        filed_count(rows, column, allowed, distinct(cells_of(rows, column))) == count_allowed(
            rows,
            column,
            allowed,
        ),
    decreases rows.len(),
{
    let cells = cells_of(rows, column);
    if rows.len() > 0 {
        let head = rows.drop_last();
        let cell = rows.last()[column];
        let earlier = distinct(cells_of(head, column));
        assert(cells.drop_last() == cells_of(head, column));
        lemma_count_of_distinct(head, column, allowed);
        lemma_distinct_values(cells_of(head, column));
        if earlier.contains(cell) {
            lemma_count_with_value(rows, column, allowed, earlier);
        } else {
            assert(earlier.push(cell).drop_last() == earlier);
            lemma_count_without_value(rows, column, allowed, earlier);
            lemma_weight_of_longer(rows, column, allowed, cell);
            match cell {
                Some(raw) => {
                    lemma_absent_value_has_no_rows(head, column, raw);
                },
                None => {},
            }
        }
    }
}

/// Among rows that passed the filter, every row counts as allowed.
proof fn lemma_filtered_rows_all_count(
    rows: Seq<Seq<Option<Seq<char>>>>,
    column: int,
    allowed: Seq<Seq<char>>,
)
    ensures
        count_allowed(allowed_rows(rows, column, allowed), column, allowed) == count_allowed(
            rows,
            column,
            allowed,
        ),
    decreases rows.len(),
{
    reveal(Seq::filter);
    if rows.len() > 0 {
        let head = rows.drop_last();
        lemma_filtered_rows_all_count(head, column, allowed);
        if is_member(allowed, rows.last()[column]) {
            let kept = allowed_rows(rows, column, allowed);
            assert(kept.drop_last() == allowed_rows(head, column, allowed));
        }
    }
}

/// Every row with an allowed category is filed exactly once: after a table
/// was taken in, the collector holds as many rows more as the table has rows
/// whose category is allowed.
pub proof fn lemma_allowed_rows_are_filed_once(
    entries: Seq<(Seq<char>, Seq<TableView>)>,
    table: TableView,
    allowed: Seq<Seq<char>>,
)
    requires
        table.columns.contains(CATEGORY_COLUMN@),
    ensures
        all_rows(ingested(entries, table, allowed)) == all_rows(entries) + count_allowed(
            table.rows,
            table.position_of(CATEGORY_COLUMN@),
            allowed,
        ),
{
    let column = table.position_of(CATEGORY_COLUMN@);
    if table.rows.len() > 0 {
        let kept = table.restricted_to(CATEGORY_COLUMN@, allowed);
        assert(kept.position_of(CATEGORY_COLUMN@) == column) by {
            table.lemma_position_is_first(CATEGORY_COLUMN@);
            kept.lemma_position_is_first(CATEGORY_COLUMN@);
        }
        lemma_all_rows_grouped(entries, kept, column, allowed, distinct(kept.column_cells(column)));
        lemma_count_of_distinct(kept.rows, column, allowed);
        lemma_filtered_rows_all_count(table.rows, column, allowed);
    }
}

/// Consolidating a single table yields that table: same header, same
/// rows, same order.
pub proof fn lemma_single_table(tables: Seq<TableView>)
    requires
        tables.len() == 1,
    ensures
        same_header(tables),
        consolidated(tables) == tables[0],
{
    assert(stacked_rows(tables.drop_last()) =~= Seq::empty());
}

/// The consolidated table has as many rows as all its sources together.
pub proof fn lemma_consolidated_row_count(tables: Seq<TableView>)
    ensures
        consolidated(tables).rows.len() == total_rows(tables),
    decreases tables.len(),
{
    if tables.len() > 0 {
        lemma_consolidated_row_count(tables.drop_last());
    }
}

/// The rows of each source stand in the consolidated table as one block, in
/// their own order, behind the blocks of all earlier sources.
pub proof fn lemma_consolidated_blocks(tables: Seq<TableView>, k: int, i: int)
    requires
        0 <= k < tables.len(),
        0 <= i < tables[k].rows.len(),
    ensures
        total_rows(tables.take(k)) + i < consolidated(tables).rows.len(),
        consolidated(tables).rows[total_rows(tables.take(k)) + i] == tables[k].rows[i],
    decreases tables.len(),
{
    let head = tables.drop_last();
    lemma_consolidated_row_count(head);
    if k < tables.len() - 1 {
        assert(head.take(k) == tables.take(k));
        lemma_consolidated_blocks(head, k, i);
    }
}

} // verus!
