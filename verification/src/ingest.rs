//! The ingest and query service: the records of a request become partitions, partitions become
//! segments, and searches are planned over the catalog.

use crate::consts::{PARQUET_EXT, SCHEMA_EXT};
use crate::error::{ErrorKind, MeltError};
use crate::exec::{Query, QueryBounds};
use crate::fusion::arrow::Batch;
use crate::fusion::compute::{greatest, is_max, is_min, least, min_max};
use crate::fusion::parquet::{parquet_file, write_recordbatch, Compression, WriterSettings};
use crate::fusion::recordbatch::{
    all_json_rows, arrow_schema_of, decoded_batch, has_shape, json_to_recordbatch,
    recordbatch_to_jsons, rounded_up_to_64,
};
use crate::fusion::schema::{all_records, infer_schema, observations, schema_of};
use crate::id_gen::{id_text, write_decimal, IdGenerator, IdGeneratorView};
use crate::meta::{
    file_views, in_range, no_tables, table_files, FileMeta, FileMetaView, MetaService,
};
use crate::query::parser::{query_failure, spec_query};
use crate::schema::schema_json;
use crate::storage::Storage;
use crate::utils::json::{
    json_values, json_views, lemma_view_of_object, ndjson_values, parse_json, parse_lines,
    serde_forms, Json, JsonView,
};
use crate::utils::text::{join3, join5, same_text};
use crate::utils::time::now_micros;
use vstd::prelude::*;

pub mod partition;

pub use partition::{
    checked_partition_key, is_partitioned, is_stamped, partition_key, partition_key_of,
    partition_records_at, partition_stamped, partition_views, partitionable, request_partitions,
    shares_key, stamp_record, stamped, stamps_match, stamps_match_records, Partition,
    PartitionView,
};

verus! {

/// The files of one segment, ready to be stored, and the descriptor to add to the catalog once
/// they are.
#[derive(Debug)]
pub struct SegmentFiles {
    /// The directory of the partition, below the storage root.
    pub dir: String,
    pub parquet_path: String,
    pub parquet: Vec<u8>,
    pub schema_path: String,
    pub schema: Vec<u8>,
    pub meta: FileMeta,
}

/// What a search has to run: the filter, and the segment files in the order of the catalog.
#[derive(Debug)]
pub struct Search {
    pub query: Query,
    pub files: Vec<String>,
}

/// The answer to a search.
#[derive(Debug)]
pub struct Response {
    pub hits: Vec<Json>,
}

/// `table/partition`
pub open spec fn partition_dir(table: Seq<char>, partition: Seq<char>) -> Seq<char> {
    table + "/"@ + partition
}

/// `partition/name.ext`
pub open spec fn file_in(partition: Seq<char>, name: Seq<char>, ext: Seq<char>) -> Seq<char> {
    partition + "/"@ + name + "."@ + ext
}

/// The path of a segment file below `root`.
pub open spec fn segment_path(root: Seq<char>, table: Seq<char>, f: FileMetaView) -> Seq<char> {
    root + "/"@ + file_in(partition_dir(table, f.partition), f.segment, PARQUET_EXT@)
}

pub open spec fn segment_paths(
    root: Seq<char>,
    table: Seq<char>,
    files: Seq<FileMetaView>,
) -> Seq<Seq<char>> {
    Seq::new(files.len(), |i: int| segment_path(root, table, files[i]))
}

pub open spec fn text_views(texts: Seq<String>) -> Seq<Seq<char>> {
    Seq::new(texts.len(), |i: int| texts[i]@)
}

/// An object without members.
pub open spec fn is_empty_object(v: JsonView) -> bool {
    v matches JsonView::Object(m) && m.len() == 0
}

/// Whether the least and the greatest timestamp of a partition lie in the hour that its key
/// names.
pub open spec fn spans_its_hour(partition: PartitionView) -> bool {
    &&& partitionable(least(partition.stamps))
    &&& partitionable(greatest(partition.stamps))
    &&& partition_key(least(partition.stamps)) == partition.key
    &&& partition_key(greatest(partition.stamps)) == partition.key
}

/// The segment that a partition gives under the id `id`: its two files, and its span from the
/// least to the greatest timestamp. `None` where its records have no schema, where its
/// timestamps are not those that its records carry, where there is no record, where the span
/// does not lie in the hour of its key, and where the batch or one of the two files cannot be
/// made.
pub open spec fn segment_of(
    table: Seq<char>,
    partition: PartitionView,
    id: Seq<char>,
) -> Option<SegmentView> {
    let fields = schema_of(observations(partition.records));
    let schema = arrow_schema_of(fields);
    let settings = WriterSettings { compression: Compression::Snappy, dictionary_enabled: false };
    let dir = partition_dir(table, partition.key);
    if !all_records(partition.records) || !stamps_match(partition) || partition.stamps.len() == 0
        || !spans_its_hour(partition) || rounded_up_to_64(partition.records.len() as int)
        > usize::MAX {
        None
    } else {
        match decoded_batch(schema, serde_forms(partition.records)) {
            Some(Some(batch)) => match (
                parquet_file(settings, batch),
                schema_json(fields),
            ) {
                (Some(parquet), Some(schema_text)) => if has_shape(
                    batch,
                    fields.len() as int,
                    partition.records.len() as int,
                ) {
                    Some(
                        SegmentView {
                            dir,
                            parquet_path: file_in(dir, id, PARQUET_EXT@),
                            parquet,
                            schema_path: file_in(dir, id, SCHEMA_EXT@),
                            schema: schema_text,
                            partition: partition.key,
                            segment: id,
                            min_timestamp: least(partition.stamps) as int,
                            max_timestamp: greatest(partition.stamps) as int,
                        },
                    )
                } else {
                    None
                },
                _ => None,
            },
            _ => None,
        }
    }
}

/// The files of a segment as mathematics sees them.
pub struct SegmentView {
    pub dir: Seq<char>,
    pub parquet_path: Seq<char>,
    pub parquet: Seq<u8>,
    pub schema_path: Seq<char>,
    pub schema: Seq<u8>,
    pub partition: Seq<char>,
    pub segment: Seq<char>,
    pub min_timestamp: int,
    pub max_timestamp: int,
}

impl View for SegmentFiles {
    type V = SegmentView;

    open spec fn view(&self) -> SegmentView {
        SegmentView {
            dir: self.dir@,
            parquet_path: self.parquet_path@,
            parquet: self.parquet@,
            schema_path: self.schema_path@,
            schema: self.schema@,
            partition: self.meta@.partition,
            segment: self.meta@.segment,
            min_timestamp: self.meta@.min_timestamp,
            max_timestamp: self.meta@.max_timestamp,
        }
    }
}

/// What making the segment of a partition does, from the service `before` to the service
/// `after`. The catalog and the root stay. Where the segment is made, the next id is taken, the
/// files are those of `segment_of`, and the descriptor spans the timestamps of the partition
/// from the least to the greatest. Where it is not made, nothing changes: the error is
/// `BadInput` where a record is no flat object and `Internal` otherwise, and either the ids are
/// used up or `segment_of` gives no segment.
pub open spec fn is_written(
    before: IngestServiceView,
    after: IngestServiceView,
    table: Seq<char>,
    partition: PartitionView,
    r: Result<SegmentFiles, MeltError>,
) -> bool {
    let id = id_text(before.ids.prefix, before.ids.next);
    &&& after.catalog == before.catalog
    &&& after.root == before.root
    &&& after.ids.prefix == before.ids.prefix
    &&& match r {
        Ok(files) => {
            &&& before.ids.next < u64::MAX
            &&& after.ids.next == before.ids.next + 1
            &&& segment_of(table, partition, id) == Some(files@)
            &&& is_min(partition.stamps, files.meta@.min_timestamp as i64)
            &&& is_max(partition.stamps, files.meta@.max_timestamp as i64)
            &&& i64::MIN <= files.meta@.min_timestamp <= files.meta@.max_timestamp <= i64::MAX
            &&& forall|m: u64|
                m != before.ids.next ==> id_text(before.ids.prefix, m) != files@.segment
        },
        Err(e) => {
            &&& after == before
            &&& e.kind == (if all_records(partition.records) {
                ErrorKind::Internal
            } else {
                ErrorKind::BadInput
            })
            &&& before.ids.next == u64::MAX || segment_of(table, partition, id) is None
        },
    }
}

/// The ingest and query service: the catalog, the storage root and the source of segment ids.
pub struct IngestService {
    meta: MetaService,
    storage: Storage,
    ids: IdGenerator,
}

/// The service as mathematics sees it.
pub struct IngestServiceView {
    pub catalog: Map<Seq<char>, Seq<FileMetaView>>,
    pub root: Seq<char>,
    pub ids: IdGeneratorView,
}

impl View for IngestService {
    type V = IngestServiceView;

    closed spec fn view(&self) -> IngestServiceView {
        IngestServiceView { catalog: self.meta@, root: self.storage@, ids: self.ids@ }
    }
}

impl IngestService {
    /// A service with an empty catalog. Its segment ids begin with `segment` and the reading
    /// of the clock, so that two services do not give the same ids unless they were made in
    /// the same microsecond.
    pub fn new(storage: Storage) -> (s: IngestService)
        ensures
            s@.catalog == no_tables(),
            s@.root == storage@,
            s@.ids.next == 0,
    {
        let now = now_micros();
        let made: u64 = if now >= 0 {
            now as u64
        } else {
            0
        };
        let mut prefix = String::from_str("segment");
        write_decimal(made, &mut prefix);
        IngestService { meta: MetaService::new(), storage, ids: IdGenerator::new(prefix.as_str()) }
    }

    /// A service with an empty catalog, whose segment ids begin with `prefix`.
    pub fn with_id_prefix(storage: Storage, prefix: &str) -> (s: IngestService)
        ensures
            s@ == (IngestServiceView {
                catalog: no_tables(),
                root: storage@,
                ids: IdGeneratorView { prefix: prefix@, next: 0 },
            }),
    {
        IngestService { meta: MetaService::new(), storage, ids: IdGenerator::new(prefix) }
    }

    pub fn meta(&self) -> (m: &MetaService)
        ensures
            m@ == self@.catalog,
    {
        &self.meta
    }

    pub fn storage(&self) -> (s: &Storage)
        ensures
            s@ == self@.root,
    {
        &self.storage
    }

    /// The directory of a partition of a table, below the storage root.
    pub fn partition_path(&self, table_name: &str, partition: &str) -> (path: String)
        ensures
            path@ == partition_dir(table_name@, partition@),
    {
        join3(table_name, "/", partition)
    }

    /// Stamps a record: reads its timestamp, or the clock where it has none, and puts the
    /// number of microseconds into its field `timestamp`.
    pub fn process_bulk_item(&self, val: Json) -> (r: Result<(i64, Json), MeltError>)
        ensures
            exists|now: i64| is_stamped(stamped(val@, now), r),
    {
        let now = now_micros();
        let r = stamp_record(val, now);
        proof {
            assert(is_stamped(stamped(val@, now), r));
        }
        r
    }

    pub fn parquet_file_path(&self, partition: &str, name: &str) -> (path: String)
        ensures
            path@ == file_in(partition@, name@, PARQUET_EXT@),
    {
        join5(partition, "/", name, ".", PARQUET_EXT)
    }

    pub fn schema_file_path(&self, partition: &str, name: &str) -> (path: String)
        ensures
            path@ == file_in(partition@, name@, SCHEMA_EXT@),
    {
        join5(partition, "/", name, ".", SCHEMA_EXT)
    }

    /// The partition of a timestamp in microseconds: its hour in UTC.
    pub fn get_partition_key(&self, stamp: i64) -> (key: String)
        requires
            partitionable(stamp),
        ensures
            key@ == partition_key(stamp),
    {
        partition_key_of(stamp)
    }

    /// Stamps the records of one request and sorts them into partitions. The clock is read
    /// once; its reading stands in for every timestamp that is missing.
    pub fn partition_records(&self, records: Vec<Json>) -> (r: Result<Vec<Partition>, MeltError>)
        ensures
            exists|now: i64| is_partitioned(request_partitions(json_views(records@), now), r),
    {
        let now = now_micros();
        let r = partition_records_at(records, now);
        proof {
            assert(is_partitioned(request_partitions(json_views(records@), now), r));
        }
        r
    }

    /// The partitions of a body that holds one record on each line. Each is to be written
    /// with `write_partition`, stored, and added to the catalog, one after the other.
    pub fn bulk(&self, body: &[u8]) -> (r: Result<Vec<Partition>, MeltError>)
        ensures
            match ndjson_values(body@) {
                Ok(records) => exists|now: i64|
                    is_partitioned(request_partitions(records, now), r),
                Err(message) => r matches Err(e) && e.kind == ErrorKind::BadInput && e.message@
                    == message,
            },
    {
        match parse_lines(body) {
            Ok(records) => self.partition_records(records),
            Err(e) => Err(e),
        }
    }

    /// The partitions of a body that holds one record, or an array of records.
    pub fn ingest(&self, body: &[u8]) -> (r: Result<Vec<Partition>, MeltError>)
        ensures
            match json_values(body@) {
                Ok(records) => exists|now: i64|
                    is_partitioned(request_partitions(records, now), r),
                Err(message) => r matches Err(e) && e.kind == ErrorKind::BadInput && e.message@
                    == message,
            },
    {
        match parse_json(body) {
            Ok(records) => self.partition_records(records),
            Err(e) => Err(e),
        }
    }

    /// Makes the segment of one partition: infers the schema of its records, builds the batch,
    /// encodes the segment file and the schema file, and takes a fresh segment id. The
    /// descriptor spans the timestamps of the partition, which must be those that its records
    /// carry. Nothing is stored and the catalog is left as it is: the caller stores the two
    /// files and then calls `add_file`.
    pub fn write_partition(&mut self, table_name: &str, partition: &Partition) -> (r: Result<
        SegmentFiles,
        MeltError,
    >)
        ensures
            is_written(old(self)@, final(self)@, table_name@, partition@, r),
    {
        let schema = match infer_schema(partition.records.as_slice()) {
            Ok(schema) => schema,
            Err(e) => { return Err(e); },
        };
        if !stamps_match_records(partition) {
            return Err(
                MeltError::internal("the timestamps of the partition are not those of its records"),
            );
        }
        let (min_ts, max_ts) = match min_max(&partition.stamps) {
            Some(span) => span,
            None => { return Err(MeltError::internal("no record to make a segment of")); },
        };
        let in_hour = match (checked_partition_key(min_ts), checked_partition_key(max_ts)) {
            (Some(first), Some(last)) => same_text(first.as_str(), partition.key.as_str())
                && same_text(last.as_str(), partition.key.as_str()),
            _ => false,
        };
        if !in_hour {
            return Err(MeltError::internal("the span of the partition does not lie in its hour"));
        }
        let batch = match json_to_recordbatch(&schema, partition.records.as_slice()) {
            Ok(batch) => batch,
            Err(e) => { return Err(e); },
        };
        let parquet = match write_recordbatch(&batch) {
            Ok(datas) => datas,
            Err(e) => { return Err(e); },
        };
        let schema_text = match schema.serialize() {
            Ok(datas) => datas,
            Err(e) => { return Err(e); },
        };
        let segment_id = match self.ids.gen_id() {
            Ok(id) => id,
            Err(e) => { return Err(e); },
        };
        let dir = self.partition_path(table_name, partition.key.as_str());
        let parquet_path = self.parquet_file_path(dir.as_str(), segment_id.as_str());
        let schema_path = self.schema_file_path(dir.as_str(), segment_id.as_str());
        let ghost id = segment_id@;
        let meta = FileMeta::new(partition.key.clone(), segment_id, min_ts, max_ts);
        let files = SegmentFiles {
            dir,
            parquet_path,
            parquet,
            schema_path,
            schema: schema_text,
            meta,
        };
        proof {
            let records = partition@.records;
            assert(records.len() == partition.records@.len());
            assert(partition@.stamps.len() > 0);
            assert(all_records(records));
            assert(rounded_up_to_64(records.len() as int) <= usize::MAX);
            let expected = segment_of(table_name@, partition@, id);
            assert(expected is Some);
            assert(expected->0.dir == files@.dir);
            assert(expected->0.parquet_path == files@.parquet_path);
            assert(expected->0.schema_path == files@.schema_path);
            assert(expected->0.parquet == files@.parquet);
            assert(expected->0.schema == files@.schema);
            assert(expected->0.partition == files@.partition);
            assert(expected->0.segment == files@.segment);
            assert(expected->0.min_timestamp == files@.min_timestamp);
            assert(expected->0.max_timestamp == files@.max_timestamp);
            let at_max = choose|k: int|
                0 <= k < partition@.stamps.len() && partition@.stamps[k] == max_ts;
            assert(min_ts <= partition@.stamps[at_max]);
        }
        Ok(files)
    }

    /// Appends the descriptor of a stored segment to the catalog.
    pub fn add_file(&mut self, table_name: &str, file: FileMeta)
        ensures
            final(self)@ == (IngestServiceView {
                catalog: old(self)@.catalog.insert(
                    table_name@,
                    table_files(old(self)@.catalog, table_name@).push(file@),
                ),
                ..old(self)@
            }),
    {
        self.meta.add_file(table_name, file);
    }

    /// What a search has to run: the parsed query with its bounds, and the paths of the
    /// segments of the table that are in range, in the order of the catalog.
    pub fn query_(&self, table_name: &str, s: &str, min_ts: Option<i64>, max_ts: Option<i64>) -> (r:
        Result<Search, MeltError>)
        ensures
            match spec_query(s@) {
                Some(tree) => r matches Ok(search) && search.query@ == (QueryBounds {
                    expr: tree,
                    min_ts,
                    max_ts,
                }) && text_views(search.files@) == segment_paths(
                    self@.root,
                    table_name@,
                    table_files(self@.catalog, table_name@).filter(
                        |f: FileMetaView| in_range(f, min_ts, max_ts),
                    ),
                ),
                None => r matches Err(e) && e.kind == ErrorKind::UnparseableQuery && e.message@
                    == query_failure(s@),
            },
    {
        let found = self.meta.query_files(table_name, min_ts, max_ts);
        let ghost wanted = file_views(found@);
        let mut files: Vec<String> = Vec::new();
        let mut i: usize = 0;
        while i < found.len()
            invariant
                i <= found.len(),
                wanted == file_views(found@),
                text_views(files@) == segment_paths(self@.root, table_name@, wanted).take(i as int),
            decreases found.len() - i,
        {
            let dir = self.partition_path(table_name, found[i].partition());
            let file = self.parquet_file_path(dir.as_str(), found[i].segment());
            let path = self.storage.path_of(file.as_str());
            let ghost listed = text_views(files@);
            proof {
                assert(wanted[i as int] == found@[i as int]@);
                assert(path@ == segment_path(self@.root, table_name@, wanted[i as int]));
            }
            files.push(path);
            proof {
                assert(text_views(files@) =~= listed.push(path@));
                assert(text_views(files@) =~= segment_paths(self@.root, table_name@, wanted).take(
                    i as int + 1,
                ));
            }
            i = i + 1;
        }
        proof {
            assert(segment_paths(self@.root, table_name@, wanted).take(i as int) =~= segment_paths(
                self@.root,
                table_name@,
                wanted,
            ));
        }
        match Query::from_str(s, min_ts, max_ts) {
            Ok(query) => Ok(Search { query, files }),
            Err(e) => Err(e),
        }
    }

    /// The answer made of what a search found: the rows of the batches as objects, without the
    /// rows that hold nothing.
    pub fn query(batches: &[&Batch]) -> (r: Result<Response, MeltError>)
        ensures
            match all_json_rows(Seq::new(batches@.len(), |i: int| *batches@[i])) {
                Some(rows) => r matches Ok(response) && json_views(response.hits@) == rows.filter(
                    |v: JsonView| !is_empty_object(v),
                ),
                None => r matches Err(e) && e.kind == ErrorKind::Internal,
            },
    {
        let rows = match recordbatch_to_jsons(batches) {
            Ok(rows) => rows,
            Err(e) => { return Err(e); },
        };
        let ghost raw = rows@;
        let ghost all = json_views(raw);
        let ghost kept = |v: JsonView| !is_empty_object(v);
        let mut hits: Vec<Json> = Vec::new();
        proof {
            reveal(Seq::filter);
            assert(json_views(hits@) =~= all.take(0).filter(kept));
        }
        for row in it: rows.into_iter()
            invariant
                it.seq() == raw,
                all == json_views(raw),
                kept == |v: JsonView| !is_empty_object(v),
                json_views(hits@) == all.take(it.index() as int).filter(kept),
        {
            let ghost n = it.index() as int;
            proof {
                reveal(Seq::filter);
                assert(all.take(n + 1).drop_last() =~= all.take(n));
                assert(all.take(n + 1).last() == row@);
            }
            let empty = match &row {
                Json::Object(members) => {
                    proof {
                        lemma_view_of_object(*members);
                    }
                    members.len() == 0
                },
                _ => false,
            };
            if !empty {
                let ghost before = json_views(hits@);
                let ghost view = row@;
                hits.push(row);
                proof {
                    assert(json_views(hits@) =~= before.push(view));
                }
            }
        }
        proof {
            assert(all.take(all.len() as int) =~= all);
        }
        Ok(Response { hits })
    }
}

/// The state of one ingest as mathematics sees it.
pub struct IngestRunView {
    pub table: Seq<char>,
    pub partitions: Seq<PartitionView>,
    /// How many partitions have been made into segments.
    pub written: nat,
    /// Whether the run has ended on a failure.
    pub failed: bool,
}

/// The run of one ingest over its partitions. The caller takes the segment of the next
/// partition from `next_segment`, stores its two files and hands its descriptor to `stored`,
/// until no partition is left. A failure ends the run: the partitions behind it are not
/// written, and what was stored and added to the catalog before it stays.
pub struct IngestRun {
    table: String,
    partitions: Vec<Partition>,
    written: usize,
    failed: bool,
}

impl View for IngestRun {
    type V = IngestRunView;

    closed spec fn view(&self) -> IngestRunView {
        IngestRunView {
            table: self.table@,
            partitions: partition_views(self.partitions@),
            written: self.written as nat,
            failed: self.failed,
        }
    }
}

impl IngestRun {
    #[verifier::type_invariant]
    spec fn well_formed(self) -> bool {
        self.written <= self.partitions@.len()
    }

    /// A run that has written nothing yet.
    pub fn new(table_name: &str, partitions: Vec<Partition>) -> (run: IngestRun)
        ensures
            run@ == (IngestRunView {
                table: table_name@,
                partitions: partition_views(partitions@),
                written: 0,
                failed: false,
            }),
    {
        IngestRun { table: table_name.to_owned(), partitions, written: 0, failed: false }
    }

    /// Whether the run has ended on a failure.
    pub fn has_failed(&self) -> (b: bool)
        ensures
            b == self@.failed,
    {
        self.failed
    }

    /// Makes the segment of the next partition, as `write_partition` does: the partitions are
    /// taken in their order. `None` once all are written, and after a failure. A partition whose
    /// segment cannot be made ends the run.
    pub fn next_segment(&mut self, service: &mut IngestService) -> (r: Option<
        Result<SegmentFiles, MeltError>,
    >)
        ensures
            final(self)@.table == old(self)@.table,
            final(self)@.partitions == old(self)@.partitions,
            old(self)@.written <= old(self)@.partitions.len(),
            match r {
                None => (old(self)@.failed || old(self)@.written == old(self)@.partitions.len())
                    && final(self)@ == old(self)@ && final(service)@ == old(service)@,
                Some(made) => !old(self)@.failed && old(self)@.written < old(
                    self,
                )@.partitions.len() && is_written(
                    old(service)@,
                    final(service)@,
                    old(self)@.table,
                    old(self)@.partitions[old(self)@.written as int],
                    made,
                ) && final(self)@.failed == (made is Err) && final(self)@.written == old(
                    self,
                )@.written + (if made is Ok {
                    1nat
                } else {
                    0nat
                }),
            },
    {
        proof {
            use_type_invariant(&*self);
        }
        if self.failed || self.written >= self.partitions.len() {
            return None;
        }
        proof {
            assert(partition_views(self.partitions@)[self.written as int]
                == self.partitions@[self.written as int]@);
        }
        let made = service.write_partition(self.table.as_str(), &self.partitions[self.written]);
        match made {
            Ok(files) => {
                self.written = self.written + 1;
                Some(Ok(files))
            },
            Err(e) => {
                self.failed = true;
                Some(Err(e))
            },
        }
    }

    /// Adds the descriptor of a segment that is stored to the catalog, under the table of the
    /// run.
    pub fn stored(&self, service: &mut IngestService, meta: FileMeta)
        ensures
            final(service)@ == (IngestServiceView {
                catalog: old(service)@.catalog.insert(
                    self@.table,
                    table_files(old(service)@.catalog, self@.table).push(meta@),
                ),
                ..old(service)@
            }),
    {
        service.add_file(self.table.as_str(), meta);
    }

    /// Ends the run on a failure of the caller's: no further segment is made.
    pub fn fail(&mut self)
        ensures
            final(self)@ == (IngestRunView { failed: true, ..old(self)@ }),
    {
        proof {
            use_type_invariant(&*self);
        }
        self.failed = true;
    }
}

} // verus!
