//! The catalog: for each table the descriptors of its segments.

use vstd::prelude::*;

verus! {

/// `ahash::AHashMap`: a hash map of std under ahash's hasher.
#[verifier::external_type_specification]
#[verifier::external_body]
#[verifier::reject_recursive_types(K)]
#[verifier::reject_recursive_types(V)]
#[verifier::reject_recursive_types(S)]
pub struct ExAHashMap<K, V, S>(ahash::AHashMap<K, V, S>);

/// `ahash::RandomState`, the hasher that `AHashMap` takes where none is named.
#[verifier::external_type_specification]
#[verifier::external_body]
pub struct ExRandomState(ahash::RandomState);

/// A segment descriptor as mathematics sees it.
pub struct FileMetaView {
    pub partition: Seq<char>,
    pub segment: Seq<char>,
    pub min_timestamp: int,
    pub max_timestamp: int,
}

/// The descriptor of one segment: where it lies and which span of time its records cover.
#[derive(Clone, Debug, PartialEq, Eq)]
pub struct FileMeta {
    segment: String,
    partition: String,
    min_timestamp: i64,
    max_timestamp: i64,
}

impl View for FileMeta {
    type V = FileMetaView;

    closed spec fn view(&self) -> FileMetaView {
        FileMetaView {
            partition: self.partition@,
            segment: self.segment@,
            min_timestamp: self.min_timestamp as int,
            max_timestamp: self.max_timestamp as int,
        }
    }
}

impl FileMeta {
    pub fn new(partition: String, segment: String, min_ts: i64, max_ts: i64) -> (f: FileMeta)
        ensures
            f@ == (FileMetaView {
                partition: partition@,
                segment: segment@,
                min_timestamp: min_ts as int,
                max_timestamp: max_ts as int,
            }),
    {
        FileMeta { partition, segment, min_timestamp: min_ts, max_timestamp: max_ts }
    }

    pub fn segment(&self) -> (s: &str)
        ensures
            s@ == self@.segment,
    {
        self.segment.as_str()
    }

    pub fn partition(&self) -> (s: &str)
        ensures
            s@ == self@.partition,
    {
        self.partition.as_str()
    }

    pub fn min_timestamp(&self) -> (t: i64)
        ensures
            t == self@.min_timestamp,
    {
        self.min_timestamp
    }

    pub fn max_timestamp(&self) -> (t: i64)
        ensures
            t == self@.max_timestamp,
    {
        self.max_timestamp
    }

    /// A second descriptor of the same segment.
    pub fn duplicate(&self) -> (f: FileMeta)
        ensures
            f@ == self@,
    {
        FileMeta {
            partition: self.partition.clone(),
            segment: self.segment.clone(),
            min_timestamp: self.min_timestamp,
            max_timestamp: self.max_timestamp,
        }
    }

    /// Whether the segment may hold records of the span from `begin` to `end`.
    pub fn overlaps(&self, begin: Option<i64>, end: Option<i64>) -> (b: bool)
        ensures
            b == in_range(self@, begin, end),
    {
        let late_enough = match begin {
            Some(t) => self.max_timestamp >= t,
            None => true,
        };
        let early_enough = match end {
            Some(t) => self.min_timestamp <= t,
            None => true,
        };
        late_enough && early_enough
    }
}

/// A segment is in range where it ends at or after `begin` and starts at or before `end`; a
/// bound that is absent excludes nothing.
pub open spec fn in_range(f: FileMetaView, begin: Option<i64>, end: Option<i64>) -> bool {
    &&& begin matches Some(t) ==> f.max_timestamp >= t
    &&& end matches Some(t) ==> f.min_timestamp <= t
}

/// The views of a sequence of descriptors.
pub open spec fn file_views(files: Seq<FileMeta>) -> Seq<FileMetaView> {
    Seq::new(files.len(), |i: int| files[i]@)
}

/// The descriptors of a table, in the order in which they were added; none for an unknown table.
pub open spec fn table_files(
    tables: Map<Seq<char>, Seq<FileMetaView>>,
    name: Seq<char>,
) -> Seq<FileMetaView> {
    if tables.contains_key(name) {
        tables[name]
    } else {
        Seq::empty()
    }
}

/// A catalog without tables.
pub open spec fn no_tables() -> Map<Seq<char>, Seq<FileMetaView>> {
    Map::empty()
}

/// What the catalog's map holds: for each table name its descriptors.
pub uninterp spec fn catalog_tables(m: ahash::AHashMap<String, Vec<FileMeta>>) -> Map<
    Seq<char>,
    Seq<FileMetaView>,
>;

/// `AHashMap::new`: a map that holds nothing.
#[verifier::external_body]
fn tables_new() -> (m: ahash::AHashMap<String, Vec<FileMeta>>)
    ensures
        catalog_tables(m) == no_tables(),
{
    ahash::AHashMap::new()
}

/// `AHashMap::get`: the value under `name`, where the map has that key.
#[verifier::external_body]
fn tables_get<'a>(m: &'a ahash::AHashMap<String, Vec<FileMeta>>, name: &str) -> (r: Option<
    &'a Vec<FileMeta>,
>)
    ensures
        match r {
            Some(files) => catalog_tables(*m).contains_key(name@) && file_views(files@)
                == catalog_tables(*m)[name@],
            None => !catalog_tables(*m).contains_key(name@),
        },
{
    m.get(name)
}

/// `AHashMap::remove`: takes the key `name` out and returns what stood under it.
#[verifier::external_body]
fn tables_remove(m: &mut ahash::AHashMap<String, Vec<FileMeta>>, name: &str) -> (r: Option<
    Vec<FileMeta>,
>)
    ensures
        catalog_tables(*final(m)) == catalog_tables(*old(m)).remove(name@),
        match r {
            Some(files) => catalog_tables(*old(m)).contains_key(name@) && file_views(files@)
                == catalog_tables(*old(m))[name@],
            None => !catalog_tables(*old(m)).contains_key(name@),
        },
{
    m.remove(name)
}

/// `AHashMap::insert`: puts `files` under the key `name`, in place of what stood there.
#[verifier::external_body]
fn tables_insert(m: &mut ahash::AHashMap<String, Vec<FileMeta>>, name: String, files: Vec<FileMeta>)
    ensures
        catalog_tables(*final(m)) == catalog_tables(*old(m)).insert(name@, file_views(files@)),
{
    m.insert(name, files);
}

/// The catalog: for each table the descriptors of its segments, in the order in which they were
/// added.
pub struct MetaService {
    files: ahash::AHashMap<String, Vec<FileMeta>>,
}

impl View for MetaService {
    type V = Map<Seq<char>, Seq<FileMetaView>>;

    closed spec fn view(&self) -> Map<Seq<char>, Seq<FileMetaView>> {
        catalog_tables(self.files)
    }
}

impl MetaService {
    /// An empty catalog.
    pub fn new() -> (s: MetaService)
        ensures
            s@ == no_tables(),
    {
        MetaService { files: tables_new() }
    }

    /// Appends a descriptor to those of `table_name`. Nothing else changes.
    pub fn add_file(&mut self, table_name: &str, file: FileMeta)
        ensures
            final(self)@ == old(self)@.insert(
                table_name@,
                table_files(old(self)@, table_name@).push(file@),
            ),
    {
        let ghost before = self@;
        let mut files = match tables_remove(&mut self.files, table_name) {
            Some(files) => files,
            None => Vec::new(),
        };
        proof {
            assert(file_views(files@) =~= table_files(before, table_name@));
        }
        let ghost listed = files@;
        files.push(file);
        proof {
            assert(file_views(files@) =~= file_views(listed).push(file@));
        }
        tables_insert(&mut self.files, table_name.to_owned(), files);
        proof {
            assert(self@ =~= before.insert(
                table_name@,
                table_files(before, table_name@).push(file@),
            ));
        }
    }

    /// The descriptors of `table_name` that are in range, in the order in which they were added.
    pub fn query_files(&self, table_name: &str, begin: Option<i64>, end: Option<i64>) -> (r: Vec<
        FileMeta,
    >)
        ensures
            file_views(r@) == table_files(self@, table_name@).filter(
                |f: FileMetaView| in_range(f, begin, end),
            ),
    {
        let ghost wanted = |f: FileMetaView| in_range(f, begin, end);
        let mut found: Vec<FileMeta> = Vec::new();
        match tables_get(&self.files, table_name) {
            Some(files) => {
                let ghost all = table_files(self@, table_name@);
                let mut i: usize = 0;
                proof {
                    reveal(Seq::filter);
                    assert(file_views(found@) =~= all.take(0).filter(wanted));
                }
                while i < files.len()
                    invariant
                        i <= files.len(),
                        all == file_views(files@),
                        wanted == |f: FileMetaView| in_range(f, begin, end),
                        file_views(found@) == all.take(i as int).filter(wanted),
                    decreases files.len() - i,
                {
                    proof {
                        reveal(Seq::filter);
                        assert(all.take(i as int + 1).drop_last() =~= all.take(i as int));
                        assert(all.take(i as int + 1).last() == files@[i as int]@);
                    }
                    if files[i].overlaps(begin, end) {
                        let ghost kept = found@;
                        found.push(files[i].duplicate());
                        proof {
                            assert(file_views(found@) =~= file_views(kept).push(files@[i as int]@));
                        }
                    }
                    i = i + 1;
                }
                proof {
                    assert(all.take(i as int) =~= all);
                }
            },
            None => {
                proof {
                    reveal(Seq::filter);
                    assert(file_views(found@) =~= Seq::<FileMetaView>::empty());
                }
            },
        }
        found
    }
}

/// What a range query returns: a descriptor is among the answers if and only if it is among the
/// descriptors of the table and in range.
pub proof fn lemma_query_is_exact(
    files: Seq<FileMetaView>,
    begin: Option<i64>,
    end: Option<i64>,
    d: FileMetaView,
)
    ensures
        files.filter(|f: FileMetaView| in_range(f, begin, end)).contains(d) <==> (files.contains(d)
            && in_range(d, begin, end)),
    decreases files.len(),
{
    reveal(Seq::filter);
    let wanted = |f: FileMetaView| in_range(f, begin, end);
    if files.len() > 0 {
        lemma_query_is_exact(files.drop_last(), begin, end, d);
        let head = files.drop_last();
        let kept = head.filter(wanted);
        if files.contains(d) {
            let i = choose|i: int| 0 <= i < files.len() && files[i] == d;
            if i < head.len() {
                assert(head[i] == d);
                assert(head.contains(d));
            }
        }
        if head.contains(d) {
            let i = choose|i: int| 0 <= i < head.len() && head[i] == d;
            assert(files[i] == d);
        }
        if wanted(files.last()) {
            let all = kept.push(files.last());
            if all.contains(d) {
                let i = choose|i: int| 0 <= i < all.len() && all[i] == d;
                if i < kept.len() {
                    assert(kept[i] == d);
                    assert(kept.contains(d));
                } else {
                    assert(files[files.len() - 1] == d);
                }
            }
            if kept.contains(d) {
                let i = choose|i: int| 0 <= i < kept.len() && kept[i] == d;
                assert(all[i] == d);
            }
            if files.last() == d {
                assert(all[kept.len() as int] == d);
            }
        }
    }
}

} // verus!
