//! Stamping records with their time and sorting them into hourly partitions.

use crate::consts::TIMPSTAMP_FIELD_NAME;
use crate::error::{ErrorKind, MeltError};
use crate::fusion::compute::{is_max, is_min};
use crate::utils::json::{
    get_member, json_views, lemma_member_is_set, lemma_view_of_object, member, set_member,
    with_member, Json, JsonView,
};
use crate::utils::time::{
    parse_timestamp_at, record_micros, MAX_PARTITIONED_MICROS, MIN_PARTITIONED_MICROS,
};
use vstd::prelude::*;

verus! {

/// A record with its timestamp, at the instant `now`: the timestamp in microseconds, and the
/// record with that number in its field `timestamp`. `None` where the value is no object or its
/// timestamp cannot be read.
pub open spec fn stamped(v: JsonView, now: i64) -> Option<(i64, JsonView)> {
    match (record_micros(TIMPSTAMP_FIELD_NAME@, v, now), v) {
        (Some(t), JsonView::Object(m)) => Some(
            (t, JsonView::Object(with_member(m, TIMPSTAMP_FIELD_NAME@, JsonView::Int(t as int)))),
        ),
        _ => None,
    }
}

/// Whether `r` is the outcome that `expected` asks for.
pub open spec fn is_stamped(
    expected: Option<(i64, JsonView)>,
    r: Result<(i64, Json), MeltError>,
) -> bool {
    match expected {
        Some((t, v)) => r matches Ok((stamp, record)) && stamp == t && record@ == v,
        None => r matches Err(e) && e.kind == ErrorKind::BadInput,
    }
}

/// The timestamp that a record carries: the whole number in its field `timestamp`.
pub open spec fn carried_stamp(v: JsonView) -> Option<int> {
    match member(v, TIMPSTAMP_FIELD_NAME@) {
        Some(JsonView::Int(t)) => Some(t),
        _ => None,
    }
}

/// A stamped record carries its timestamp.
pub proof fn lemma_stamped_carries(v: JsonView, now: i64)
    ensures
        stamped(v, now) matches Some(item) ==> carried_stamp(item.1) == Some(item.0 as int),
{
    match stamped(v, now) {
        Some(item) => {
            lemma_member_is_set(
                v->Object_0,
                TIMPSTAMP_FIELD_NAME@,
                JsonView::Int(item.0 as int),
            );
        },
        None => {},
    }
}

/// Stamps a record, given the instant to use where it has no timestamp.
pub fn stamp_record(val: Json, now: i64) -> (r: Result<(i64, Json), MeltError>)
    ensures
        is_stamped(stamped(val@, now), r),
{
    let stamp = match parse_timestamp_at(TIMPSTAMP_FIELD_NAME, &val, now) {
        Ok(t) => t,
        Err(e) => { return Err(e); },
    };
    match val {
        Json::Object(members) => {
            let mut members = members;
            proof {
                lemma_view_of_object(members);
            }
            set_member(&mut members, TIMPSTAMP_FIELD_NAME, Json::Int(stamp));
            proof {
                lemma_view_of_object(members);
            }
            Ok((stamp, Json::Object(members)))
        },
        _ => Err(MeltError::bad_input("format wrong, can not convert to map")),
    }
}

/// The text that chrono writes for the instant `nanos` nanoseconds after the epoch, in UTC,
/// under the format `fmt`.
pub uninterp spec fn utc_text(nanos: i64, fmt: Seq<char>) -> Seq<char>;

/// `chrono::TimeZone::timestamp_nanos` of `Utc`, then `DateTime::format` and `to_string`.
/// Claimed of the one format that names the hour; chrono panics on a format that it cannot
/// read.
#[verifier::external_body]
fn format_utc(nanos: i64, fmt: &str) -> (s: String)
    requires
        fmt@ == "%Y-%m-%d-%H"@,
    ensures
        s@ == utc_text(nanos, fmt@),
{
    chrono::TimeZone::timestamp_nanos(&chrono::Utc, nanos).format(fmt).to_string()
}

/// A timestamp whose count of nanoseconds fits 64 bits.
pub open spec fn partitionable(stamp: i64) -> bool {
    MIN_PARTITIONED_MICROS <= stamp <= MAX_PARTITIONED_MICROS
}

/// The partition of a timestamp: its hour in UTC, written `YYYY-MM-DD-HH`.
pub open spec fn partition_key(stamp: i64) -> Seq<char> {
    utc_text((stamp * 1000) as i64, "%Y-%m-%d-%H"@)
}

/// The partition key of a timestamp in microseconds.
pub fn partition_key_of(stamp: i64) -> (key: String)
    requires
        partitionable(stamp),
    ensures
        key@ == partition_key(stamp),
{
    format_utc(stamp * 1000, "%Y-%m-%d-%H")
}

/// The same, for every timestamp: `None` where the count of nanoseconds does not fit 64 bits.
pub fn checked_partition_key(stamp: i64) -> (r: Option<String>)
    ensures
        match r {
            Some(key) => partitionable(stamp) && key@ == partition_key(stamp),
            None => !partitionable(stamp),
        },
{
    if MIN_PARTITIONED_MICROS <= stamp && stamp <= MAX_PARTITIONED_MICROS {
        Some(partition_key_of(stamp))
    } else {
        None
    }
}

/// The records of one partition as mathematics sees them.
pub struct PartitionView {
    pub key: Seq<char>,
    pub stamps: Seq<i64>,
    pub records: Seq<JsonView>,
}

/// The records of one request that fall into one partition, with their timestamps, in the order
/// in which they came.
#[derive(Debug)]
pub struct Partition {
    pub key: String,
    pub stamps: Vec<i64>,
    pub records: Vec<Json>,
}

impl View for Partition {
    type V = PartitionView;

    open spec fn view(&self) -> PartitionView {
        PartitionView { key: self.key@, stamps: self.stamps@, records: json_views(self.records@) }
    }
}

pub open spec fn partition_views(partitions: Seq<Partition>) -> Seq<PartitionView> {
    Seq::new(partitions.len(), |i: int| partitions[i]@)
}

pub open spec fn stamped_views(items: Seq<(i64, Json)>) -> Seq<(i64, JsonView)> {
    Seq::new(items.len(), |i: int| (items[i].0, items[i].1@))
}

pub open spec fn all_partitionable(items: Seq<(i64, JsonView)>) -> bool {
    forall|i: int| 0 <= i < items.len() ==> partitionable((#[trigger] items[i]).0)
}

/// The partition keys of stamped records, each once, in the order in which they first occur.
pub open spec fn partition_keys(items: Seq<(i64, JsonView)>) -> Seq<Seq<char>>
    decreases items.len(),
{
    if items.len() == 0 {
        Seq::empty()
    } else {
        let before = partition_keys(items.drop_last());
        if before.contains(partition_key(items.last().0)) {
            before
        } else {
            before.push(partition_key(items.last().0))
        }
    }
}

/// The timestamps of the records of the partition `key`, in order.
pub open spec fn stamps_under(items: Seq<(i64, JsonView)>, key: Seq<char>) -> Seq<i64>
    decreases items.len(),
{
    if items.len() == 0 {
        Seq::empty()
    } else {
        let before = stamps_under(items.drop_last(), key);
        if partition_key(items.last().0) == key {
            before.push(items.last().0)
        } else {
            before
        }
    }
}

/// The records of the partition `key`, in order.
pub open spec fn records_under(items: Seq<(i64, JsonView)>, key: Seq<char>) -> Seq<JsonView>
    decreases items.len(),
{
    if items.len() == 0 {
        Seq::empty()
    } else {
        let before = records_under(items.drop_last(), key);
        if partition_key(items.last().0) == key {
            before.push(items.last().1)
        } else {
            before
        }
    }
}

/// Stamped records by partition: one partition for each key, in the order in which the keys
/// first occur, each with its records in the order in which they came.
pub open spec fn partitioned(items: Seq<(i64, JsonView)>) -> Seq<PartitionView> {
    Seq::new(
        partition_keys(items).len(),
        |i: int|
            PartitionView {
                key: partition_keys(items)[i],
                stamps: stamps_under(items, partition_keys(items)[i]),
                records: records_under(items, partition_keys(items)[i]),
            },
    )
}

/// No key occurs twice among the partition keys.
pub proof fn lemma_partition_keys_distinct(items: Seq<(i64, JsonView)>)
    ensures
        forall|i: int, j: int|
            0 <= i < j < partition_keys(items).len() ==> partition_keys(items)[i] != partition_keys(
                items,
            )[j],
    decreases items.len(),
{
    if items.len() > 0 {
        lemma_partition_keys_distinct(items.drop_last());
        let before = partition_keys(items.drop_last());
        let key = partition_key(items.last().0);
        if !before.contains(key) {
            let keys = partition_keys(items);
            assert forall|i: int, j: int| 0 <= i < j < keys.len() implies keys[i] != keys[j] by {
                if j == before.len() {
                    assert(before[i] != key);
                }
            }
        }
    }
}

/// A key that is no partition key has no records.
pub proof fn lemma_unknown_key_is_empty(items: Seq<(i64, JsonView)>, key: Seq<char>)
    requires
        !partition_keys(items).contains(key),
    ensures
        stamps_under(items, key).len() == 0,
        records_under(items, key).len() == 0,
    decreases items.len(),
{
    if items.len() > 0 {
        let before = partition_keys(items.drop_last());
        let last_key = partition_key(items.last().0);
        if before.contains(last_key) {
            lemma_unknown_key_is_empty(items.drop_last(), key);
        } else {
            assert(before.push(last_key).last() == last_key);
            assert(last_key != key);
            assert forall|i: int| 0 <= i < before.len() implies before[i] != key by {
                assert(before.push(last_key)[i] == before[i]);
            }
            lemma_unknown_key_is_empty(items.drop_last(), key);
        }
    }
}

/// The timestamp of every record stands among the timestamps of its partition.
pub proof fn lemma_stamp_is_listed(items: Seq<(i64, JsonView)>, i: int)
    requires
        0 <= i < items.len(),
    ensures
        stamps_under(items, partition_key(items[i].0)).contains(items[i].0),
    decreases items.len(),
{
    let key = partition_key(items[i].0);
    let before = stamps_under(items.drop_last(), key);
    if i == items.len() - 1 {
        assert(before.push(items[i].0)[before.len() as int] == items[i].0);
    } else {
        assert(items.drop_last()[i] == items[i]);
        lemma_stamp_is_listed(items.drop_last(), i);
        let at = choose|k: int| 0 <= k < before.len() && before[k] == items[i].0;
        if partition_key(items.last().0) == key {
            assert(before.push(items.last().0)[at] == items[i].0);
        }
    }
}

/// Every timestamp of a partition lies in the hour of that partition.
pub proof fn lemma_listed_stamps_share_key(items: Seq<(i64, JsonView)>, key: Seq<char>, k: int)
    requires
        0 <= k < stamps_under(items, key).len(),
    ensures
        partition_key(stamps_under(items, key)[k]) == key,
    decreases items.len(),
{
    if items.len() > 0 {
        let before = stamps_under(items.drop_last(), key);
        if k < before.len() {
            lemma_listed_stamps_share_key(items.drop_last(), key, k);
        }
    }
}

/// A segment spans its records: where the descriptor of a partition holds the least and the
/// greatest of the partition's timestamps, the timestamp of each record of the partition lies
/// between the two.
pub proof fn lemma_segment_spans_its_records(
    items: Seq<(i64, JsonView)>,
    i: int,
    min: i64,
    max: i64,
)
    requires
        0 <= i < items.len(),
        is_min(stamps_under(items, partition_key(items[i].0)), min),
        is_max(stamps_under(items, partition_key(items[i].0)), max),
    ensures
        min <= items[i].0 <= max,
{
    lemma_stamp_is_listed(items, i);
    let stamps = stamps_under(items, partition_key(items[i].0));
    let at = choose|k: int| 0 <= k < stamps.len() && stamps[k] == items[i].0;
    assert(min <= stamps[at] <= max);
}

/// The span of a segment lies in its partition: the least and the greatest timestamp of a
/// partition have the partition's own key.
pub proof fn lemma_span_lies_in_partition(
    items: Seq<(i64, JsonView)>,
    key: Seq<char>,
    min: i64,
    max: i64,
)
    requires
        is_min(stamps_under(items, key), min),
        is_max(stamps_under(items, key), max),
    ensures
        partition_key(min) == key,
        partition_key(max) == key,
        min <= max,
{
    let stamps = stamps_under(items, key);
    let at_min = choose|k: int| 0 <= k < stamps.len() && stamps[k] == min;
    let at_max = choose|k: int| 0 <= k < stamps.len() && stamps[k] == max;
    lemma_listed_stamps_share_key(items, key, at_min);
    lemma_listed_stamps_share_key(items, key, at_max);
    assert(min <= stamps[at_max]);
}

/// The timestamps of a partition are those that its records carry, one for each record.
pub open spec fn stamps_match(p: PartitionView) -> bool {
    p.stamps.len() == p.records.len() && forall|k: int|
        0 <= k < p.stamps.len() ==> carried_stamp(#[trigger] p.records[k]) == Some(
            p.stamps[k] as int,
        )
}

/// Every timestamp of a partition lies in the hour that the key of the partition names.
pub open spec fn shares_key(p: PartitionView) -> bool {
    forall|k: int|
        0 <= k < p.stamps.len() ==> partitionable(#[trigger] p.stamps[k]) && partition_key(
            p.stamps[k],
        ) == p.key
}

/// Every item carries its timestamp.
pub open spec fn all_carry(items: Seq<(i64, JsonView)>) -> bool {
    forall|i: int|
        0 <= i < items.len() ==> carried_stamp((#[trigger] items[i]).1) == Some(items[i].0 as int)
}

/// The records of a key and its timestamps come in pairs.
pub proof fn lemma_listed_in_pairs(items: Seq<(i64, JsonView)>, key: Seq<char>)
    ensures
        stamps_under(items, key).len() == records_under(items, key).len(),
        all_carry(items) ==> forall|k: int|
            0 <= k < stamps_under(items, key).len() ==> carried_stamp(
                #[trigger] records_under(items, key)[k],
            ) == Some(stamps_under(items, key)[k] as int),
        all_partitionable(items) ==> forall|k: int|
            0 <= k < stamps_under(items, key).len() ==> partitionable(
                #[trigger] stamps_under(items, key)[k],
            ),
    decreases items.len(),
{
    if items.len() > 0 {
        let head = items.drop_last();
        lemma_listed_in_pairs(head, key);
        assert(items[items.len() - 1] == items.last());
        if all_carry(items) {
            assert forall|i: int| 0 <= i < head.len() implies carried_stamp((#[trigger] head[i]).1)
                == Some(head[i].0 as int) by {
                assert(head[i] == items[i]);
            }
        }
        if all_partitionable(items) {
            assert forall|i: int| 0 <= i < head.len() implies partitionable((#[trigger] head[i]).0) by {
                assert(head[i] == items[i]);
            }
        }
    }
}

/// The partitions of stamped records are sound: in each, the timestamps are those that the
/// records carry and lie in the hour of the key, and there is at least one record.
pub proof fn lemma_partitions_are_sound(items: Seq<(i64, JsonView)>, j: int)
    requires
        all_carry(items),
        all_partitionable(items),
        0 <= j < partitioned(items).len(),
    ensures
        stamps_match(partitioned(items)[j]),
        shares_key(partitioned(items)[j]),
{
    let key = partition_keys(items)[j];
    lemma_listed_in_pairs(items, key);
    assert forall|k: int| 0 <= k < stamps_under(items, key).len() implies partition_key(
        #[trigger] stamps_under(items, key)[k],
    ) == key by {
        lemma_listed_stamps_share_key(items, key, k);
    }
}

/// What the index of partitions holds: for each key the place of its partition.
pub uninterp spec fn index_entries(m: ahash::AHashMap<String, usize>) -> Map<Seq<char>, usize>;

/// An index without entries.
pub open spec fn no_entries() -> Map<Seq<char>, usize> {
    Map::empty()
}

/// `AHashMap::new`: a map that holds nothing.
#[verifier::external_body]
fn index_new() -> (m: ahash::AHashMap<String, usize>)
    ensures
        index_entries(m) == no_entries(),
{
    ahash::AHashMap::new()
}

/// `AHashMap::get`: the value under `key`, where the map has that key.
#[verifier::external_body]
fn index_get(m: &ahash::AHashMap<String, usize>, key: &str) -> (r: Option<usize>)
    ensures
        match r {
            Some(place) => index_entries(*m).contains_key(key@) && index_entries(*m)[key@] == place,
            None => !index_entries(*m).contains_key(key@),
        },
{
    m.get(key).copied()
}

/// `AHashMap::insert`: puts `place` under `key`, in place of what stood there.
#[verifier::external_body]
fn index_insert(m: &mut ahash::AHashMap<String, usize>, key: String, place: usize)
    ensures
        index_entries(*final(m)) == index_entries(*old(m)).insert(key@, place),
{
    m.insert(key, place);
}

/// The index knows the partition keys and nothing else, each with its place.
spec fn index_agrees(index: Map<Seq<char>, usize>, keys: Seq<Seq<char>>) -> bool {
    &&& forall|i: int|
        0 <= i < keys.len() ==> index.contains_key(#[trigger] keys[i]) && index[keys[i]] == i
    &&& forall|k: Seq<char>| #[trigger] index.contains_key(k) ==> keys.contains(k)
}

/// Sorts stamped records into partitions. Fails where the count of nanoseconds of a timestamp
/// does not fit 64 bits.
pub fn partition_stamped(items: Vec<(i64, Json)>) -> (r: Result<Vec<Partition>, MeltError>)
    ensures
        match r {
            Ok(partitions) => all_partitionable(stamped_views(items@)) && partition_views(
                partitions@,
            ) == partitioned(stamped_views(items@)),
            Err(e) => !all_partitionable(stamped_views(items@)) && e.kind == ErrorKind::BadInput,
        },
{
    let ghost all = stamped_views(items@);
    let ghost raw = items@;
    let mut index = index_new();
    let mut partitions: Vec<Partition> = Vec::new();
    proof {
        assert(partition_views(partitions@) =~= partitioned(all.take(0)));
    }
    for item in it: items.into_iter()
        invariant
            it.seq() == raw,
            all == stamped_views(raw),
            all_partitionable(all.take(it.index() as int)),
            partition_views(partitions@) == partitioned(all.take(it.index() as int)),
            index_agrees(index_entries(index), partition_keys(all.take(it.index() as int))),
    {
        let ghost n = it.index() as int;
        let ghost done = all.take(n);
        let ghost next = all.take(n + 1);
        let (stamp, record) = item;
        proof {
            assert(next.drop_last() =~= done);
            assert(next.last() == (stamp, record@));
            lemma_partition_keys_distinct(done);
        }
        let key = match checked_partition_key(stamp) {
            Some(key) => key,
            None => {
                proof {
                    assert(!partitionable(all[n].0));
                }
                return Err(MeltError::bad_input("timestamp out of range"));
            },
        };
        let ghost keys = partition_keys(done);
        let ghost before = partitions@;
        proof {
            assert(partition_views(before).len() == before.len());
            assert(partitioned(done).len() == keys.len());
        }
        match index_get(&index, key.as_str()) {
            Some(place) => {
                proof {
                    assert(keys.contains(key@));
                    let at = choose|i: int| 0 <= i < keys.len() && keys[i] == key@;
                    assert(index_entries(index)[keys[at]] == at);
                    assert(place == at);
                    assert(partition_views(before)[place as int] == before[place as int]@);
                }
                let ghost old_records = json_views(partitions@[place as int].records@);
                partitions[place].stamps.push(stamp);
                partitions[place].records.push(record);
                proof {
                    assert(partition_keys(next) == keys);
                    assert(json_views(partitions@[place as int].records@) =~= old_records.push(
                        record@,
                    ));
                    assert forall|i: int| 0 <= i < keys.len() implies #[trigger] partition_views(
                        partitions@,
                    )[i] == partitioned(next)[i] by {
                        if i != place {
                            assert(keys[i] != keys[place as int]);
                            assert(partitions@[i] == before[i]);
                            assert(partition_views(before)[i] == before[i]@);
                        }
                    }
                    assert(partition_views(partitions@) =~= partitioned(next));
                }
            },
            None => {
                proof {
                    assert(!keys.contains(key@)) by {
                        if keys.contains(key@) {
                            let at = choose|i: int| 0 <= i < keys.len() && keys[i] == key@;
                            assert(index_entries(index).contains_key(keys[at]));
                        }
                    }
                    lemma_unknown_key_is_empty(done, key@);
                    assert(partition_keys(next) == keys.push(key@));
                }
                let place = partitions.len();
                let mut stamps: Vec<i64> = Vec::new();
                stamps.push(stamp);
                let mut records: Vec<Json> = Vec::new();
                records.push(record);
                let ghost fresh_key = key@;
                index_insert(&mut index, key.clone(), place);
                partitions.push(Partition { key, stamps, records });
                proof {
                    assert(json_views(partitions@[place as int].records@) =~= seq![record@]);
                    assert(stamps_under(next, fresh_key) =~= seq![stamp]);
                    assert(records_under(next, fresh_key) =~= seq![record@]);
                    let now = partition_views(partitions@);
                    assert forall|i: int| 0 <= i < keys.len() + 1 implies #[trigger] now[i]
                        == partitioned(next)[i] by {
                        if i < keys.len() {
                            assert(keys[i] != fresh_key);
                            assert(partitions@[i] == before[i]);
                            assert(partition_views(before)[i] == before[i]@);
                        }
                    }
                    assert(partition_views(partitions@) =~= partitioned(next));
                    let new_keys = keys.push(fresh_key);
                    assert forall|i: int| 0 <= i < new_keys.len() implies index_entries(
                        index,
                    ).contains_key(#[trigger] new_keys[i]) && index_entries(index)[new_keys[i]]
                        == i by {
                        if i < keys.len() {
                            assert(keys[i] != fresh_key);
                            assert(new_keys[i] == keys[i]);
                        }
                    }
                    assert forall|k: Seq<char>| #[trigger]
                        index_entries(index).contains_key(k) implies new_keys.contains(k) by {
                        if k == fresh_key {
                            assert(new_keys[keys.len() as int] == k);
                        } else {
                            assert(keys.contains(k));
                            let at = choose|i: int| 0 <= i < keys.len() && keys[i] == k;
                            assert(new_keys[at] == k);
                        }
                    }
                }
            },
        }
        proof {
            assert forall|i: int| 0 <= i < n + 1 implies partitionable((#[trigger] next[i]).0) by {
                if i < n {
                    assert(done[i] == next[i]);
                }
            }
        }
    }
    proof {
        assert(all.take(all.len() as int) =~= all);
    }
    Ok(partitions)
}

/// Stamps every record at the instant `now`; `None` where one of them cannot be stamped.
pub open spec fn stamped_all(records: Seq<JsonView>, now: i64) -> Option<Seq<(i64, JsonView)>>
    decreases records.len(),
{
    if records.len() == 0 {
        Some(Seq::empty())
    } else {
        match (stamped_all(records.drop_last(), now), stamped(records.last(), now)) {
            (Some(before), Some(item)) => Some(before.push(item)),
            _ => None,
        }
    }
}

/// The partitions of the records of one request at the instant `now`: every record stamped,
/// then sorted by the hour of its timestamp. `None` where a record cannot be stamped or its
/// timestamp lies outside the span that nanoseconds in 64 bits cover.
pub open spec fn request_partitions(
    records: Seq<JsonView>,
    now: i64,
) -> Option<Seq<PartitionView>> {
    match stamped_all(records, now) {
        Some(items) => if all_partitionable(items) {
            Some(partitioned(items))
        } else {
            None
        },
        None => None,
    }
}

/// Whether `r` is the outcome that `expected` asks for.
pub open spec fn is_partitioned(
    expected: Option<Seq<PartitionView>>,
    r: Result<Vec<Partition>, MeltError>,
) -> bool {
    match expected {
        Some(views) => r matches Ok(partitions) && partition_views(partitions@) == views,
        None => r matches Err(e) && e.kind == ErrorKind::BadInput,
    }
}

/// Stamps the records of one request at the instant `now` and sorts them into partitions.
pub fn partition_records_at(records: Vec<Json>, now: i64) -> (r: Result<Vec<Partition>, MeltError>)
    ensures
        is_partitioned(request_partitions(json_views(records@), now), r),
        r matches Ok(partitions) ==> forall|j: int|
            0 <= j < partitions@.len() ==> stamps_match((#[trigger] partitions@[j])@) && shares_key(
                partitions@[j]@,
            ),
{
    let ghost raw = records@;
    let ghost all = json_views(raw);
    let mut items: Vec<(i64, Json)> = Vec::new();
    proof {
        assert(stamped_views(items@) =~= Seq::<(i64, JsonView)>::empty());
    }
    for record in it: records.into_iter()
        invariant
            it.seq() == raw,
            all == json_views(raw),
            stamped_all(all.take(it.index() as int), now) == Some(stamped_views(items@)),
    {
        let ghost n = it.index() as int;
        proof {
            assert(all.take(n + 1).drop_last() =~= all.take(n));
            assert(all.take(n + 1).last() == record@);
        }
        match stamp_record(record, now) {
            Ok(item) => {
                let ghost before = stamped_views(items@);
                let ghost view = (item.0, item.1@);
                items.push(item);
                proof {
                    assert(stamped_views(items@) =~= before.push(view));
                }
            },
            Err(e) => {
                proof {
                    lemma_stamping_fails_later(all, now, n + 1);
                }
                return Err(e);
            },
        }
    }
    proof {
        assert(all.take(all.len() as int) =~= all);
        lemma_stamped_all_carry(all, now);
    }
    let ghost stamped_items = stamped_views(items@);
    let made = partition_stamped(items);
    proof {
        if made is Ok {
            let partitions = made->Ok_0;
            assert forall|j: int| 0 <= j < partitions@.len() implies stamps_match(
                (#[trigger] partitions@[j])@,
            ) && shares_key(partitions@[j]@) by {
                assert(partition_views(partitions@)[j] == partitions@[j]@);
                lemma_partitions_are_sound(stamped_items, j);
            }
        }
    }
    made
}

/// Every record that was stamped carries its timestamp.
pub proof fn lemma_stamped_all_carry(records: Seq<JsonView>, now: i64)
    requires
        stamped_all(records, now) is Some,
    ensures
        all_carry(stamped_all(records, now)->0),
    decreases records.len(),
{
    if records.len() > 0 {
        lemma_stamped_all_carry(records.drop_last(), now);
        lemma_stamped_carries(records.last(), now);
        let before = stamped_all(records.drop_last(), now)->0;
        let item = stamped(records.last(), now)->0;
        let all = stamped_all(records, now)->0;
        assert forall|i: int| 0 <= i < all.len() implies carried_stamp((#[trigger] all[i]).1) == Some(
            all[i].0 as int,
        ) by {
            if i < before.len() {
                assert(all[i] == before[i]);
            } else {
                assert(all[i] == item);
            }
        }
    }
}

/// Where the first `n` records cannot all be stamped, all records cannot.
proof fn lemma_stamping_fails_later(records: Seq<JsonView>, now: i64, n: int)
    requires
        0 <= n <= records.len(),
        stamped_all(records.take(n), now) is None,
    ensures
        stamped_all(records, now) is None,
    decreases records.len() - n,
{
    if n < records.len() {
        assert(records.take(n + 1).drop_last() =~= records.take(n));
        lemma_stamping_fails_later(records, now, n + 1);
    } else {
        assert(records.take(n) =~= records);
    }
}

/// Whether the timestamps of a partition are those that its records carry.
pub fn stamps_match_records(partition: &Partition) -> (b: bool)
    ensures
        b == stamps_match(partition@),
{
    if partition.stamps.len() != partition.records.len() {
        return false;
    }
    let ghost records = json_views(partition.records@);
    let mut k: usize = 0;
    while k < partition.stamps.len()
        invariant
            k <= partition.stamps.len(),
            partition.stamps.len() == partition.records.len(),
            records == json_views(partition.records@),
            forall|i: int|
                0 <= i < k ==> carried_stamp(#[trigger] records[i]) == Some(
                    partition.stamps@[i] as int,
                ),
        decreases partition.stamps.len() - k,
    {
        let stamp = partition.stamps[k];
        let carried = match get_member(&partition.records[k], TIMPSTAMP_FIELD_NAME) {
            Some(Json::Int(t)) => *t == stamp,
            Some(Json::UInt(t)) => stamp >= 0 && *t == stamp as u64,
            _ => false,
        };
        proof {
            assert(records[k as int] == partition.records@[k as int]@);
        }
        if !carried {
            return false;
        }
        k = k + 1;
    }
    true
}

} // verus!
