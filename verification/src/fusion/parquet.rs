//! Segment files: one batch as a Parquet file.

use crate::error::{ErrorKind, MeltError};
use crate::fusion::arrow::Batch;
use vstd::prelude::*;

verus! {

/// `parquet::errors::ParquetError`, of which only the text is used.
#[verifier::external_type_specification]
#[verifier::external_body]
pub struct ExParquetError(parquet::errors::ParquetError);

/// How the pages of a segment are compressed.
#[derive(Clone, Copy, Debug, PartialEq, Eq, Structural)]
pub enum Compression {
    Uncompressed,
    Snappy,
}

/// What a segment writer is told; everything else is left at the writer's defaults.
#[derive(Clone, Copy, Debug, PartialEq, Eq, Structural)]
pub struct WriterSettings {
    pub compression: Compression,
    pub dictionary_enabled: bool,
}

/// The settings of every segment: Snappy compression, no dictionary encoding.
pub fn segment_settings() -> (s: WriterSettings)
    ensures
        s == (WriterSettings { compression: Compression::Snappy, dictionary_enabled: false }),
{
    WriterSettings { compression: Compression::Snappy, dictionary_enabled: false }
}

/// The Parquet file that the writer makes of one batch, written under the batch's own schema;
/// `None` where it reports an error. It is stated of the batch as it is held: where the schema
/// of a batch carries metadata, the order in which the writer walks them belongs to the batch.
pub uninterp spec fn parquet_file(settings: WriterSettings, batch: Batch) -> Option<Seq<u8>>;

/// parquet's `ArrowWriter` over a buffer in memory, from its making to the file:
/// `WriterProperties::builder` with `set_compression` and `set_dictionary_enabled`, then
/// `ArrowWriter::try_new` with the schema that the batch carries (`RecordBatch::schema`),
/// `write` of the batch and `close`. The writer does not compare a batch with its schema and
/// panics where the two differ; a batch fits the schema that it carries.
#[verifier::external_body]
fn encode_parquet(settings: &WriterSettings, batch: &Batch) -> (r: Result<
    Vec<u8>,
    parquet::errors::ParquetError,
>)
    ensures
        match r {
            Ok(bytes) => parquet_file(*settings, *batch) == Some(bytes@),
            Err(_) => parquet_file(*settings, *batch) is None,
        },
{
    let compression = match settings.compression {
        Compression::Uncompressed => parquet::basic::Compression::UNCOMPRESSED,
        Compression::Snappy => parquet::basic::Compression::SNAPPY,
    };
    let builder = parquet::file::properties::WriterProperties::builder();
    let builder = builder.set_compression(compression);
    let props = builder.set_dictionary_enabled(settings.dictionary_enabled).build();
    let mut datas = Vec::new();
    let schema = batch.inner.schema();
    let mut writer = parquet::arrow::ArrowWriter::try_new(&mut datas, schema, Some(props))?;
    writer.write(&batch.inner)?;
    writer.close()?;
    Ok(datas)
}

/// Encodes one batch as a segment file: a Parquet file with the settings of
/// `segment_settings`, under the schema that the batch carries. Fails where the writer does.
pub fn write_recordbatch(batch: &Batch) -> (r: Result<Vec<u8>, MeltError>)
    ensures
        match parquet_file(
            WriterSettings { compression: Compression::Snappy, dictionary_enabled: false },
            *batch,
        ) {
            Some(bytes) => r matches Ok(datas) && datas@ == bytes,
            None => r matches Err(e) && e.kind == ErrorKind::Internal,
        },
{
    let settings = segment_settings();
    match encode_parquet(&settings, batch) {
        Ok(datas) => Ok(datas),
        Err(e) => Err(MeltError::internal(e.to_string().as_str())),
    }
}

} // verus!
