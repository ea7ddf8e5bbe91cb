//! Arrow's types as the library holds them, and batches as Arrow IPC streams.

use crate::error::{ErrorKind, MeltError};
use vstd::prelude::*;

verus! {

/// A columnar batch: rows of records under one schema. It holds an Arrow `RecordBatch`, of
/// which the verifier sees nothing.
#[verifier::external_body]
#[derive(Debug, PartialEq)]
pub struct Batch {
    pub inner: arrow_array::RecordBatch,
}

/// `arrow_schema::Schema`, made of a `MeltSchema` where Arrow is called.
#[verifier::external_type_specification]
#[verifier::external_body]
pub struct ExArrowSchema(arrow_schema::Schema);

/// `arrow_schema::ArrowError`, of which only the text is used.
#[verifier::external_type_specification]
#[verifier::external_body]
pub struct ExArrowError(arrow_schema::ArrowError);

/// The Arrow IPC stream that holds one batch; `None` where the writer reports an error. It is
/// stated of the batch as it is held: where the schema of a batch carries metadata, the order
/// in which the writer walks them belongs to the batch.
pub uninterp spec fn ipc_stream(batch: Batch) -> Option<Seq<u8>>;

/// arrow_ipc's `StreamWriter` over a buffer in memory: `try_new` with the schema of the batch,
/// `write` of the batch, and `finish`.
#[verifier::external_body]
fn encode_stream(record: &Batch) -> (r: Result<Vec<u8>, arrow_schema::ArrowError>)
    ensures
        match r {
            Ok(bytes) => ipc_stream(*record) == Some(bytes@),
            Err(_) => ipc_stream(*record) is None,
        },
{
    let mut datas = Vec::new();
    let schema = record.inner.schema();
    let mut file = arrow_ipc::writer::StreamWriter::try_new(&mut datas, schema.as_ref())?;
    file.write(&record.inner)?;
    file.finish()?;
    drop(file);
    Ok(datas)
}

/// Encodes one batch as an Arrow IPC stream.
pub fn write_recordbatch(record: &Batch) -> (r: Result<Vec<u8>, MeltError>)
    ensures
        match ipc_stream(*record) {
            Some(bytes) => r matches Ok(datas) && datas@ == bytes,
            None => r matches Err(e) && e.kind == ErrorKind::Internal,
        },
{
    match encode_stream(record) {
        Ok(datas) => Ok(datas),
        Err(e) => Err(MeltError::internal(e.to_string().as_str())),
    }
}

} // verus!
