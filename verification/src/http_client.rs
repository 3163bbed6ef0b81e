//! Requests to the indexer service, which takes protobuf bodies over HTTP
//! POST, and the reading of its replies.  Sending them is the caller's part:
//! each request is a URL and a body, posted with
//! `Content-Type: application/x-protobuf`.

use vstd::prelude::*;
use vstd::string::*;

use crate::proto::{
    checkpoint_request, create_table_request, decode_last_checkpoint,
    decode_last_checkpoint_response, drop_table_request, encode_checkpoint_request,
    encode_create_table_request, encode_drop_table_request, encode_put_batches_request,
    batches_view, put_batches_request, TableBatch,
};

verus! {

/// A POST request to the indexer: where, and with what body.
pub struct HttpPost {
    /// The endpoint's URL.
    pub url: String,
    /// The protobuf-encoded body.
    pub body: Vec<u8>,
}

/// The status and body of the indexer's reply.
pub struct HttpResponse {
    /// HTTP status code.
    pub code: u16,
    /// Response body.
    pub body: Vec<u8>,
}

/// Errors talking to the indexer.
#[derive(Debug, Clone, Copy, PartialEq, Eq)]
pub enum HttpError {
    /// Failed to send the HTTP request.
    SendFailed,
    /// The HTTP request timed out.
    DeadlineReached,
    /// IO or unknown error during the HTTP request.
    IoError,
    /// The server returned a status other than 200.
    Status(u16),
    /// The response body could not be decoded.
    Decode,
}

fn endpoint(base_url: &str, path: &str) -> (r: String)
    ensures
        r@ == base_url@ + path@,
{
    let mut url = base_url.to_owned();
    url.append(path);
    url
}

/// The body of a successful reply: an error from sending passes through, and
/// a status other than 200 is an error.
pub fn read_reply(reply: Result<HttpResponse, HttpError>) -> (r: Result<Vec<u8>, HttpError>)
    ensures
        match reply {
            Err(e) => r == Err::<Vec<u8>, HttpError>(e),
            Ok(resp) => if resp.code != 200 {
                r == Err::<Vec<u8>, HttpError>(HttpError::Status(resp.code))
            } else {
                r matches Ok(body) && body@ == resp.body@
            },
        },
{
    match reply {
        Err(e) => Err(e),
        Ok(resp) => {
            if resp.code != 200 {
                Err(HttpError::Status(resp.code))
            } else {
                Ok(resp.body)
            }
        },
    }
}

/// Reads the reply to a request whose reply body is ignored.
pub fn read_ack(reply: Result<HttpResponse, HttpError>) -> (r: Result<(), HttpError>)
    ensures
        match reply {
            Err(e) => r == Err::<(), HttpError>(e),
            Ok(resp) => if resp.code != 200 {
                r == Err::<(), HttpError>(HttpError::Status(resp.code))
            } else {
                r == Ok::<(), HttpError>(())
            },
        },
{
    match read_reply(reply) {
        Ok(_) => Ok(()),
        Err(e) => Err(e),
    }
}

/// The request for the server's last checkpoint: an empty body.
pub fn get_last_checkpoint(base_url: &str) -> (r: HttpPost)
    ensures
        r.url@ == base_url@ + "/v1/get_last_checkpoint"@,
        r.body@.len() == 0,
{
    HttpPost { url: endpoint(base_url, "/v1/get_last_checkpoint"), body: Vec::new() }
}

/// Reads the server's last checkpoint from its reply: `Some(n)` when it has
/// checkpointed block `n`, `None` when it has no checkpoint.
pub fn read_last_checkpoint(reply: Result<HttpResponse, HttpError>) -> (r: Result<
    Option<u64>,
    HttpError,
>)
    ensures
        match reply {
            Err(e) => r == Err::<Option<u64>, HttpError>(e),
            Ok(resp) => if resp.code != 200 {
                r == Err::<Option<u64>, HttpError>(HttpError::Status(resp.code))
            } else {
                match decode_last_checkpoint_response(resp.body@) {
                    None => r == Err::<Option<u64>, HttpError>(HttpError::Decode),
                    Some((seq, has)) => r == Ok::<Option<u64>, HttpError>(
                        if has {
                            Some(seq)
                        } else {
                            None
                        },
                    ),
                }
            },
        },
{
    let body = match read_reply(reply) {
        Ok(b) => b,
        Err(e) => {
            return Err(e);
        },
    };
    match decode_last_checkpoint(&body) {
        None => Err(HttpError::Decode),
        Some((seq, has)) => Ok(
            if has {
                Some(seq)
            } else {
                None
            },
        ),
    }
}

/// The request registering a new table; `arrow_schema` carries the table's
/// schema (raw DDL bytes in the current protocol).
pub fn create_table(
    base_url: &str,
    sequence_number: u64,
    table_name: String,
    arrow_schema: Vec<u8>,
    key: String,
) -> (r: HttpPost)
    ensures
        r.url@ == base_url@ + "/v1/create_table"@,
        r.body@ == create_table_request(sequence_number, table_name@, arrow_schema@, key@),
{
    HttpPost {
        url: endpoint(base_url, "/v1/create_table"),
        body: encode_create_table_request(sequence_number, &table_name, &arrow_schema, &key),
    }
}

/// The request soft-deleting a table.
pub fn drop_table(base_url: &str, sequence_number: u64, table_name: String) -> (r: HttpPost)
    ensures
        r.url@ == base_url@ + "/v1/drop_table"@,
        r.body@ == drop_table_request(sequence_number, table_name@),
{
    HttpPost {
        url: endpoint(base_url, "/v1/drop_table"),
        body: encode_drop_table_request(sequence_number, &table_name),
    }
}

/// The request ingesting table batches.
pub fn put_batches(base_url: &str, sequence_number: u64, batches: Vec<TableBatch>) -> (r: HttpPost)
    ensures
        r.url@ == base_url@ + "/v1/put_batches"@,
        r.body@ == put_batches_request(sequence_number, batches_view(batches@)),
{
    HttpPost {
        url: endpoint(base_url, "/v1/put_batches"),
        body: encode_put_batches_request(sequence_number, &batches),
    }
}

/// The request recording a checkpoint at the given sequence (block) number.
pub fn checkpoint(base_url: &str, sequence_number: u64) -> (r: HttpPost)
    ensures
        r.url@ == base_url@ + "/v1/checkpoint"@,
        r.body@ == checkpoint_request(sequence_number),
{
    HttpPost {
        url: endpoint(base_url, "/v1/checkpoint"),
        body: encode_checkpoint_request(sequence_number),
    }
}

} // verus!
