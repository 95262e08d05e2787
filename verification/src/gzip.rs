//! Data compressed with gzip.

use flate2::read::GzDecoder;
use std::io::Read;
use vstd::prelude::*;

verus! {

/// `std::io::Error`, with which a decoder reports what it could not read.
#[verifier::external_type_specification]
#[verifier::external_body]
pub struct ExIoError(std::io::Error);

/// The contents of the first member of gzip data, as `flate2` decodes it; none where it
/// does not.
pub uninterp spec fn gunzipped(data: Seq<u8>) -> Option<Seq<u8>>;

/// Whether data starts as gzip data does.
pub open spec fn gzip_magic(data: Seq<u8>) -> bool {
    data.len() >= 2 && data[0] == 0x1f && data[1] == 0x8b
}

/// `GzDecoder::new` and `GzDecoder::read_to_end` decode the first member of gzip data to
/// its end, or report an error. A header that does not start as gzip data does is an
/// error. Bytes behind the first member are not looked at.
#[verifier::external_body]
fn gunzip(data: &[u8]) -> (contents: Result<Vec<u8>, std::io::Error>)
    ensures
        match contents {
            Ok(contents) => {
                &&& gunzipped(data@) == Some(contents@)
                &&& gzip_magic(data@)
                &&& forall|more: Seq<u8>| #[trigger] gunzipped(data@ + more) == Some(contents@)
            },
            Err(_) => gunzipped(data@) is None,
        },
{
    let mut contents = Vec::new();
    GzDecoder::new(data).read_to_end(&mut contents)?;
    Ok(contents)
}

/// Why gzip data could not be decompressed.
#[derive(Debug)]
pub enum GzipError {
    /// The decoder could not read it.
    Undecodable(std::io::Error),
}

/// Checks if the provided slice contains gzipped data.
pub fn is_gzip_compressed(slice: &[u8]) -> (compressed: bool)
    ensures
        compressed == gzip_magic(slice@),
{
    slice.len() >= 2 && slice[0] == 0x1f && slice[1] == 0x8b
}

/// The decompressed contents. Only data that `is_gzip_compressed` recognizes has any, and
/// what follows the first member changes nothing.
pub fn decompress_gzip_content(slice: &[u8]) -> (contents: Result<Vec<u8>, GzipError>)
    ensures
        match contents {
            Ok(contents) => {
                &&& gunzipped(slice@) == Some(contents@)
                &&& gzip_magic(slice@)
                &&& forall|more: Seq<u8>| #[trigger] gunzipped(slice@ + more) == Some(contents@)
            },
            Err(GzipError::Undecodable(_)) => gunzipped(slice@) is None,
        },
        !gzip_magic(slice@) ==> contents is Err,
{
    match gunzip(slice) {
        Ok(contents) => Ok(contents),
        Err(error) => Err(GzipError::Undecodable(error)),
    }
}

/// Data counts as gzip data exactly if it is the bytes 31 and 139 and anything behind them.
pub proof fn law_gzip_magic(data: Seq<u8>)
    ensures
        gzip_magic(data) <==> data.len() >= 2 && data.take(2) == seq![31u8, 139u8],
{
    if data.len() >= 2 {
        assert(data.take(2)[0] == data[0] && data.take(2)[1] == data[1]);
        if gzip_magic(data) {
            assert(data.take(2) =~= seq![31u8, 139u8]);
        }
    }
}

} // verus!
