use vstd::prelude::*;
use vstd::utf8::*;

verus! {

broadcast use vstd::utf8::group_utf8_lib;

/// Capacity of the buffer handed to the host for the local address.
pub const LOCAL_ADDRESS_CAPACITY: usize = 100;

/// Why a value coming back across the boundary was not accepted.
#[derive(Clone, Copy, Debug, PartialEq, Eq, Structural)]
pub enum BoundaryError {
    /// The host reported a failure with this negative code.
    Host(i32),
    /// The host claimed to have written more bytes than the buffer holds.
    Overrun(i32),
    /// The written bytes are not valid UTF-8.
    Decode,
    /// A digital read gave a raw value that is neither LOW nor HIGH.
    InvalidVoltage(u32),
}

/// How many bytes of a buffer of `capacity` bytes the host wrote, given the
/// code it returned.
pub open spec fn spec_written(code: i32, capacity: nat) -> Result<nat, BoundaryError> {
    if code < 0 {
        Err(BoundaryError::Host(code))
    } else if code > capacity {
        Err(BoundaryError::Overrun(code))
    } else {
        Ok(code as nat)
    }
}

/// The text a host-written buffer holds, given the code the host returned.
pub open spec fn spec_decoded(buffer: Seq<u8>, code: i32) -> Result<Seq<char>, BoundaryError> {
    match spec_written(code, buffer.len()) {
        Err(e) => Err(e),
        Ok(k) => if valid_utf8(buffer.take(k as int)) {
            Ok(decode_utf8(buffer.take(k as int)))
        } else {
            Err(BoundaryError::Decode)
        },
    }
}

/// Relies on std::str::from_utf8: it succeeds exactly on valid UTF-8, and the
/// text it gives is what those bytes encode.
#[verifier::external_body]
fn utf8_text(bytes: &[u8]) -> (r: Option<&str>)
    ensures
        r is Some <==> valid_utf8(bytes@),
        r matches Some(s) ==> s@ == decode_utf8(bytes@),
{
    std::str::from_utf8(bytes).ok()
}

/// Checks the length the host claims to have written into a buffer of
/// `capacity` bytes: a negative code is the host's error, and a claim past
/// the end of the buffer is never believed.
pub fn written_length(code: i32, capacity: usize) -> (r: Result<usize, BoundaryError>)
    ensures
        r matches Ok(k) ==> spec_written(code, capacity as nat) == Ok::<nat, BoundaryError>(k as nat),
        r matches Err(e) ==> spec_written(code, capacity as nat) == Err::<nat, BoundaryError>(e),
{
    if code < 0 {
        Err(BoundaryError::Host(code))
    } else if code as usize > capacity {
        Err(BoundaryError::Overrun(code))
    } else {
        Ok(code as usize)
    }
}

/// Decodes the text the host wrote at the start of `buffer`, `code` being
/// what the host call returned. Bytes past the written length are ignored.
pub fn decode_written(buffer: &[u8], code: i32) -> (r: Result<String, BoundaryError>)
    ensures
        r matches Ok(s) ==> spec_decoded(buffer@, code) == Ok::<Seq<char>, BoundaryError>(s@),
        r matches Err(e) ==> spec_decoded(buffer@, code) == Err::<Seq<char>, BoundaryError>(e),
{
    match written_length(code, buffer.len()) {
        Err(e) => Err(e),
        Ok(k) => {
            let region = &buffer[0..k];
            assert(region@ == buffer@.take(k as int));
            match utf8_text(region) {
                Some(s) => Ok(s.to_owned()),
                None => Err(BoundaryError::Decode),
            }
        },
    }
}

/// Only the written prefix decides what a buffer decodes to, and text that
/// decodes re-encodes to exactly the bytes written.
pub proof fn lemma_decode_reads_written_prefix(a: Seq<u8>, b: Seq<u8>, code: i32)
    requires
        0 <= code <= a.len(),
        code <= b.len(),
        a.take(code as int) == b.take(code as int),
    ensures
        spec_decoded(a, code) == spec_decoded(b, code),
        spec_decoded(a, code) matches Ok(s) ==> encode_utf8(s) == a.take(code as int),
{
}

/// Headers of an HTTP POST request.
pub struct Headers {
    pub content_type: &'static str,
    pub authorization: &'static str,
}

/// An HTTP POST request: where it goes, what it carries, and its headers.
pub struct PostOptions {
    pub uri: &'static str,
    pub body: String,
    pub headers: Headers,
}

/// Byte length of a string's UTF-8 encoding.
pub open spec fn byte_len(s: Seq<char>) -> nat {
    encode_utf8(s).len()
}

/// Total bytes of the URI, body and content type of a POST request.
pub fn size_of_post_options(options: &PostOptions) -> (r: usize)
    requires
        byte_len(options.uri@) + byte_len(options.body@) + byte_len(options.headers.content_type@)
            <= usize::MAX,
    ensures
        r == byte_len(options.uri@) + byte_len(options.body@) + byte_len(options.headers.content_type@),
{
    options.uri.len() + options.body.as_str().len() + options.headers.content_type.len()
}

} // verus!
