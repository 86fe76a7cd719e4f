//! Bodies of requests and answers.

use vstd::prelude::*;
use vstd::string::*;
use crate::answer::{ApiError, Refusal};
use crate::browse;
use crate::text::{self, has_prefix};

verus! {

/// The longest body that a request may have.
pub const MAX_BODY: usize = 2_097_152;

/// What was read from the body of a request.
pub struct SimdJson<T>(pub T);

impl<T> SimdJson<T> {
    /// The value that was read.
    pub fn into_inner(self) -> (r: T)
        ensures
            r == self.0,
    {
        self.0
    }
}

/// Takes in the next piece of a request's body. A body that grows too long is
/// refused, and what was there of it stays.
pub fn take_chunk(body: &mut Vec<u8>, chunk: &[u8]) -> (r: Result<(), ApiError>)
    ensures
        r is Ok <==> old(body)@.len() + chunk@.len() <= MAX_BODY,
        r is Ok ==> final(body)@ == old(body)@ + chunk@,
        r matches Err(e) ==> final(body)@ == old(body)@ && e.says(
            Refusal::BadRequest,
            "request body too large"@,
        ),
{
    let used: usize = body.len();
    let more: usize = chunk.len();
    if used > MAX_BODY || more > MAX_BODY - used {
        return Err(ApiError::BadRequest("request body too large".to_owned()));
    }
    let ghost start = body@;
    let mut i: usize = 0;
    proof {
        assert(chunk@.take(0) =~= Seq::<u8>::empty());
        assert(start + chunk@.take(0) =~= start);
    }
    while i < chunk.len()
        invariant
            i <= chunk@.len(),
            body@ == start + chunk@.take(i as int),
        decreases chunk@.len() - i,
    {
        body.push(chunk[i]);
        i += 1;
        proof {
            assert(chunk@.take(i as int) =~= chunk@.take(i - 1).push(chunk@[i - 1]));
            assert(body@ =~= start + chunk@.take(i as int));
        }
    }
    proof {
        assert(chunk@.take(i as int) =~= chunk@);
    }
    Ok(())
}

/// A page of a list as it is sent.
pub struct QueryResult<T> {
    pub items: Vec<T>,
    pub total_record_count: u32,
    pub start_index: u32,
}

/// Makes a page of a list.
pub fn query_result<T>(items: Vec<T>, total_record_count: u32, start_index: u32) -> (r: QueryResult<
    T,
>)
    ensures
        r.items == items,
        r.total_record_count == total_record_count,
        r.start_index == start_index,
{
    QueryResult { items, total_record_count, start_index }
}

/// Whether the content type of a request names JSON.
pub fn is_json_content_type(content_type: Option<&str>) -> (r: bool)
    ensures
        r == (match browse::opt_str(content_type) {
            Some(t) => text::starts_with(t, "application/json"@),
            None => false,
        }),
{
    match content_type {
        Some(t) => has_prefix(t, "application/json"),
        None => false,
    }
}

/// Pieces that fit together are taken in whole, in whatever way the body is cut:
/// two pieces are as good as the one that they make.
pub proof fn law_cuts_do_not_matter(body: Seq<u8>, a: Seq<u8>, b: Seq<u8>)
    ensures
        (body + a) + b == body + (a + b),
        (body + a).len() + b.len() <= MAX_BODY <==> body.len() + (a + b).len() <= MAX_BODY,
{
    assert((body + a) + b =~= body + (a + b));
}

} // verus!
