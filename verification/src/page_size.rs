//! The size of a memory page of the system.
use nix::errno::Errno;
use nix::unistd::{sysconf, SysconfVar};
use vstd::prelude::*;

verus! {

/// An error number of the system, which is carried and not looked into.
#[verifier::external_type_specification]
#[verifier::external_body]
pub struct ExErrno(Errno);

/// Asks the system for its page size, through `nix::unistd::sysconf` with the
/// variable `PAGE_SIZE`.
///
/// The answer is up to the system, and nothing is promised of it except that
/// the raw value `-1` never comes as a size: `sysconf` turns it into an error,
/// or into `None` where the system gave no error number.
#[verifier::external_body]
fn query_page_size() -> (reply: Result<Option<i64>, Errno>)
    ensures
        reply.is_ok() && reply.unwrap().is_some() ==> reply.unwrap().unwrap() != -1,
{
    sysconf(SysconfVar::PAGE_SIZE).map(|size| size.map(i64::from))
}

/// The system can answer the question for its page size in this way.
pub closed spec fn system_may_reply(reply: Result<Option<i64>, Errno>) -> bool {
    call_ensures(query_page_size, (), reply)
}

/// The page size that an answer of the system names: a positive number that a
/// `usize` can hold.
pub open spec fn named_page_size(reply: Result<Option<i64>, Errno>) -> Option<usize> {
    match reply {
        Ok(Some(size)) => if 0 < size <= usize::MAX {
            Some(size as usize)
        } else {
            None
        },
        _ => None,
    }
}

/// The page size that an answer of the system names: a positive number that a
/// `usize` can hold.
pub fn page_size_of_reply(reply: Result<Option<i64>, Errno>) -> (page_size: Option<usize>)
    ensures
        page_size == named_page_size(reply),
        match reply {
            Ok(Some(size)) => {
                &&& 0 < size <= usize::MAX ==> page_size.is_some() && page_size.unwrap() == size
                &&& !(0 < size <= usize::MAX) ==> page_size.is_none()
            },
            Ok(None) => page_size.is_none(),
            Err(_) => page_size.is_none(),
        },
{
    match reply {
        Ok(Some(size)) => if 0 < size && size as u64 <= usize::MAX as u64 {
            Some(size as usize)
        } else {
            None
        },
        _ => None,
    }
}

/// The page size of the system, or `None` where it does not name one.
pub fn get_page_size() -> (page_size: Option<usize>)
    ensures
        exists|reply: Result<Option<i64>, Errno>|
            {
                &&& #[trigger] system_may_reply(reply)
                &&& page_size == named_page_size(reply)
                &&& match page_size {
                    Some(named) => reply.is_ok() && reply.unwrap() == Some(named as i64),
                    None => !(reply.is_ok() && reply.unwrap().is_some() && 0
                        < reply.unwrap().unwrap() <= usize::MAX),
                }
            },
        page_size matches Some(size) ==> 0 < size <= i64::MAX,
{
    let reply: Result<Option<i64>, Errno> = query_page_size();
    assert(system_may_reply(reply));
    page_size_of_reply(reply)
}

/// Every positive size that a `usize` can hold is a page size.
pub proof fn law_positive_size_is_named(size: i64)
    requires
        0 < size <= usize::MAX,
    ensures
        named_page_size(Ok(Some(size))).is_some(),
        named_page_size(Ok(Some(size))).unwrap() == size,
{
}

/// A page size is named by one answer only, the one that gives that size: no
/// other answer names one, and different answers name different sizes.
pub proof fn law_page_size_is_the_reply(reply: Result<Option<i64>, Errno>)
    requires
        named_page_size(reply).is_some(),
    ensures
        reply.is_ok(),
        reply.unwrap().is_some(),
        reply.unwrap().unwrap() == named_page_size(reply).unwrap(),
        0 < reply.unwrap().unwrap(),
{
}

/// What the system may answer is what the query for its page size may return.
proof fn law_reply_is_of_the_query(reply: Result<Option<i64>, Errno>)
    ensures
        system_may_reply(reply) <==> call_ensures(query_page_size, (), reply),
{
}

/// The system never answers with the raw value that stands for no answer.
pub proof fn law_system_reply_is_no_sentinel(reply: Result<Option<i64>, Errno>)
    requires
        system_may_reply(reply),
    ensures
        reply.is_ok() && reply.unwrap().is_some() ==> reply.unwrap().unwrap() != -1,
{
    law_reply_is_of_the_query(reply);
}

} // verus!
