use vstd::prelude::*;
use vstd::string::StringExecFns;

verus! {

/// Declares redis's error type so blocking-pop results can cross the
/// library's signatures; the library never looks inside a value of it.
#[verifier::external_type_specification]
#[verifier::external_body]
pub struct ExRedisError(redis::RedisError);

/// The payload element of a blocking-pop reply. A reply is a key/value pair
/// rendered as a list; the item payload is its second element, and anything
/// else — a transport error or a list that is too short — yields nothing.
pub fn queue_payload(result: Result<Vec<String>, redis::RedisError>) -> (r: Option<String>)
    ensures
        match r {
            Some(s) => result matches Ok(v) && v@.len() >= 2 && s@ == v@[1]@,
            None => !(result matches Ok(v) && v@.len() >= 2),
        },
{
    match result {
        Ok(v) => {
            if v.len() >= 2 {
                Some(v[1].clone())
            } else {
                None
            }
        },
        Err(_) => None,
    }
}

/// The queue connection string for a host: the redis scheme around the bare
/// host name.
pub fn redis_url(host: &str) -> (r: String)
    ensures
        r@ == "redis://"@ + host@ + "/"@,
{
    let mut r = "redis://".to_owned();
    r.append(host);
    r.append("/");
    r
}

} // verus!
