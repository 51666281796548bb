//! The response side of the client: turning decoded wire responses into
//! call results, and the `get` command line's output.
//!
//! The unverified shell opens the connection, sends an encoded request,
//! decodes exactly one response of the matching variant with the transport
//! codec, and hands it here.

use vstd::prelude::*;

use crate::error::KvsError;
use crate::transport::RespGetView;
use crate::transport::RespRemoveView;
use crate::transport::RespSetView;
use crate::transport::ResponseGet;
use crate::transport::ResponseRemove;
use crate::transport::ResponseSet;

verus! {

/// The result of a `get` call: the value the server found, or the server's
/// error carried as a local error.
pub fn interpret_get(resp: ResponseGet) -> (r: Result<Option<String>, KvsError>)
    ensures
        match resp@ {
            RespGetView::Done(opt) => r matches Ok(o) && ((o is Some) <==> (opt is Some)) && (
            o matches Some(s) ==> opt == Some(s@)),
            RespGetView::Fail(m) => r matches Err(e) && e matches KvsError::StringError(t) && t@
                == m,
        },
{
    match resp {
        ResponseGet::Done(v) => Ok(v),
        ResponseGet::Fail(m) => Err(KvsError::StringError(m)),
    }
}

/// The result of a `set` call.
pub fn interpret_set(resp: ResponseSet) -> (r: Result<(), KvsError>)
    ensures
        match resp@ {
            RespSetView::Done => r is Ok,
            RespSetView::Fail(m) => r matches Err(e) && e matches KvsError::StringError(t) && t@
                == m,
        },
{
    match resp {
        ResponseSet::Done => Ok(()),
        ResponseSet::Fail(m) => Err(KvsError::StringError(m)),
    }
}

/// The result of a `remove` call.
pub fn interpret_remove(resp: ResponseRemove) -> (r: Result<(), KvsError>)
    ensures
        match resp@ {
            RespRemoveView::Done => r is Ok,
            RespRemoveView::Fail(m) => r matches Err(e) && e matches KvsError::StringError(t) && t@
                == m,
        },
{
    match resp {
        ResponseRemove::Done => Ok(()),
        ResponseRemove::Fail(m) => Err(KvsError::StringError(m)),
    }
}

/// What the `get` command line prints: the value when there is one, and the
/// fixed not-found line otherwise.
pub fn render_get(v: &Option<String>) -> (r: String)
    ensures
        match v {
            Some(s) => r@ == s@,
            None => r@ == "Key not found"@,
        },
{
    match v {
        Some(s) => s.clone(),
        None => String::from_str("Key not found"),
    }
}

} // verus!
