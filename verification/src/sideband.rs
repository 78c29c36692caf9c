//! Interface rules of the file sideband: a request/response exchange keyed
//! by filename on its own port. Uploads create or overwrite, downloads miss
//! with not-found, anything else is refused. The transport stays outside;
//! this module decides names and status codes.
use vstd::prelude::*;

use vstd::string::StrSliceExecFns;

verus! {

/// The final path component: everything after the last slash.
pub open spec fn after_last_slash(s: Seq<char>) -> Seq<char>
    decreases s.len(),
{
    if s.len() == 0 {
        s
    } else if s.last() == '/' {
        Seq::empty()
    } else {
        after_last_slash(s.drop_last()).push(s.last())
    }
}

/// A usable filename: non-empty and not a relative-path component.
pub open spec fn valid_file_name(f: Seq<char>) -> bool {
    f.len() > 0 && f != "."@ && f != ".."@
}

/// With no slash at or after `start` and a slash (or the string's start)
/// just before it, the final component is the suffix from `start`.
proof fn lemma_after_last_slash(s: Seq<char>, start: int)
    requires
        0 <= start <= s.len(),
        start == 0 || s[start - 1] == '/',
        forall|j: int| start <= j < s.len() ==> s[j] != '/',
    ensures
        after_last_slash(s) == s.skip(start),
    decreases s.len(),
{
    if s.len() == 0 {
        assert(after_last_slash(s) =~= s.skip(start));
    } else if s.last() == '/' {
        assert(start == s.len());
        assert(after_last_slash(s) =~= s.skip(start));
    } else {
        assert(start < s.len());
        lemma_after_last_slash(s.drop_last(), start);
        assert(after_last_slash(s) =~= s.skip(start)) by {
            assert(s.drop_last().skip(start) =~= s.skip(start).drop_last());
        }
    }
}

/// Extract the filename a request path names: the component after the last
/// slash, refused when it is empty or a relative-path component.
pub fn file_name_of(path: &String) -> (r: Option<String>)
    ensures
        match r {
            Some(f) => f@ == after_last_slash(path@) && valid_file_name(f@),
            None => !valid_file_name(after_last_slash(path@)),
        },
{
    let n = path.as_str().unicode_len();
    let mut start: usize = 0;
    let mut i: usize = 0;
    while i < n
        invariant
            i <= n,
            start <= i,
            n == path@.len(),
            start == 0 || path@[start - 1] == '/',
            forall|j: int| start <= j < i ==> path@[j] != '/',
        decreases n - i,
    {
        if path.as_str().get_char(i) == '/' {
            start = i + 1;
        }
        i += 1;
    }
    proof {
        lemma_after_last_slash(path@, start as int);
        reveal_strlit(".");
        reveal_strlit("..");
    }
    let comp = path.as_str().substring_char(start, n);
    let clen = n - start;
    if clen == 0 {
        return None;
    }
    if clen == 1 && comp.get_char(0) == '.' {
        proof {
            assert(comp@ =~= "."@);
        }
        return None;
    }
    if clen == 2 && comp.get_char(0) == '.' && comp.get_char(1) == '.' {
        proof {
            assert(comp@ =~= ".."@);
        }
        return None;
    }
    proof {
        if comp@ == "."@ {
            assert(comp@.len() == 1 && comp@[0] == '.');
        }
        if comp@ == ".."@ {
            assert(comp@.len() == 2 && comp@[0] == '.' && comp@[1] == '.');
        }
    }
    Some(comp.to_owned())
}

/// The method of a sideband request, as far as the rules care.
#[derive(Clone, Copy, Debug, PartialEq, Eq, Structural)]
pub enum FileMethod {
    Get,
    Put,
    Other,
}

/// The status a sideband response carries.
#[derive(Clone, Copy, Debug, PartialEq, Eq, Structural)]
pub enum SidebandStatus {
    Okay,
    Created,
    BadRequest,
    NotFound,
    MethodNotAllowed,
    InternalError,
}

impl SidebandStatus {
    /// The wire code of this status.
    pub fn code(&self) -> (c: u16)
        ensures
            *self is Okay ==> c == 200,
            *self is Created ==> c == 201,
            *self is BadRequest ==> c == 400,
            *self is NotFound ==> c == 404,
            *self is MethodNotAllowed ==> c == 405,
            *self is InternalError ==> c == 500,
    {
        match self {
            SidebandStatus::Okay => 200,
            SidebandStatus::Created => 201,
            SidebandStatus::BadRequest => 400,
            SidebandStatus::NotFound => 404,
            SidebandStatus::MethodNotAllowed => 405,
            SidebandStatus::InternalError => 500,
        }
    }
}

/// What the transport is to do beside answering.
#[derive(Clone, Copy, Debug, PartialEq, Eq, Structural)]
pub enum SidebandAction {
    /// Answer with the status and an empty body.
    Reject,
    /// Store the request body under the filename, then answer.
    SaveUpload,
    /// Answer with the named file's bytes, or an internal error if reading
    /// it fails.
    ServeFile,
}

/// Decide a sideband request: only PUT and GET are allowed; the path must
/// name a usable file; an upload succeeds as created or overwritten by
/// whether the file already existed; a download of an absent file misses.
pub fn plan_file_request(method: FileMethod, valid_name: bool, exists: bool) -> (r: (
    SidebandStatus,
    SidebandAction,
))
    ensures
        method is Other ==> r == (SidebandStatus::MethodNotAllowed, SidebandAction::Reject),
        !(method is Other) && !valid_name ==> r == (
            SidebandStatus::BadRequest,
            SidebandAction::Reject,
        ),
        method is Put && valid_name && exists ==> r == (
            SidebandStatus::Okay,
            SidebandAction::SaveUpload,
        ),
        method is Put && valid_name && !exists ==> r == (
            SidebandStatus::Created,
            SidebandAction::SaveUpload,
        ),
        method is Get && valid_name && !exists ==> r == (
            SidebandStatus::NotFound,
            SidebandAction::Reject,
        ),
        method is Get && valid_name && exists ==> r == (
            SidebandStatus::Okay,
            SidebandAction::ServeFile,
        ),
{
    match method {
        FileMethod::Other => (SidebandStatus::MethodNotAllowed, SidebandAction::Reject),
        FileMethod::Put => {
            if !valid_name {
                (SidebandStatus::BadRequest, SidebandAction::Reject)
            } else if exists {
                (SidebandStatus::Okay, SidebandAction::SaveUpload)
            } else {
                (SidebandStatus::Created, SidebandAction::SaveUpload)
            }
        },
        FileMethod::Get => {
            if !valid_name {
                (SidebandStatus::BadRequest, SidebandAction::Reject)
            } else if !exists {
                (SidebandStatus::NotFound, SidebandAction::Reject)
            } else {
                (SidebandStatus::Okay, SidebandAction::ServeFile)
            }
        },
    }
}

/// The status of a finished download: the file's bytes were read, or the
/// read failed inside the server.
pub fn read_status(read_ok: bool) -> (r: SidebandStatus)
    ensures
        read_ok ==> r == SidebandStatus::Okay,
        !read_ok ==> r == SidebandStatus::InternalError,
{
    if read_ok {
        SidebandStatus::Okay
    } else {
        SidebandStatus::InternalError
    }
}

} // verus!
