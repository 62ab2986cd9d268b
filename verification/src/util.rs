use vstd::prelude::*;

use crate::errors::FetchError;

verus! {

/// Cap on the redirect chain one fetch follows.
pub const REDIRECT_CAP: u32 = 10;

/// What a fetch does after one HTTP response.
#[derive(Debug)]
pub enum FetchStep {
    /// The body is the content: write it to the destination.
    Save,
    /// Re-issue the request against this location.
    Follow(String),
    /// Give up with this error.
    Fail(FetchError),
}

/// Decide the next step of a fetch from one HTTP response: a status of
/// 400 or above is a rejection; a 3xx status follows its `Location`
/// header, but only below the redirect cap and only when the header is
/// present; anything below 300 is content to save.
pub fn fetch_step(status: u16, location: Option<String>, redirects: u32, cap: u32) -> (r:
    FetchStep)
    ensures
        status >= 400 ==> (r matches FetchStep::Fail(e) && e == FetchError::RemoteRejected(
            status,
        )),
        300 <= status < 400 && redirects >= cap ==> (r matches FetchStep::Fail(e) && e
            == FetchError::TooManyRedirects),
        300 <= status < 400 && redirects < cap && location is None ==> (r matches FetchStep::Fail(
            e,
        ) && e == FetchError::IOFailure),
        300 <= status < 400 && redirects < cap ==> (location matches Some(l) ==> (r
            matches FetchStep::Follow(u) && u@ == l@)),
        status < 300 ==> r matches FetchStep::Save,
{
    if status >= 400 {
        FetchStep::Fail(FetchError::RemoteRejected(status))
    } else if status >= 300 {
        if redirects >= cap {
            FetchStep::Fail(FetchError::TooManyRedirects)
        } else {
            match location {
                Some(l) => FetchStep::Follow(l),
                None => FetchStep::Fail(FetchError::IOFailure),
            }
        }
    } else {
        FetchStep::Save
    }
}

/// Connection settings for a fetch.  The proxy option is accepted but
/// not yet routed into the request.
pub struct Agent {}

impl Agent {
    /// An agent for the given proxy setting.
    pub fn new(_proxy: &str) -> (a: Agent) {
        Agent {  }
    }
}

/// Each part followed by one space, all run together.
pub open spec fn spec_log_parts(parts: Seq<Seq<char>>) -> Seq<char>
    decreases parts.len(),
{
    if parts.len() == 0 {
        Seq::<char>::empty()
    } else {
        parts[0] + " "@ + spec_log_parts(parts.skip(1))
    }
}

/// One log line: the tag, then each part with a trailing space.
pub fn log_line(tag: &str, parts: &Vec<String>) -> (r: String)
    ensures
        r@ == tag@ + spec_log_parts(parts@.map_values(|s: String| s@)),
{
    let ghost pv = parts@.map_values(|s: String| s@);
    let mut acc = tag.to_owned();
    proof {
        assert(pv.skip(0) =~= pv);
    }
    let n = parts.len();
    let mut i: usize = 0;
    while i < n
        invariant
            pv == parts@.map_values(|s: String| s@),
            n == parts.len(),
            0 <= i <= n,
            tag@ + spec_log_parts(pv) == acc@ + spec_log_parts(pv.skip(i as int)),
        decreases n - i,
    {
        let part = &parts[i];
        acc.append(part.as_str());
        acc.append(" ");
        proof {
            assert(pv.skip(i as int)[0] == pv[i as int]);
            assert(pv.skip(i as int).skip(1) =~= pv.skip(i as int + 1));
        }
        i = i + 1;
    }
    proof {
        assert(acc@ + spec_log_parts(pv.skip(n as int)) =~= acc@);
    }
    acc
}

} // verus!
