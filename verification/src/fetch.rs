//! The HTTP client's settings.
use vstd::prelude::*;

verus! {

/// The settings with which pages are fetched.
pub struct Fetcher {
    user_agent: String,
}

impl Fetcher {
    pub closed spec fn agent(&self) -> Seq<char> {
        self.user_agent@
    }

    /// A fetcher that identifies itself with `user_agent`.
    pub fn new(user_agent: &str) -> (res: Self)
        ensures
            res.agent() == user_agent@,
    {
        Fetcher { user_agent: user_agent.to_owned() }
    }

    /// The `User-Agent` it sends.
    pub fn user_agent(&self) -> (res: &str)
        ensures
            res@ == self.agent(),
    {
        self.user_agent.as_str()
    }
}

} // verus!
