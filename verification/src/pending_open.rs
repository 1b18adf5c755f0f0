use vstd::prelude::*;

verus! {

/// The file that the next window should open, if one is waiting.  Each request
/// replaces the previous one; taking it leaves nothing behind.
pub struct PendingOpen {
    latest: Option<String>,
}

/// The waiting path after a request for `path`.
pub open spec fn spec_put(state: Option<Seq<char>>, path: Seq<char>) -> Option<Seq<char>> {
    Some(path)
}

/// What taking gives (first) and what stays behind (second).
pub open spec fn spec_take(state: Option<Seq<char>>) -> (Option<Seq<char>>, Option<Seq<char>>) {
    (state, None)
}

impl View for PendingOpen {
    type V = Option<Seq<char>>;

    closed spec fn view(&self) -> Option<Seq<char>> {
        match self.latest {
            Some(p) => Some(p@),
            None => None,
        }
    }
}

impl Default for PendingOpen {
    fn default() -> (r: Self)
        ensures
            r@ is None,
    {
        PendingOpen { latest: None }
    }
}

impl PendingOpen {
    /// Nothing waiting.
    pub fn new() -> (r: Self)
        ensures
            r@ is None,
    {
        PendingOpen { latest: None }
    }

    /// Records `path` as the file to open, replacing any earlier request.
    pub fn put(&mut self, path: String)
        ensures
            final(self)@ == spec_put(old(self)@, path@),
    {
        self.latest = Some(path);
    }

    /// Hands out the waiting path, if any, and forgets it.
    pub fn take(&mut self) -> (r: Option<String>)
        ensures
            match r {
                Some(p) => spec_take(old(self)@).0 == Some(p@),
                None => spec_take(old(self)@).0 is None,
            },
            final(self)@ == spec_take(old(self)@).1,
    {
        let r = self.latest.take();
        r
    }
}

/// The latest request wins: after requests for `a` and then `b`, taking gives `b`.
pub proof fn lemma_latest_request_wins(state: Option<Seq<char>>, a: Seq<char>, b: Seq<char>)
    ensures
        spec_take(spec_put(spec_put(state, a), b)).0 == Some(b),
{
}

/// A request is handed out once: taking right after taking gives nothing.
pub proof fn lemma_take_empties(state: Option<Seq<char>>)
    ensures
        spec_take(spec_take(state).1).0 is None,
{
}

} // verus!
