//! Poll/dispatch session state: which recordings were already
//! processed, which capture URLs to poll, and the request paths.
//!
//! The HTTP calls run outside the library; every decision of the
//! polling loop — keying, dedup, the bounded processed-set, and the
//! fallback to the configured URL — is here.

use vstd::prelude::*;
use crate::text::str_eq;

verus! {

/// Cap on the processed-set before it is cleared wholesale.
pub open spec fn processed_cap() -> int {
    10000
}

/// The session-local set of already-processed recordings, keyed by
/// `<peer-url>:<filename>`.
pub struct ProcessedSet {
    pub keys: Vec<String>,
}

impl ProcessedSet {
    /// The keys seen so far.
    pub open spec fn view_keys(&self) -> Seq<Seq<char>> {
        self.keys@.map_values(|k: String| k@)
    }

    pub fn new() -> (r: ProcessedSet)
        ensures
            r.view_keys() == Seq::<Seq<char>>::empty(),
    {
        let s = ProcessedSet { keys: Vec::new() };
        proof {
            assert(s.view_keys() =~= Seq::<Seq<char>>::empty());
        }
        s
    }

    pub fn len(&self) -> (r: usize)
        ensures
            r == self.view_keys().len(),
    {
        self.keys.len()
    }

    /// Whether this key was already processed this session.
    pub fn contains(&self, key: &str) -> (r: bool)
        ensures
            r == self.view_keys().contains(key@),
    {
        let n = self.keys.len();
        let mut i: usize = 0;
        while i < n
            invariant
                0 <= i <= n,
                n == self.keys@.len(),
                forall|j: int| 0 <= j < i ==> (#[trigger] self.keys@[j])@ != key@,
            decreases n - i,
        {
            if str_eq(self.keys[i].as_str(), key) {
                proof {
                    assert(self.view_keys()[i as int] == key@);
                }
                return true;
            }
            i = i + 1;
        }
        proof {
            let vw = self.view_keys();
            assert(!vw.contains(key@)) by {
                if vw.contains(key@) {
                    let j = choose|j: int| 0 <= j < vw.len() && vw[j] == key@;
                    assert(vw[j] == self.keys@[j]@);
                }
            }
        }
        false
    }

    /// Record a key as processed; a key already present is not
    /// duplicated.
    pub fn note(&mut self, key: String)
        ensures
            old(self).view_keys().contains(key@) ==> final(self).view_keys() == old(
                self,
            ).view_keys(),
            !old(self).view_keys().contains(key@) ==> final(self).view_keys() == old(
                self,
            ).view_keys().push(key@),
    {
        if !self.contains(key.as_str()) {
            let ghost before = self.view_keys();
            let ghost kv = key@;
            self.keys.push(key);
            proof {
                assert(self.view_keys() =~= before.push(kv));
            }
        }
    }

    /// Clear the set wholesale once it passes the cap, bounding the
    /// session's memory.
    pub fn prune(&mut self)
        ensures
            old(self).view_keys().len() > processed_cap() ==> final(self).view_keys()
                == Seq::<Seq<char>>::empty(),
            old(self).view_keys().len() <= processed_cap() ==> final(self).view_keys() == old(
                self,
            ).view_keys(),
    {
        if self.keys.len() > 10000 {
            self.keys.clear();
            proof {
                assert(self.view_keys() =~= Seq::<Seq<char>>::empty());
            }
        }
    }
}

/// The dedup key of one recording on one peer.
pub fn processed_key(base_url: &str, filename: &str) -> (r: String)
    ensures
        r@ == base_url@ + ":"@ + filename@,
{
    let mut out = String::from_str(base_url);
    out.append(":");
    out.append(filename);
    out
}

/// `<base>/api/recordings`.
pub fn recordings_url(base_url: &str) -> (r: String)
    ensures
        r@ == base_url@ + "/api/recordings"@,
{
    let mut out = String::from_str(base_url);
    out.append("/api/recordings");
    out
}

/// `<base>/api/recordings/<name>`.
pub fn recording_url(base_url: &str, filename: &str) -> (r: String)
    ensures
        r@ == base_url@ + "/api/recordings/"@ + filename@,
{
    let mut out = String::from_str(base_url);
    out.append("/api/recordings/");
    out.append(filename);
    out
}

/// The capture URLs one polling round uses: what discovery found, or
/// the configured single URL when discovery came back empty.
pub fn capture_urls_from(discovered: Vec<String>, fallback: &str) -> (r: Vec<String>)
    ensures
        discovered@.len() > 0 ==> r == discovered,
        discovered@.len() == 0 ==> r@.len() == 1 && r@[0]@ == fallback@,
{
    if discovered.len() > 0 {
        discovered
    } else {
        let mut v: Vec<String> = Vec::new();
        v.push(String::from_str(fallback));
        v
    }
}

/// Whether two URL lists differ, element for element.
pub fn urls_changed(a: &Vec<String>, b: &Vec<String>) -> (r: bool)
    ensures
        r == (a@.map_values(|x: String| x@) != b@.map_values(|x: String| x@)),
{
    let n = a.len();
    if b.len() != n {
        proof {
            assert(a@.map_values(|x: String| x@).len() == n);
            assert(b@.map_values(|x: String| x@).len() == b@.len());
        }
        return true;
    }
    let mut i: usize = 0;
    while i < n
        invariant
            0 <= i <= n,
            n == a@.len() == b@.len(),
            forall|j: int| 0 <= j < i ==> (#[trigger] a@[j])@ == b@[j]@,
        decreases n - i,
    {
        if !str_eq(a[i].as_str(), b[i].as_str()) {
            proof {
                assert(a@.map_values(|x: String| x@)[i as int] != b@.map_values(
                    |x: String| x@,
                )[i as int]);
            }
            return true;
        }
        i = i + 1;
    }
    proof {
        assert(a@.map_values(|x: String| x@) =~= b@.map_values(|x: String| x@));
    }
    false
}

} // verus!
