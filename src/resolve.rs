//! The backend resolver: an immutable table from hostname to backend address.

use vstd::prelude::*;

verus! {

/// The table that a list of entries describes; a later entry for the same
/// hostname replaces an earlier one.
pub open spec fn entries_map(s: Seq<(Seq<char>, Seq<char>)>) -> Map<Seq<char>, Seq<char>>
    decreases s.len(),
{
    if s.len() == 0 {
        Map::empty()
    } else {
        entries_map(s.drop_last()).insert(s.last().0, s.last().1)
    }
}

/// Hostname to `host:port` backend address.
pub struct Config {
    backends: Vec<(String, String)>,
}

impl Config {
    pub closed spec fn entries(&self) -> Seq<(Seq<char>, Seq<char>)> {
        self.backends@.map_values(|e: (String, String)| (e.0@, e.1@))
    }
}

impl View for Config {
    type V = Map<Seq<char>, Seq<char>>;

    closed spec fn view(&self) -> Map<Seq<char>, Seq<char>> {
        entries_map(self.entries())
    }
}

/// Entries after `i` that do not name `k` leave its lookup to those before.
proof fn lemma_lookup_prefix(s: Seq<(Seq<char>, Seq<char>)>, k: Seq<char>, i: int)
    requires
        0 <= i <= s.len(),
        forall|m: int| i <= m < s.len() ==> s[m].0 != k,
    ensures
        entries_map(s).contains_key(k) == entries_map(s.subrange(0, i)).contains_key(k),
        entries_map(s)[k] == entries_map(s.subrange(0, i))[k],
    decreases s.len() - i,
{
    if i < s.len() {
        assert(s.drop_last() =~= s.subrange(0, s.len() - 1));
        lemma_lookup_prefix(s.drop_last(), k, i);
        assert(s.drop_last().subrange(0, i) =~= s.subrange(0, i));
    } else {
        assert(s.subrange(0, i) =~= s);
    }
}

impl Config {
    /// An empty table.
    pub fn new() -> (r: Config)
        ensures
            r@ == Map::<Seq<char>, Seq<char>>::empty(),
    {
        let r = Config { backends: Vec::new() };
        assert(r.entries() =~= Seq::empty());
        r
    }

    /// Sets the backend of `host`.
    pub fn insert(&mut self, host: String, addr: String)
        ensures
            final(self)@ == old(self)@.insert(host@, addr@),
    {
        let ghost e0 = self.entries();
        self.backends.push((host, addr));
        assert(self.entries().drop_last() =~= e0);
    }

    /// The backend of `host`: exact match only.
    pub fn resolve(&self, host: &String) -> (r: Option<String>)
        ensures
            self@.contains_key(host@) ==> r is Some && r->0@ == self@[host@],
            !self@.contains_key(host@) ==> r is None,
    {
        let mut i: usize = self.backends.len();
        while i > 0
            invariant
                i <= self.backends@.len(),
                self.entries().len() == self.backends@.len(),
                forall|m: int| i <= m < self.entries().len() ==> self.entries()[m].0 != host@,
            decreases i,
        {
            let e = &self.backends[i - 1];
            if e.0 == *host {
                proof {
                    let s = self.entries();
                    lemma_lookup_prefix(s, host@, i as int);
                    assert(s.subrange(0, i as int).drop_last() =~= s.subrange(0, i - 1));
                }
                return Some(e.1.clone());
            }
            i = i - 1;
        }
        proof {
            lemma_lookup_prefix(self.entries(), host@, 0);
        }
        None
    }
}

} // verus!
