use vstd::prelude::*;

verus! {

// Each recipient address resolves to a webhook endpoint through a
// read-only routing table: the address itself when the table names it,
// else the entry under "default", else the request fails. Resolution
// never depends on other recipients, so deliveries stay independent.

/// A routing failure: an address with neither its own entry nor a
/// default to fall back on.
pub enum RouteError {
    NoRoute(String),
}

/// One planned delivery: the recipient address and the endpoint it
/// resolved to.
pub struct Delivery {
    pub address: String,
    pub url: String,
}

/// A read-only routing table: address to webhook endpoint, with an
/// optional entry under "default" as the fallback. A key may occur more
/// than once; lookups see the first occurrence.
pub struct RoutingTable {
    pub entries: Vec<(String, String)>,
}

/// The first value under the given key, if any.
pub open spec fn table_lookup(entries: Seq<(String, String)>, key: Seq<char>) -> Option<Seq<char>>
    decreases entries.len(),
{
    if entries.len() == 0 {
        None
    } else if entries[0].0@ == key {
        Some(entries[0].1@)
    } else {
        table_lookup(entries.drop_first(), key)
    }
}

impl RoutingTable {
    /// The endpoint stored under the given key, if any.
    pub open spec fn spec_get(self, key: Seq<char>) -> Option<Seq<char>> {
        table_lookup(self.entries@, key)
    }

    /// Where the given address delivers: its own entry, or the default
    /// entry, or nowhere.
    pub open spec fn spec_resolve(self, addr: Seq<char>) -> Option<Seq<char>> {
        match self.spec_get(addr) {
            Some(url) => Some(url),
            None => self.spec_get("default"@),
        }
    }

    /// The fallback, spelled out: an address without an entry of its
    /// own resolves exactly to the default entry, so two such addresses
    /// resolve to the same endpoint.
    pub proof fn lemma_resolve_fallback(self, addr: Seq<char>)
        requires
            self.spec_get(addr) is None,
        ensures
            self.spec_resolve(addr) == self.spec_get("default"@),
    {
    }

    /// An empty routing table.
    pub fn new() -> (r: RoutingTable)
        ensures
            r.entries@.len() == 0,
    {
        RoutingTable { entries: Vec::new() }
    }

    /// Adds an entry at the end of the table.
    pub fn push_route(&mut self, key: String, url: String)
        ensures
            final(self).entries@ == old(self).entries@.push((key, url)),
    {
        self.entries.push((key, url));
    }

    /// Finds the endpoint stored under the given key.
    pub fn get(&self, key: &str) -> (r: Option<&String>)
        ensures
            match r {
                Some(url) => self.spec_get(key@) == Some(url@),
                None => self.spec_get(key@) is None,
            },
    {
        let n = self.entries.len();
        let mut i: usize = 0;
        proof {
            assert(self.entries@.skip(0) =~= self.entries@);
        }
        while i < n
            invariant
                i <= n,
                n == self.entries@.len(),
                table_lookup(self.entries@.skip(i as int), key@) == table_lookup(
                    self.entries@,
                    key@,
                ),
            decreases n - i,
        {
            proof {
                let tail = self.entries@.skip(i as int);
                assert(tail[0] == self.entries@[i as int]);
                assert(tail.drop_first() =~= self.entries@.skip(i + 1));
            }
            let entry_key: &String = &self.entries[i].0;
            let key_string = String::from_str(key);
            if *entry_key == key_string {
                return Some(&self.entries[i].1);
            }
            i += 1;
        }
        proof {
            assert(self.entries@.skip(n as int) =~= Seq::<(String, String)>::empty());
        }
        None
    }

    /// Resolves one address: its own entry, else the default entry,
    /// else a routing failure naming the address.
    pub fn resolve(&self, addr: &str) -> (r: Result<String, RouteError>)
        ensures
            match r {
                Ok(url) => self.spec_resolve(addr@) == Some(url@),
                Err(RouteError::NoRoute(a)) => self.spec_resolve(addr@) is None && a@ == addr@,
            },
    {
        match self.get(addr) {
            Some(url) => Ok(url.clone()),
            None => match self.get("default") {
                Some(url) => Ok(url.clone()),
                None => Err(RouteError::NoRoute(String::from_str(addr))),
            },
        }
    }

    /// Plans one delivery per recipient, in recipient order: every
    /// address resolves, or the first address that cannot resolve fails
    /// the whole plan.
    pub fn plan(&self, to: &Vec<String>) -> (r: Result<Vec<Delivery>, RouteError>)
        ensures
            match r {
                Ok(ds) => {
                    &&& ds@.len() == to@.len()
                    &&& forall|i: int|
                        0 <= i < to@.len() ==> (#[trigger] ds@[i]).address@ == to@[i]@
                            && self.spec_resolve(to@[i]@) == Some(ds@[i].url@)
                },
                Err(RouteError::NoRoute(a)) => exists|i: int|
                    {
                        &&& 0 <= i < to@.len()
                        &&& a@ == (#[trigger] to@[i])@
                        &&& self.spec_resolve(to@[i]@) is None
                        &&& forall|k: int| 0 <= k < i ==> self.spec_resolve(#[trigger] to@[k]@) is Some
                    },
            },
    {
        let n = to.len();
        let mut ds: Vec<Delivery> = Vec::new();
        let mut i: usize = 0;
        while i < n
            invariant
                i <= n,
                n == to@.len(),
                ds@.len() == i,
                forall|k: int|
                    0 <= k < i ==> (#[trigger] ds@[k]).address@ == to@[k]@ && self.spec_resolve(
                        to@[k]@,
                    ) == Some(ds@[k].url@),
            decreases n - i,
        {
            match self.resolve(to[i].as_str()) {
                Ok(url) => {
                    ds.push(Delivery { address: to[i].clone(), url });
                },
                Err(e) => {
                    proof {
                        let wi = i as int;
                        assert forall|k: int| 0 <= k < wi implies self.spec_resolve(
                            #[trigger] to@[k]@,
                        ) is Some by {
                            assert(ds@[k].address@ == to@[k]@);
                        }
                        assert(0 <= wi < to@.len() && self.spec_resolve(to@[wi]@) is None);
                    }
                    return Err(e);
                },
            }
            i += 1;
        }
        Ok(ds)
    }
}

} // verus!
