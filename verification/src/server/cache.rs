use vstd::prelude::*;

use crate::define::ErrCode;
use crate::define::Ip;
use std::sync::Arc;
use vstd::rwlock::RwLock;
use vstd::rwlock::RwLockPredicate;

verus! {

/// The mathematical contents of an association list, later entries winning:
/// exactly the replacement behaviour of inserting into a map.
pub open spec fn entries_map(s: Seq<(Vec<u8>, Ip)>) -> Map<Seq<u8>, Ip>
    decreases s.len(),
{
    if s.len() == 0 {
        Map::empty()
    } else {
        entries_map(s.drop_last()).insert(s.last().0@, s.last().1)
    }
}

pub open spec fn unique_keys(s: Seq<(Vec<u8>, Ip)>) -> bool {
    forall|p: int, q: int| 0 <= p < q < s.len() ==> s[p].0@ != s[q].0@
}

proof fn lemma_entries_map_present(s: Seq<(Vec<u8>, Ip)>, i: int)
    requires
        0 <= i < s.len(),
        unique_keys(s),
    ensures
        entries_map(s).contains_key(s[i].0@),
        entries_map(s)[s[i].0@] == s[i].1,
    decreases s.len(),
{
    if i < s.len() - 1 {
        assert(unique_keys(s.drop_last()));
        lemma_entries_map_present(s.drop_last(), i);
        assert(s[s.len() - 1].0@ != s[i].0@);
    }
}

proof fn lemma_entries_map_absent(s: Seq<(Vec<u8>, Ip)>, k: Seq<u8>)
    requires
        forall|i: int| 0 <= i < s.len() ==> s[i].0@ != k,
    ensures
        !entries_map(s).contains_key(k),
    decreases s.len(),
{
    if s.len() > 0 {
        lemma_entries_map_absent(s.drop_last(), k);
    }
}

proof fn lemma_entries_map_update(s: Seq<(Vec<u8>, Ip)>, i: int, e: (Vec<u8>, Ip))
    requires
        0 <= i < s.len(),
        unique_keys(s),
        e.0@ == s[i].0@,
    ensures
        entries_map(s.update(i, e)) == entries_map(s).insert(e.0@, e.1),
    decreases s.len(),
{
    let k = e.0@;
    let u = s.update(i, e);
    if i == s.len() - 1 {
        assert(u.drop_last() =~= s.drop_last());
        assert(u.last() == e);
        assert(entries_map(s.drop_last()).insert(k, e.1) =~= entries_map(s.drop_last()).insert(
            k,
            s[i].1,
        ).insert(k, e.1));
    } else {
        assert(unique_keys(s.drop_last()));
        assert(u.drop_last() =~= s.drop_last().update(i, e));
        lemma_entries_map_update(s.drop_last(), i, e);
        assert(u.last() == s.last());
        assert(s.last().0@ != k);
        assert(entries_map(s.drop_last()).insert(k, e.1).insert(s.last().0@, s.last().1)
            =~= entries_map(s.drop_last()).insert(s.last().0@, s.last().1).insert(k, e.1));
    }
}

/// Compares two byte strings for equality.
fn bytes_eq(a: &[u8], b: &[u8]) -> (r: bool)
    ensures
        r == (a@ == b@),
{
    if a.len() != b.len() {
        return false;
    }
    let mut i: usize = 0;
    while i < a.len()
        invariant
            i <= a@.len(),
            a@.len() == b@.len(),
            forall|j: int| 0 <= j < i ==> a@[j] == b@[j],
        decreases a@.len() - i,
    {
        if a[i] != b[i] {
            return false;
        }
        i = i + 1;
    }
    proof {
        assert(a@ =~= b@);
    }
    true
}

/// The domain-to-address table inside the cache's lock: an association list
/// with unique keys, abstracted as a `Map` from domain bytes to addresses.
pub struct CacheMap {
    entries: Vec<(Vec<u8>, Ip)>,
}

impl View for CacheMap {
    type V = Map<Seq<u8>, Ip>;

    closed spec fn view(&self) -> Map<Seq<u8>, Ip> {
        entries_map(self.entries@)
    }
}

impl CacheMap {
    pub closed spec fn wf(&self) -> bool {
        unique_keys(self.entries@)
    }

    pub fn new() -> (r: Self)
        ensures
            r@ == Map::<Seq<u8>, Ip>::empty(),
            r.wf(),
    {
        CacheMap { entries: Vec::new() }
    }

    /// Looks a domain up; `Some` exactly when the key is present, with the
    /// value the table holds for it.
    pub fn lookup(&self, url: &[u8]) -> (r: Option<Ip>)
        requires
            self.wf(),
        ensures
            ({
                match r {
                    Some(ip) => self@.contains_key(url@) && self@[url@] == ip,
                    None => !self@.contains_key(url@),
                }
            }),
    {
        let n = self.entries.len();
        let mut i: usize = 0;
        while i < n
            invariant
                i <= n,
                n == self.entries@.len(),
                self.wf(),
                forall|j: int| 0 <= j < i ==> self.entries@[j].0@ != url@,
            decreases n - i,
        {
            let e = &self.entries[i];
            if bytes_eq(e.0.as_slice(), url) {
                proof {
                    lemma_entries_map_present(self.entries@, i as int);
                }
                return Some(e.1);
            }
            i = i + 1;
        }
        proof {
            lemma_entries_map_absent(self.entries@, url@);
        }
        None
    }

    /// Writes an entry, replacing any entry the key already has:
    /// last-writer-wins, exactly `Map::insert`.
    pub fn insert(&mut self, url: Vec<u8>, ip: Ip)
        requires
            old(self).wf(),
        ensures
            final(self).wf(),
            final(self)@ == old(self)@.insert(url@, ip),
    {
        let n = self.entries.len();
        let mut i: usize = 0;
        while i < n
            invariant
                i <= n,
                n == self.entries@.len(),
                self == old(self),
                self.wf(),
                forall|j: int| 0 <= j < i ==> self.entries@[j].0@ != url@,
            decreases n - i,
        {
            let matched = {
                let e = &self.entries[i];
                bytes_eq(e.0.as_slice(), url.as_slice())
            };
            if matched {
                proof {
                    lemma_entries_map_update(self.entries@, i as int, (url, ip));
                }
                self.entries[i] = (url, ip);
                proof {
                    assert forall|p: int, q: int|
                        0 <= p < q < self.entries@.len() implies self.entries@[p].0@
                        != self.entries@[q].0@ by {
                        assert(old(self).entries@[p].0@ != old(self).entries@[q].0@);
                    }
                }
                return;
            }
            i = i + 1;
        }
        self.entries.push((url, ip));
        proof {
            assert(self.entries@.drop_last() =~= old(self).entries@);
            lemma_entries_map_absent(old(self).entries@, url@);
            assert forall|p: int, q: int|
                0 <= p < q < self.entries@.len() implies self.entries@[p].0@
                != self.entries@[q].0@ by {
                if q < self.entries@.len() - 1 {
                    assert(old(self).entries@[p].0@ != old(self).entries@[q].0@);
                } else {
                    assert(self.entries@[p].0@ != url@);
                }
            }
        }
    }
}

/// The lock invariant of the cache: the table is well formed.
pub struct CacheInv {}

impl RwLockPredicate<CacheMap> for CacheInv {
    open spec fn inv(self, m: CacheMap) -> bool {
        m.wf()
    }
}

struct Inner {
    map: RwLock<CacheMap, CacheInv>,
}

/// The memoizing domain-to-IPv4 cache shared by every remote-side
/// connection. A reader-writer lock guards the table: lookups take the
/// shared side, a miss resolves outside the lock and writes the result back
/// under the exclusive side. Concurrent misses for one domain each resolve
/// and each write; the writes are idempotent for a stable resolver (see
/// `lemma_resolve_race_idempotent`). Entries are never evicted.
#[derive(Clone)]
pub struct DnsCache {
    inner: Arc<Inner>,
}

impl DnsCache {
    pub fn new() -> Self {
        let map = RwLock::new(CacheMap::new(), Ghost(CacheInv {}));
        DnsCache { inner: Arc::new(Inner { map }) }
    }

    /// Resolves a domain, serving repeats from the cache. The fast path
    /// reads under the shared lock; a miss resolves through
    /// `helper::get_ip_addr` and records the answer. Every failure is the
    /// resolver's, reported as `ErrCode::UrlErr`.
    pub fn get_ip(&mut self, url: &[u8]) -> (r: Result<Ip, ErrCode>)
        ensures
            (match r {
                Ok(_) => true,
                Err(e) => e == ErrCode::UrlErr,
            }),
    {
        let cached = {
            let inner: &Inner = &*self.inner;
            let handle = inner.map.acquire_read();
            let found = handle.borrow().lookup(url);
            handle.release_read();
            found
        };
        match cached {
            Some(ip) => Ok(ip),
            None => {
                let ip = match crate::helper::get_ip_addr(url) {
                    Ok(ip) => ip,
                    Err(_) => {
                        return Err(ErrCode::UrlErr);
                    },
                };
                let inner: &Inner = &*self.inner;
                let (mut m, write_handle) = inner.map.acquire_write();
                m.insert(vstd::slice::slice_to_vec(url), ip);
                write_handle.release_write(m);
                Ok(ip)
            },
        }
    }
}

/// `n` replacement writes of one key with one value, as `n` racing
/// resolutions of one domain perform them.
pub open spec fn insert_n(m: Map<Seq<u8>, Ip>, k: Seq<u8>, ip: Ip, n: nat) -> Map<Seq<u8>, Ip>
    decreases n,
{
    if n == 0 {
        m
    } else {
        insert_n(m, k, ip, (n - 1) as nat).insert(k, ip)
    }
}

/// Racing resolutions of one domain are idempotent: however many times the
/// same resolved value is written back, the cache ends up holding exactly
/// that value for that key, as if it had been written once.
pub proof fn lemma_resolve_race_idempotent(m: Map<Seq<u8>, Ip>, k: Seq<u8>, ip: Ip, n: nat)
    requires
        n >= 1,
    ensures
        insert_n(m, k, ip, n) == m.insert(k, ip),
    decreases n,
{
    if n == 1 {
        assert(insert_n(m, k, ip, 1) == insert_n(m, k, ip, 0).insert(k, ip));
        assert(insert_n(m, k, ip, 0) == m);
    } else {
        lemma_resolve_race_idempotent(m, k, ip, (n - 1) as nat);
        assert(insert_n(m, k, ip, n) == insert_n(m, k, ip, (n - 1) as nat).insert(k, ip));
        assert(m.insert(k, ip).insert(k, ip) =~= m.insert(k, ip));
    }
}

} // verus!
