//! The name service: a zone table that maps domain names to lists of node
//! ids, built from the entries of a zones file and queried by name.
use vstd::prelude::*;
use crate::crypto::{hex_decode, hex_bytes, is_hex_text};
use crate::relay::{copy_texts, texts};
use crate::text::{ascii_lower_text, to_ascii_lowercase, trim, trim_spec};

verus! {

/// A name-service query.
pub struct DnsQueryPayload {
    pub domain: String,
}

/// A name-service answer: the normalised name and its node ids.
pub struct DnsLookupResponse {
    pub domain: String,
    pub nodes: Vec<String>,
}

/// A domain name as the table keys it: trimmed, ASCII lower case.
pub open spec fn normalized(s: Seq<char>) -> Seq<char> {
    ascii_lower_text(trim_spec(s))
}

/// Normalises a domain name.
pub fn normalize_domain(s: &str) -> (r: String)
    ensures
        r@ == normalized(s@),
{
    let t = trim(s);
    to_ascii_lowercase(t.as_str())
}

/// The id a zones-file entry contributes: the trimmed text when it is 64
/// hexadecimal digits, in lower case.
pub open spec fn zone_id(h: Seq<char>) -> Option<Seq<char>> {
    let t = trim_spec(h);
    if t.len() == 64 && is_hex_text(t) {
        Some(ascii_lower_text(t))
    } else {
        None
    }
}

/// The valid ids of an entry, in order.
pub open spec fn zone_ids(v: Seq<Seq<char>>) -> Seq<Seq<char>>
    decreases v.len(),
{
    if v.len() == 0 {
        Seq::empty()
    } else {
        let r = zone_ids(v.drop_last());
        match zone_id(v.last()) {
            Some(x) => r.push(x),
            None => r,
        }
    }
}

/// Checks one id of a zones-file entry.
pub fn check_zone_id(h: &str) -> (r: Option<String>)
    ensures
        r is Some <==> zone_id(h@) is Some,
        r matches Some(x) ==> zone_id(h@) == Some(x@),
{
    let t = trim(h);
    if t.as_str().unicode_len() != 64 {
        return None;
    }
    match hex_decode(t.as_str()) {
        Ok(b) => {
            if b.len() == 32 {
                Some(to_ascii_lowercase(t.as_str()))
            } else {
                assert(hex_bytes(t@).len() == 32);
                None
            }
        },
        Err(_) => None,
    }
}

/// Keeps the valid ids of an entry.
pub fn check_zone_ids(v: &Vec<String>) -> (r: Vec<String>)
    ensures
        texts(r@) == zone_ids(texts(v@)),
{
    let mut r: Vec<String> = Vec::new();
    let mut i: usize = 0;
    while i < v.len()
        invariant
            i <= v@.len(),
            texts(r@) == zone_ids(texts(v@).take(i as int)),
        decreases v@.len() - i,
    {
        let ghost before = r@;
        proof {
            assert(texts(v@).take(i + 1).drop_last() =~= texts(v@).take(i as int));
        }
        match check_zone_id(v[i].as_str()) {
            Some(x) => {
                r.push(x);
                assert(texts(r@) =~= texts(before).push(r@[before.len() as int]@)) by {
                    assert(r@.len() == before.len() + 1);
                };
            },
            None => {},
        }
        i = i + 1;
        proof {
            assert(texts(v@).take(i as int).last() == v@[i - 1]@);
        }
    }
    assert(texts(v@).take(i as int) =~= texts(v@));
    r
}

/// Whether no two entries share a name.
pub open spec fn names_distinct(s: Seq<(Seq<char>, Seq<Seq<char>>)>) -> bool {
    forall|i: int, j: int| 0 <= i < j < s.len() ==> s[i].0 != s[j].0
}

/// The ids recorded for a name.
pub open spec fn zone_get(s: Seq<(Seq<char>, Seq<Seq<char>>)>, k: Seq<char>) -> Option<Seq<Seq<char>>> {
    if exists|i: int| 0 <= i < s.len() && s[i].0 == k {
        Some(s[choose|i: int| 0 <= i < s.len() && s[i].0 == k].1)
    } else {
        None
    }
}

/// The table after recording `v` for `k`: the entry replaced in place, or
/// appended.
pub open spec fn zone_put(s: Seq<(Seq<char>, Seq<Seq<char>>)>, k: Seq<char>, v: Seq<Seq<char>>) -> Seq<(Seq<char>, Seq<Seq<char>>)> {
    if exists|i: int| 0 <= i < s.len() && s[i].0 == k {
        s.update(choose|i: int| 0 <= i < s.len() && s[i].0 == k, (k, v))
    } else {
        s.push((k, v))
    }
}

/// The table a zones file gives, its entries taken in order: each name
/// normalised, its valid ids kept, a later entry for the same name
/// replacing an earlier one.
pub open spec fn zones_from(entries: Seq<(Seq<char>, Seq<Seq<char>>)>) -> Seq<(Seq<char>, Seq<Seq<char>>)>
    decreases entries.len(),
{
    if entries.len() == 0 {
        Seq::empty()
    } else {
        zone_put(zones_from(entries.drop_last()), normalized(entries.last().0), zone_ids(entries.last().1))
    }
}

/// Domain name → node ids.
pub struct ZoneTable {
    entries: Vec<(String, Vec<String>)>,
}

impl View for ZoneTable {
    type V = Seq<(Seq<char>, Seq<Seq<char>>)>;

    closed spec fn view(&self) -> Seq<(Seq<char>, Seq<Seq<char>>)> {
        self.entries@.map_values(|e: (String, Vec<String>)| (e.0@, texts(e.1@)))
    }
}

impl ZoneTable {
    /// An empty table.
    pub fn new() -> (z: ZoneTable)
        ensures
            z@ == Seq::<(Seq<char>, Seq<Seq<char>>)>::empty(),
    {
        let z = ZoneTable { entries: Vec::new() };
        assert(z@ =~= Seq::<(Seq<char>, Seq<Seq<char>>)>::empty());
        z
    }

    fn position(&self, k: &String) -> (r: Option<usize>)
        ensures
            r matches Some(i) ==> i < self@.len() && self@[i as int].0 == k@,
            r is None ==> forall|j: int| 0 <= j < self@.len() ==> self@[j].0 != k@,
    {
        let mut i: usize = 0;
        while i < self.entries.len()
            invariant
                i <= self.entries@.len(),
                forall|j: int| 0 <= j < i ==> self@[j].0 != k@,
            decreases self.entries@.len() - i,
        {
            if crate::text::text_eq(self.entries[i].0.as_str(), k.as_str()) {
                return Some(i);
            }
            i = i + 1;
        }
        None
    }

    /// The ids recorded for a name.
    pub fn get(&self, k: &String) -> (r: Option<Vec<String>>)
        requires
            names_distinct(self@),
        ensures
            r is Some <==> zone_get(self@, k@) is Some,
            r matches Some(v) ==> Some(texts(v@)) == zone_get(self@, k@),
    {
        match self.position(k) {
            Some(i) => {
                let v = copy_texts(&self.entries[i].1);
                proof {
                    let c = choose|j: int| 0 <= j < self@.len() && self@[j].0 == k@;
                    assert(c == i as int);
                }
                Some(v)
            },
            None => None,
        }
    }

    /// Records `v` for `k`, replacing an earlier entry.
    pub fn insert(&mut self, k: String, v: Vec<String>)
        requires
            names_distinct(old(self)@),
        ensures
            names_distinct(final(self)@),
            final(self)@ == zone_put(old(self)@, k@, texts(v@)),
    {
        let ghost kv = (k@, texts(v@));
        proof {
            lemma_zone_put_get(self@, kv.0, kv.1, kv.0);
        }
        match self.position(&k) {
            Some(i) => {
                let ghost before = self@;
                self.entries.set(i, (k, v));
                proof {
                    let c = choose|j: int| 0 <= j < before.len() && before[j].0 == kv.0;
                    assert(c == i as int);
                    assert(self@ =~= before.update(i as int, kv));
                }
            },
            None => {
                let ghost before = self@;
                self.entries.push((k, v));
                assert(self@ =~= before.push(kv));
            },
        }
    }
}

/// Builds the table from the entries of a zones file, taken in the order
/// given.
pub fn zone_table_from(entries: Vec<(String, Vec<String>)>) -> (z: ZoneTable)
    ensures
        names_distinct(z@),
        z@ == zones_from(entries@.map_values(|e: (String, Vec<String>)| (e.0@, texts(e.1@)))),
{
    let ghost es = entries@.map_values(|e: (String, Vec<String>)| (e.0@, texts(e.1@)));
    let mut z = ZoneTable::new();
    let mut i: usize = 0;
    while i < entries.len()
        invariant
            i <= entries@.len(),
            es == entries@.map_values(|e: (String, Vec<String>)| (e.0@, texts(e.1@))),
            names_distinct(z@),
            z@ == zones_from(es.take(i as int)),
        decreases entries@.len() - i,
    {
        let dom = normalize_domain(entries[i].0.as_str());
        let ids = check_zone_ids(&entries[i].1);
        proof {
            assert(es.take(i + 1).drop_last() =~= es.take(i as int));
            assert(es.take(i + 1).last() == es[i as int]);
        }
        z.insert(dom, ids);
        i = i + 1;
    }
    assert(es.take(i as int) =~= es);
    z
}

/// Answers a query: the normalised name and its ids, none when unknown.
pub fn lookup(zones: &ZoneTable, domain: &str) -> (r: DnsLookupResponse)
    requires
        names_distinct(zones@),
    ensures
        r.domain@ == normalized(domain@),
        match zone_get(zones@, normalized(domain@)) {
            Some(v) => texts(r.nodes@) == v,
            None => r.nodes@.len() == 0,
        },
{
    let dom = normalize_domain(domain);
    let nodes = match zones.get(&dom) {
        Some(v) => v,
        None => Vec::new(),
    };
    DnsLookupResponse { domain: dom, nodes }
}

/// Recording ids for a name and reading that name gives them back; other
/// names are unaffected.
pub proof fn lemma_zone_put_get(s: Seq<(Seq<char>, Seq<Seq<char>>)>, k: Seq<char>, v: Seq<Seq<char>>, k2: Seq<char>)
    requires
        names_distinct(s),
    ensures
        names_distinct(zone_put(s, k, v)),
        zone_get(zone_put(s, k, v), k) == Some(v),
        k2 != k ==> zone_get(zone_put(s, k, v), k2) == zone_get(s, k2),
{
    let t = zone_put(s, k, v);
    if exists|i: int| 0 <= i < s.len() && s[i].0 == k {
        let c = choose|i: int| 0 <= i < s.len() && s[i].0 == k;
        assert(t[c].0 == k);
        assert forall|i: int| 0 <= i < t.len() && t[i].0 == k implies i == c by {}
        if k2 != k {
            if exists|i: int| 0 <= i < s.len() && s[i].0 == k2 {
                let d = choose|i: int| 0 <= i < s.len() && s[i].0 == k2;
                assert(t[d].0 == k2);
                assert forall|i: int| 0 <= i < t.len() && t[i].0 == k2 implies i == d by {}
            } else {
                assert forall|i: int| 0 <= i < t.len() implies t[i].0 != k2 by {}
            }
        }
    } else {
        assert(t[s.len() as int].0 == k);
        assert forall|i: int| 0 <= i < t.len() && t[i].0 == k implies i == s.len() by {}
        if k2 != k {
            if exists|i: int| 0 <= i < s.len() && s[i].0 == k2 {
                let d = choose|i: int| 0 <= i < s.len() && s[i].0 == k2;
                assert(t[d].0 == k2);
                assert forall|i: int| 0 <= i < t.len() && t[i].0 == k2 implies i == d by {}
            } else {
                assert forall|i: int| 0 <= i < t.len() implies t[i].0 != k2 by {}
            }
        }
    }
}

} // verus!
