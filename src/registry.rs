use crate::text::{
    chars_of, is_alnum, push_chars, push_str, split_chars, split_on, string_of, text_eq, trim_white,
    trimmed,
};
use vstd::prelude::*;

verus! {

/// The map held by a list of (key, value) pairs with distinct keys.
pub open spec fn pairs_map(s: Seq<(String, String)>) -> Map<Seq<char>, Seq<char>>
    decreases s.len(),
{
    if s.len() == 0 {
        Map::empty()
    } else {
        pairs_map(s.drop_last()).insert(s.last().0@, s.last().1@)
    }
}

pub open spec fn keys_distinct(s: Seq<(String, String)>) -> bool {
    forall|i: int, j: int| 0 <= i < s.len() && 0 <= j < s.len() && i != j ==> #[trigger] s[i].0@ != #[trigger] s[j].0@
}

proof fn lemma_pairs_map(s: Seq<(String, String)>)
    requires
        keys_distinct(s),
    ensures
        forall|k: Seq<char>| #[trigger] pairs_map(s).contains_key(k) <==> exists|i: int| 0 <= i < s.len() && s[i].0@ == k,
        forall|i: int| 0 <= i < s.len() ==> #[trigger] pairs_map(s)[s[i].0@] == s[i].1@,
    decreases s.len(),
{
    if s.len() > 0 {
        let p = s.drop_last();
        assert(keys_distinct(p)) by {
            assert forall|i: int, j: int| 0 <= i < p.len() && 0 <= j < p.len() && i != j implies #[trigger] p[i].0@
                != #[trigger] p[j].0@ by {
                assert(p[i] == s[i] && p[j] == s[j]);
            }
        }
        lemma_pairs_map(p);
        assert forall|k: Seq<char>| #[trigger] pairs_map(s).contains_key(k) <==> exists|i: int|
            0 <= i < s.len() && s[i].0@ == k by {
            assert(pairs_map(s) == pairs_map(p).insert(s.last().0@, s.last().1@));
            if pairs_map(s).contains_key(k) {
                if k == s.last().0@ {
                    assert(s[s.len() - 1].0@ == k);
                } else {
                    assert(pairs_map(p).contains_key(k));
                    let i = choose|i: int| 0 <= i < p.len() && p[i].0@ == k;
                    assert(s[i] == p[i]);
                }
            }
            if exists|i: int| 0 <= i < s.len() && s[i].0@ == k {
                let i = choose|i: int| 0 <= i < s.len() && s[i].0@ == k;
                if i < s.len() - 1 {
                    assert(s[i] == p[i]);
                }
            }
        }
        assert forall|i: int| 0 <= i < s.len() implies #[trigger] pairs_map(s)[s[i].0@] == s[i].1@ by {
            assert(pairs_map(s) == pairs_map(p).insert(s.last().0@, s.last().1@));
            if i < s.len() - 1 {
                assert(pairs_map(p)[p[i].0@] == p[i].1@);
                assert(s[i] == p[i]);
                assert(s[i].0@ != s[s.len() - 1].0@);
            }
        }
    }
}

/// A map from strings to strings.
#[derive(Debug)]
pub struct StrMap {
    pub entries: Vec<(String, String)>,
}

impl StrMap {
    pub open spec fn wf(&self) -> bool {
        keys_distinct(self.entries@)
    }

    pub open spec fn view(&self) -> Map<Seq<char>, Seq<char>> {
        pairs_map(self.entries@)
    }

    /// An empty map.
    pub fn new() -> (r: StrMap)
        ensures
            r.wf(),
            r@ == Map::<Seq<char>, Seq<char>>::empty(),
    {
        StrMap { entries: Vec::new() }
    }

    fn position(&self, key: &str) -> (r: Option<usize>)
        requires
            self.wf(),
        ensures
            r matches Some(i) ==> i < self.entries@.len() && self.entries@[i as int].0@ == key@,
            r is None ==> !self@.contains_key(key@),
    {
        proof {
            lemma_pairs_map(self.entries@);
        }
        let mut i: usize = 0;
        while i < self.entries.len()
            invariant
                i <= self.entries@.len(),
                forall|j: int| 0 <= j < i ==> self.entries@[j].0@ != key@,
            decreases self.entries@.len() - i,
        {
            if text_eq(self.entries[i].0.as_str(), key) {
                return Some(i);
            }
            i = i + 1;
        }
        None
    }

    /// The value under `key`, if any.
    pub fn get(&self, key: &str) -> (r: Option<String>)
        requires
            self.wf(),
        ensures
            r is Some <==> self@.contains_key(key@),
            r matches Some(v) ==> v@ == self@[key@],
    {
        proof {
            lemma_pairs_map(self.entries@);
        }
        match self.position(key) {
            Some(i) => Some(self.entries[i].1.clone()),
            None => None,
        }
    }

    /// Sets `key` to `value`, replacing any earlier value.
    pub fn insert(&mut self, key: String, value: String)
        requires
            old(self).wf(),
        ensures
            final(self).wf(),
            final(self)@ == old(self)@.insert(key@, value@),
    {
        proof {
            lemma_pairs_map(self.entries@);
        }
        match self.position(key.as_str()) {
            Some(i) => {
                let ghost s = self.entries@;
                let _ = self.entries.remove(i);
                let ghost t = self.entries@;
                self.entries.push((key, value));
                proof {
                    let n = self.entries@;
                    assert forall|a: int, b: int| 0 <= a < n.len() && 0 <= b < n.len() && a != b implies #[trigger] n[a].0@
                        != #[trigger] n[b].0@ by {
                        let a2 = if a < i { a } else { a + 1 };
                        let b2 = if b < i { b } else { b + 1 };
                        if a < n.len() - 1 {
                            assert(n[a] == s[a2]);
                        }
                        if b < n.len() - 1 {
                            assert(n[b] == s[b2]);
                        }
                    }
                    lemma_pairs_map(s);
                    lemma_pairs_map(n);
                    assert(n.drop_last() == t);
                    assert(keys_distinct(t)) by {
                        assert forall|a: int, b: int| 0 <= a < t.len() && 0 <= b < t.len() && a != b implies #[trigger] t[a].0@
                            != #[trigger] t[b].0@ by {
                            assert(t[a] == n[a] && t[b] == n[b]);
                        }
                    }
                    lemma_pairs_map(t);
                    assert(pairs_map(t) =~= pairs_map(s).remove(key@)) by {
                        assert forall|k: Seq<char>| #[trigger] pairs_map(t).contains_key(k) <==> pairs_map(s).remove(
                            key@,
                        ).contains_key(k) by {
                            if pairs_map(t).contains_key(k) {
                                let j = choose|j: int| 0 <= j < t.len() && t[j].0@ == k;
                                let j2 = if j < i { j } else { j + 1 };
                                assert(t[j] == s[j2]);
                            }
                            if pairs_map(s).remove(key@).contains_key(k) {
                                let j = choose|j: int| 0 <= j < s.len() && s[j].0@ == k;
                                assert(j != i);
                                let j2 = if j < i { j } else { j - 1 };
                                assert(t[j2] == s[j]);
                            }
                        }
                        assert forall|k: Seq<char>| #[trigger] pairs_map(t).contains_key(k) implies pairs_map(t)[k]
                            == pairs_map(s)[k] by {
                            let j = choose|j: int| 0 <= j < t.len() && t[j].0@ == k;
                            let j2 = if j < i { j } else { j + 1 };
                            assert(t[j] == s[j2]);
                        }
                    }
                    assert(pairs_map(n) =~= pairs_map(s).insert(key@, value@));
                }
            },
            None => {
                let ghost s = self.entries@;
                self.entries.push((key, value));
                proof {
                    let n = self.entries@;
                    lemma_pairs_map(s);
                    assert(n.drop_last() == s);
                    assert forall|a: int, b: int| 0 <= a < n.len() && 0 <= b < n.len() && a != b implies #[trigger] n[a].0@
                        != #[trigger] n[b].0@ by {
                        if a < n.len() - 1 {
                            assert(n[a] == s[a]);
                        }
                        if b < n.len() - 1 {
                            assert(n[b] == s[b]);
                        }
                    }
                }
            },
        }
    }
}

/// Relies on nanoid's `format` with the default random source and the safe
/// alphabet without `_` and `-`: ten characters, each a letter or a digit.
#[verifier::external_body]
fn random_id() -> (r: String)
    ensures
        r@.len() == 10,
        forall|i: int| 0 <= i < 10 ==> is_alnum(#[trigger] r@[i]),
{
    nanoid::format(nanoid::rngs::default, &nanoid::alphabet::SAFE[2..], 10)
}

/// A fresh random identifier: ten letters or digits.
pub fn gen_id() -> (r: String)
    ensures
        is_random_id(r@),
{
    random_id()
}

/// Ten characters, each a letter or a digit.
pub open spec fn is_random_id(s: Seq<char>) -> bool {
    s.len() == 10 && forall|i: int| 0 <= i < 10 ==> is_alnum(#[trigger] s[i])
}

/// A substitute identity made for `prefix`: the random identifier alone, or
/// `prefix_` followed by it.
pub open spec fn is_substitute_for(prefix: Seq<char>, s: Seq<char>) -> bool {
    if prefix.len() == 0 {
        is_random_id(s)
    } else {
        s.len() == prefix.len() + 11 && s.subrange(0, prefix.len() as int) == prefix && s[prefix.len() as int] == '_'
            && is_random_id(s.subrange(prefix.len() as int + 1, s.len() as int))
    }
}

/// What one lookup of `key` does to the registry's map `before`: a known key
/// returns its identity and changes nothing; an unknown one gets `id`.
pub open spec fn registry_step(
    before: Map<Seq<char>, Seq<char>>,
    key: Seq<char>,
    id: Seq<char>,
    after: Map<Seq<char>, Seq<char>>,
) -> bool {
    if before.contains_key(key) {
        id == before[key] && after == before
    } else {
        after == before.insert(key, id)
    }
}

/// Subject key to substitute identity, created on first encounter.
#[derive(Debug)]
pub struct IdRegistry {
    pub map: StrMap,
}

impl IdRegistry {
    pub open spec fn wf(&self) -> bool {
        self.map.wf()
    }

    pub open spec fn view(&self) -> Map<Seq<char>, Seq<char>> {
        self.map@
    }

    /// A registry with no subject yet.
    pub fn new() -> (r: IdRegistry)
        ensures
            r.wf(),
            r@ == Map::<Seq<char>, Seq<char>>::empty(),
    {
        IdRegistry { map: StrMap::new() }
    }

    /// The substitute identity of `subject_key`: the one already assigned, or
    /// a new random one (prefixed by `prefix` and `_` when `prefix` is not empty).
    pub fn get_or_create(&mut self, subject_key: &String, prefix: &String) -> (r: String)
        requires
            old(self).wf(),
        ensures
            final(self).wf(),
            registry_step(old(self)@, subject_key@, r@, final(self)@),
            !old(self)@.contains_key(subject_key@) ==> is_substitute_for(prefix@, r@),
    {
        match self.map.get(subject_key.as_str()) {
            Some(id) => id,
            None => {
                let rand = gen_id();
                let id = if prefix.unicode_len() == 0 {
                    rand
                } else {
                    let mut v = chars_of(prefix.as_str());
                    v.push('_');
                    push_str(&mut v, rand.as_str());
                    assert(v@.subrange(0, prefix@.len() as int) == prefix@);
                    assert(v@.subrange(prefix@.len() as int + 1, v@.len() as int) == rand@);
                    string_of(&v)
                };
                self.map.insert(subject_key.clone(), id.clone());
                id
            },
        }
    }
}

/// However the lookups of a run interleave, two lookups of the same subject
/// key return the same substitute identity.
pub proof fn law_identity_consistency(
    maps: Seq<Map<Seq<char>, Seq<char>>>,
    keys: Seq<Seq<char>>,
    ids: Seq<Seq<char>>,
    i: int,
    j: int,
)
    requires
        maps.len() == keys.len() + 1,
        ids.len() == keys.len(),
        forall|n: int| 0 <= n < keys.len() ==> registry_step(#[trigger] maps[n], keys[n], ids[n], maps[n + 1]),
        0 <= i < keys.len(),
        0 <= j < keys.len(),
        keys[i] == keys[j],
    ensures
        ids[i] == ids[j],
{
    if i < j {
        lemma_entry_kept(maps, keys, ids, i, j);
        assert(registry_step(maps[j], keys[j], ids[j], maps[j + 1]));
    } else if j < i {
        lemma_entry_kept(maps, keys, ids, j, i);
        assert(registry_step(maps[i], keys[i], ids[i], maps[i + 1]));
    }
}

/// Once a lookup has returned an identity, the registry keeps it.
proof fn lemma_entry_kept(
    maps: Seq<Map<Seq<char>, Seq<char>>>,
    keys: Seq<Seq<char>>,
    ids: Seq<Seq<char>>,
    i: int,
    n: int,
)
    requires
        maps.len() == keys.len() + 1,
        ids.len() == keys.len(),
        forall|m: int| 0 <= m < keys.len() ==> registry_step(#[trigger] maps[m], keys[m], ids[m], maps[m + 1]),
        0 <= i < n <= keys.len(),
    ensures
        maps[n].contains_key(keys[i]),
        maps[n][keys[i]] == ids[i],
    decreases n - i,
{
    if n == i + 1 {
        assert(registry_step(maps[i], keys[i], ids[i], maps[i + 1]));
    } else {
        lemma_entry_kept(maps, keys, ids, i, n - 1);
        assert(registry_step(maps[n - 1], keys[n - 1], ids[n - 1], maps[n]));
    }
}

/// The mapping table written as text: each line `substitute,subject`; lines
/// that are not two non-empty comma-separated values are skipped; both values
/// are trimmed; a later line for the same subject wins.
pub open spec fn mapping_of(lines: Seq<Seq<char>>) -> Map<Seq<char>, Seq<char>>
    decreases lines.len(),
{
    if lines.len() == 0 {
        Map::empty()
    } else {
        let m = mapping_of(lines.drop_last());
        let parts = split_on(strip_cr(lines.last()), ',');
        if parts.len() == 2 && parts[0].len() > 0 && parts[1].len() > 0 {
            m.insert(trim_white(parts[1]), trim_white(parts[0]))
        } else {
            m
        }
    }
}

/// A line without its carriage return.
pub open spec fn strip_cr(line: Seq<char>) -> Seq<char> {
    if line.len() > 0 && line.last() == '\r' {
        line.drop_last()
    } else {
        line
    }
}

/// Builds the subject-key to substitute-identity table from the text of a
/// mapping table.
pub fn generate_mapping_dict(mapping_table: &str) -> (r: StrMap)
    ensures
        r.wf(),
        r@ == mapping_of(split_on(mapping_table@, '\n')),
{
    let text = chars_of(mapping_table);
    let lines = split_chars(&text, '\n');
    let mut dict = StrMap::new();
    let mut i: usize = 0;
    while i < lines.len()
        invariant
            i <= lines@.len(),
            lines@.len() == split_on(mapping_table@, '\n').len(),
            forall|k: int| 0 <= k < lines@.len() ==> #[trigger] lines@[k]@ == split_on(mapping_table@, '\n')[k],
            dict.wf(),
            dict@ == mapping_of(split_on(mapping_table@, '\n').subrange(0, i as int)),
        decreases lines@.len() - i,
    {
        let ghost all = split_on(mapping_table@, '\n');
        assert(all.subrange(0, i + 1).drop_last() == all.subrange(0, i as int));
        assert(all.subrange(0, i + 1).last() == lines@[i as int]@);
        let mut line: Vec<char> = Vec::new();
        push_chars(&mut line, &lines[i]);
        if line.len() > 0 && line[line.len() - 1] == '\r' {
            line.pop();
        }
        let parts = split_chars(&line, ',');
        if parts.len() == 2 && parts[0].len() > 0 && parts[1].len() > 0 {
            let key = trimmed(&parts[1]);
            let value = trimmed(&parts[0]);
            dict.insert(string_of(&key), string_of(&value));
        }
        i = i + 1;
    }
    assert(split_on(mapping_table@, '\n').subrange(0, lines@.len() as int) == split_on(mapping_table@, '\n'));
    dict
}

} // verus!
