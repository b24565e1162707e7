use vstd::prelude::*;

verus! {

/// The texts of a sequence of strings.
pub open spec fn texts(v: Seq<String>) -> Seq<Seq<char>> {
    v.map_values(|s: String| s@)
}

/// Whether a text differs from `s`.
pub open spec fn differs_from(s: Seq<char>) -> spec_fn(Seq<char>) -> bool {
    |x: Seq<char>| x != s
}

/// `t` without any copy of `s`, the rest in order.
pub open spec fn without(t: Seq<Seq<char>>, s: Seq<char>) -> Seq<Seq<char>> {
    t.filter(differs_from(s))
}

/// `s` begins with `prefix`.
pub open spec fn starts_with(s: Seq<char>, prefix: Seq<char>) -> bool {
    prefix.len() <= s.len() && s.subrange(0, prefix.len() as int) == prefix
}

/// Whether the text `s` is among the strings.
pub fn contains_text(v: &Vec<String>, s: &str) -> (b: bool)
    ensures
        b == texts(v@).contains(s@),
{
    let target = String::from_str(s);
    let mut i: usize = 0;
    while i < v.len()
        invariant
            i <= v@.len(),
            target@ == s@,
            forall|j: int| 0 <= j < i ==> v@[j]@ != s@,
        decreases v@.len() - i,
    {
        if v[i] == target {
            proof {
                assert(texts(v@)[i as int] == s@);
            }
            return true;
        }
        i = i + 1;
    }
    proof {
        if texts(v@).contains(s@) {
            let j = choose|j: int| 0 <= j < texts(v@).len() && texts(v@)[j] == s@;
            assert(v@[j]@ == s@);
        }
    }
    false
}

/// A copy of the strings.
pub fn copy_strings(v: &Vec<String>) -> (r: Vec<String>)
    ensures
        texts(r@) == texts(v@),
{
    let mut r: Vec<String> = Vec::new();
    let mut i: usize = 0;
    while i < v.len()
        invariant
            i <= v@.len(),
            r@.len() == i,
            forall|j: int| 0 <= j < i ==> (#[trigger] r@[j])@ == v@[j]@,
        decreases v@.len() - i,
    {
        r.push(v[i].clone());
        i = i + 1;
    }
    proof {
        assert(texts(r@) =~= texts(v@));
    }
    r
}

/// The strings other than `s`, in order.
pub fn strings_without(v: &Vec<String>, s: &str) -> (r: Vec<String>)
    ensures
        texts(r@) == without(texts(v@), s@),
{
    let target = String::from_str(s);
    let ghost tv = texts(v@);
    let mut r: Vec<String> = Vec::new();
    let mut i: usize = 0;
    while i < v.len()
        invariant
            i <= v@.len(),
            target@ == s@,
            tv == texts(v@),
            texts(r@) == without(tv.take(i as int), s@),
        decreases v@.len() - i,
    {
        proof {
            reveal(Seq::filter);
            assert(tv.take(i + 1).drop_last() == tv.take(i as int));
            assert(tv.take(i + 1).last() == v@[i as int]@);
        }
        if !(v[i] == target) {
            r.push(v[i].clone());
            proof {
                assert(texts(r@) == without(tv.take(i as int), s@).push(v@[i as int]@));
            }
        }
        i = i + 1;
    }
    proof {
        assert(tv.take(i as int) == tv);
    }
    r
}

/// Whether `s` begins with `prefix`.
pub fn text_starts_with(s: &str, prefix: &str) -> (b: bool)
    ensures
        b == starts_with(s@, prefix@),
{
    let n = prefix.unicode_len();
    if s.unicode_len() < n {
        return false;
    }
    let mut i: usize = 0;
    while i < n
        invariant
            n == prefix@.len(),
            n <= s@.len(),
            i <= n,
            forall|j: int| 0 <= j < i ==> s@[j] == prefix@[j],
        decreases n - i,
    {
        if s.get_char(i) != prefix.get_char(i) {
            proof {
                assert(s@.subrange(0, n as int)[i as int] != prefix@[i as int]);
            }
            return false;
        }
        i = i + 1;
    }
    proof {
        assert(s@.subrange(0, n as int) == prefix@);
    }
    true
}

/// The map from each key to its value, in a list of (key, value) entries.
pub open spec fn keyed_map<V>(s: Seq<(Seq<char>, V)>) -> Map<Seq<char>, V> {
    Map::new(
        |k: Seq<char>| exists|i: int| 0 <= i < s.len() && #[trigger] s[i].0 == k,
        |k: Seq<char>| s[choose|i: int| 0 <= i < s.len() && #[trigger] s[i].0 == k].1,
    )
}

/// No key comes twice.
pub open spec fn keys_unique<V>(s: Seq<(Seq<char>, V)>) -> bool {
    forall|i: int, j: int| 0 <= i < j < s.len() ==> #[trigger] s[i].0 != #[trigger] s[j].0
}

/// The entry at `i` is what the map gives for its key.
pub proof fn lemma_keyed_at<V>(s: Seq<(Seq<char>, V)>, i: int)
    requires
        keys_unique(s),
        0 <= i < s.len(),
    ensures
        keyed_map(s).contains_key(s[i].0),
        keyed_map(s)[s[i].0] == s[i].1,
{
    let k = s[i].0;
    assert(exists|j: int| 0 <= j < s.len() && #[trigger] s[j].0 == k);
    let c = choose|j: int| 0 <= j < s.len() && #[trigger] s[j].0 == k;
    if c != i {
        if c < i {
            assert(s[c].0 != s[i].0);
        } else {
            assert(s[i].0 != s[c].0);
        }
    }
}

/// Appending an entry for a new key adds it to the map.
pub proof fn lemma_keyed_push<V>(s: Seq<(Seq<char>, V)>, e: (Seq<char>, V))
    requires
        keys_unique(s),
        !keyed_map(s).contains_key(e.0),
    ensures
        keys_unique(s.push(e)),
        keyed_map(s.push(e)) == keyed_map(s).insert(e.0, e.1),
{
    let t = s.push(e);
    let n = s.len() as int;
    assert forall|a: int, b: int| 0 <= a < b < t.len() implies #[trigger] t[a].0 != #[trigger] t[b].0 by {
        assert(t[a] == s[a]);
        if b == n {
            assert(s[a].0 != e.0);
        } else {
            assert(t[b] == s[b]);
        }
    }
    let target = keyed_map(s).insert(e.0, e.1);
    assert forall|q: Seq<char>| #![trigger keyed_map(t).dom().contains(q)] #![trigger target.dom().contains(q)]
        (keyed_map(t).dom().contains(q) == target.dom().contains(q)) && (keyed_map(t).dom().contains(q)
        ==> keyed_map(t)[q] == target[q]) by {
        if keyed_map(t).dom().contains(q) {
            let c = choose|j: int| 0 <= j < t.len() && #[trigger] t[j].0 == q;
            lemma_keyed_at(t, c);
            if c < n {
                assert(t[c] == s[c]);
                lemma_keyed_at(s, c);
            }
        }
        if target.dom().contains(q) && q != e.0 {
            let c = choose|j: int| 0 <= j < s.len() && #[trigger] s[j].0 == q;
            assert(t[c].0 == q);
        }
        if q == e.0 {
            assert(t[n].0 == q);
        }
    }
    assert(keyed_map(t).dom() =~= target.dom());
    assert(keyed_map(t) =~= target);
}

/// Removing an entry removes its key from the map.
pub proof fn lemma_keyed_remove<V>(s: Seq<(Seq<char>, V)>, i: int)
    requires
        keys_unique(s),
        0 <= i < s.len(),
    ensures
        keys_unique(s.remove(i)),
        keyed_map(s.remove(i)) == keyed_map(s).remove(s[i].0),
{
    let t = s.remove(i);
    assert forall|a: int, b: int| 0 <= a < b < t.len() implies #[trigger] t[a].0 != #[trigger] t[b].0 by {
        let a2 = if a < i { a } else { a + 1 };
        let b2 = if b < i { b } else { b + 1 };
        assert(s[a2].0 != s[b2].0);
    }
    let target = keyed_map(s).remove(s[i].0);
    assert forall|q: Seq<char>| #![trigger keyed_map(t).dom().contains(q)] #![trigger target.dom().contains(q)]
        (keyed_map(t).dom().contains(q) == target.dom().contains(q)) && (keyed_map(t).dom().contains(q)
        ==> keyed_map(t)[q] == target[q]) by {
        if keyed_map(t).dom().contains(q) {
            let c = choose|j: int| 0 <= j < t.len() && #[trigger] t[j].0 == q;
            lemma_keyed_at(t, c);
            let c2 = if c < i { c } else { c + 1 };
            assert(t[c] == s[c2]);
            lemma_keyed_at(s, c2);
            if q == s[i].0 {
                if c2 < i {
                    assert(s[c2].0 != s[i].0);
                } else {
                    assert(s[i].0 != s[c2].0);
                }
            }
        }
        if target.dom().contains(q) {
            let c = choose|j: int| 0 <= j < s.len() && #[trigger] s[j].0 == q;
            assert(c != i);
            let c1 = if c < i { c } else { c - 1 };
            assert(t[c1] == s[c]);
        }
    }
    assert(keyed_map(t).dom() =~= target.dom());
    assert(keyed_map(t) =~= target);
}

/// Replacing the value of an entry replaces it in the map.
pub proof fn lemma_keyed_update<V>(s: Seq<(Seq<char>, V)>, i: int, v: V)
    requires
        keys_unique(s),
        0 <= i < s.len(),
    ensures
        keys_unique(s.update(i, (s[i].0, v))),
        keyed_map(s.update(i, (s[i].0, v))) == keyed_map(s).insert(s[i].0, v),
{
    let t = s.update(i, (s[i].0, v));
    assert forall|a: int, b: int| 0 <= a < b < t.len() implies #[trigger] t[a].0 != #[trigger] t[b].0 by {
        assert(t[a].0 == s[a].0);
        assert(t[b].0 == s[b].0);
    }
    let target = keyed_map(s).insert(s[i].0, v);
    assert forall|q: Seq<char>| #![trigger keyed_map(t).dom().contains(q)] #![trigger target.dom().contains(q)]
        (keyed_map(t).dom().contains(q) == target.dom().contains(q)) && (keyed_map(t).dom().contains(q)
        ==> keyed_map(t)[q] == target[q]) by {
        if keyed_map(t).dom().contains(q) {
            let c = choose|j: int| 0 <= j < t.len() && #[trigger] t[j].0 == q;
            lemma_keyed_at(t, c);
            if c != i {
                assert(t[c] == s[c]);
                lemma_keyed_at(s, c);
            }
        }
        if target.dom().contains(q) && q != s[i].0 {
            let c = choose|j: int| 0 <= j < s.len() && #[trigger] s[j].0 == q;
            assert(t[c].0 == q);
        }
        if q == s[i].0 {
            assert(t[i].0 == q);
        }
    }
    assert(keyed_map(t).dom() =~= target.dom());
    assert(keyed_map(t) =~= target);
}

/// A list with no key twice maps as many keys as it has entries.
pub proof fn lemma_keyed_len<V>(s: Seq<(Seq<char>, V)>)
    requires
        keys_unique(s),
    ensures
        keyed_map(s).dom().finite(),
        keyed_map(s).dom().len() == s.len(),
    decreases s.len(),
{
    if s.len() == 0 {
        assert(keyed_map(s).dom() =~= Set::<Seq<char>>::empty());
    } else {
        let p = s.drop_last();
        assert forall|a: int, b: int| 0 <= a < b < p.len() implies #[trigger] p[a].0 != #[trigger] p[b].0 by {
            assert(p[a] == s[a]);
            assert(p[b] == s[b]);
        }
        lemma_keyed_len(p);
        if keyed_map(p).contains_key(s.last().0) {
            let c = choose|j: int| 0 <= j < p.len() && #[trigger] p[j].0 == s.last().0;
            assert(s[c].0 == s[s.len() - 1].0);
        }
        lemma_keyed_push(p, s.last());
        assert(p.push(s.last()) == s);
        assert(keyed_map(s).dom() =~= keyed_map(p).dom().insert(s.last().0));
    }
}

/// The values of a list of (key, text) entries.
pub open spec fn text_entries(s: Seq<(String, String)>) -> Seq<(Seq<char>, Seq<char>)> {
    s.map_values(|e: (String, String)| (e.0@, e.1@))
}

/// Texts by key, each key once.
pub struct TextMap {
    entries: Vec<(String, String)>,
}

impl View for TextMap {
    type V = Map<Seq<char>, Seq<char>>;

    closed spec fn view(&self) -> Map<Seq<char>, Seq<char>> {
        keyed_map(text_entries(self.entries@))
    }
}

impl TextMap {
    #[verifier::type_invariant]
    spec fn one_each(self) -> bool {
        keys_unique(text_entries(self.entries@))
    }

    /// No entries.
    pub fn new() -> (m: TextMap)
        ensures
            m@ == Map::<Seq<char>, Seq<char>>::empty(),
    {
        let m = TextMap { entries: Vec::new() };
        proof {
            assert(m@ =~= Map::<Seq<char>, Seq<char>>::empty());
        }
        m
    }

    /// Where the key stands, if present.
    fn position(&self, key: &str) -> (r: Option<usize>)
        ensures
            match r {
                Some(i) => i < self.entries@.len() && self.entries@[i as int].0@ == key@,
                None => !self@.contains_key(key@),
            },
    {
        let target = String::from_str(key);
        let mut i: usize = 0;
        while i < self.entries.len()
            invariant
                i <= self.entries@.len(),
                target@ == key@,
                forall|j: int| 0 <= j < i ==> #[trigger] self.entries@[j].0@ != key@,
            decreases self.entries@.len() - i,
        {
            if self.entries[i].0 == target {
                return Some(i);
            }
            i = i + 1;
        }
        proof {
            let s = text_entries(self.entries@);
            if self@.contains_key(key@) {
                let c = choose|j: int| 0 <= j < s.len() && #[trigger] s[j].0 == key@;
                assert(self.entries@[c].0@ == key@);
            }
        }
        None
    }

    /// The text of the key, if present.
    pub fn get(&self, key: &str) -> (r: Option<String>)
        ensures
            match r {
                Some(v) => self@.contains_key(key@) && v@ == self@[key@],
                None => !self@.contains_key(key@),
            },
    {
        proof {
            use_type_invariant(self);
        }
        match self.position(key) {
            Some(i) => {
                proof {
                    lemma_keyed_at(text_entries(self.entries@), i as int);
                }
                Some(self.entries[i].1.clone())
            },
            None => None,
        }
    }

    /// Sets the text of the key.
    pub fn insert(&mut self, key: String, value: String)
        ensures
            final(self)@ == old(self)@.insert(key@, value@),
    {
        proof {
            use_type_invariant(&*self);
        }
        let ghost before = text_entries(self.entries@);
        let ghost kv = (key@, value@);
        let idx = self.position(key.as_str());
        let mut entries: Vec<(String, String)> = Vec::new();
        std::mem::swap(&mut entries, &mut self.entries);
        match idx {
            Some(i) => {
                entries.set(i, (key, value));
                proof {
                    assert(text_entries(entries@) =~= before.update(i as int, (before[i as int].0, kv.1)));
                    lemma_keyed_update(before, i as int, kv.1);
                }
            },
            None => {
                entries.push((key, value));
                proof {
                    assert(text_entries(entries@) =~= before.push(kv));
                    lemma_keyed_push(before, kv);
                }
            },
        }
        self.entries = entries;
    }

    /// Forgets the key; whether it was present.
    pub fn remove(&mut self, key: &str) -> (found: bool)
        ensures
            found == old(self)@.contains_key(key@),
            final(self)@ == old(self)@.remove(key@),
    {
        proof {
            use_type_invariant(&*self);
        }
        let ghost before = text_entries(self.entries@);
        match self.position(key) {
            Some(i) => {
                proof {
                    lemma_keyed_at(before, i as int);
                    lemma_keyed_remove(before, i as int);
                }
                let mut entries: Vec<(String, String)> = Vec::new();
                std::mem::swap(&mut entries, &mut self.entries);
                entries.remove(i);
                proof {
                    assert(text_entries(entries@) =~= before.remove(i as int));
                }
                self.entries = entries;
                true
            },
            None => {
                proof {
                    assert(old(self)@.remove(key@) =~= old(self)@);
                }
                false
            },
        }
    }
}

} // verus!
