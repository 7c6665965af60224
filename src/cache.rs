//! A session cache of normalised models, keyed by model name.
use vstd::prelude::*;
use crate::error::FetchError;
use crate::schema::{ParsedModel, ParsedModelView, PropertyView};

verus! {

/// The models held by the entries, the later entry winning for a name given
/// twice.
pub open spec fn entries_view(s: Seq<(String, ParsedModel)>) -> Map<Seq<char>, ParsedModelView>
    decreases s.len(),
{
    if s.len() == 0 {
        Map::empty()
    } else {
        entries_view(s.drop_last()).insert(s.last().0@, s.last().1@)
    }
}

pub open spec fn keys_unique(s: Seq<(String, ParsedModel)>) -> bool {
    forall|i: int, j: int| 0 <= i < j < s.len() ==> (#[trigger] s[i]).0@ != (#[trigger] s[j]).0@
}

proof fn lemma_entries_dom(s: Seq<(String, ParsedModel)>, k: Seq<char>)
    ensures
        entries_view(s).contains_key(k) <==> exists|i: int| 0 <= i < s.len() && (#[trigger] s[i]).0@ == k,
    decreases s.len(),
{
    if s.len() > 0 {
        let d = s.drop_last();
        lemma_entries_dom(d, k);
        if entries_view(s).contains_key(k) {
            if s.last().0@ != k {
                let i = choose|i: int| 0 <= i < d.len() && (#[trigger] d[i]).0@ == k;
                assert(s[i] == d[i]);
            }
        }
        if exists|i: int| 0 <= i < s.len() && (#[trigger] s[i]).0@ == k {
            let i = choose|i: int| 0 <= i < s.len() && (#[trigger] s[i]).0@ == k;
            if i < s.len() - 1 {
                assert(d[i] == s[i]);
            }
        }
    }
}

proof fn lemma_entries_at(s: Seq<(String, ParsedModel)>, i: int)
    requires
        keys_unique(s),
        0 <= i < s.len(),
    ensures
        entries_view(s).contains_key(s[i].0@),
        entries_view(s)[s[i].0@] == s[i].1@,
    decreases s.len(),
{
    let d = s.drop_last();
    if i < s.len() - 1 {
        assert(d[i] == s[i]);
        lemma_entries_at(d, i);
    }
}

proof fn lemma_entries_update(s: Seq<(String, ParsedModel)>, i: int, k: String, m: ParsedModel)
    requires
        keys_unique(s),
        0 <= i < s.len(),
        k@ == s[i].0@,
    ensures
        keys_unique(s.update(i, (k, m))),
        entries_view(s.update(i, (k, m))) == entries_view(s).insert(k@, m@),
    decreases s.len(),
{
    let t = s.update(i, (k, m));
    let d = s.drop_last();
    assert forall|a: int, b: int| 0 <= a < b < t.len() implies (#[trigger] t[a]).0@ != (#[trigger] t[b]).0@ by {
        assert(t[a].0@ == s[a].0@ && t[b].0@ == s[b].0@);
    }
    if i == s.len() - 1 {
        assert(t.drop_last() =~= d);
        assert(entries_view(t) =~= entries_view(s).insert(k@, m@));
    } else {
        lemma_entries_update(d, i, k, m);
        assert(t.drop_last() =~= d.update(i, (k, m)));
        assert(d[i] == s[i]);
        assert(entries_view(t) =~= entries_view(s).insert(k@, m@));
    }
}

/// The model view with the `checked` mark of property `index` flipped.
pub open spec fn flip_at(m: ParsedModelView, index: int) -> ParsedModelView {
    ParsedModelView {
        properties: m.properties.update(
            index,
            PropertyView { checked: !m.properties[index].checked, ..m.properties[index] },
        ),
        ..m
    }
}

/// The cache answered from what it held: it is unchanged and the result is
/// the model held under `key`.
pub open spec fn served_from_cache(
    before: Map<Seq<char>, ParsedModelView>,
    key: Seq<char>,
    r: Result<ParsedModel, FetchError>,
    after: Map<Seq<char>, ParsedModelView>,
) -> bool {
    &&& after == before
    &&& r matches Ok(m) && m@ == before[key]
}

/// The cache took in the result of a fetch: a model is stored under `key`,
/// an error leaves the cache as it was.
pub open spec fn fetched_into_cache(
    before: Map<Seq<char>, ParsedModelView>,
    key: Seq<char>,
    r: Result<ParsedModel, FetchError>,
    after: Map<Seq<char>, ParsedModelView>,
) -> bool {
    match r {
        Ok(m) => after == before.insert(key, m@),
        Err(_) => after == before,
    }
}

/// Normalised models of this session by model name. Entries are only added,
/// by a successful fetch, and only changed by flipping a property's mark.
#[derive(Debug)]
pub struct ModelCache {
    inner: Vec<(String, ParsedModel)>,
}

impl View for ModelCache {
    type V = Map<Seq<char>, ParsedModelView>;

    closed spec fn view(&self) -> Map<Seq<char>, ParsedModelView> {
        entries_view(self.inner@)
    }
}

impl ModelCache {
    /// Each name is held once.
    pub closed spec fn wf(&self) -> bool {
        keys_unique(self.inner@)
    }

    /// An empty cache.
    pub fn new() -> (r: ModelCache)
        ensures
            r.wf(),
            r@ == Map::<Seq<char>, ParsedModelView>::empty(),
    {
        ModelCache { inner: Vec::new() }
    }

    fn find(&self, key: &String) -> (r: Option<usize>)
        requires
            self.wf(),
        ensures
            r matches Some(i) ==> i < self.inner@.len() && self.inner@[i as int].0@ == key@,
            r is None ==> !self@.contains_key(key@),
            r is Some <==> self@.contains_key(key@),
    {
        let mut i: usize = 0;
        while i < self.inner.len()
            invariant
                i <= self.inner.len(),
                forall|j: int| 0 <= j < i ==> (#[trigger] self.inner@[j]).0@ != key@,
            decreases self.inner.len() - i,
        {
            if self.inner[i].0 == *key {
                proof {
                    lemma_entries_dom(self.inner@, key@);
                }
                return Some(i);
            }
            i = i + 1;
        }
        proof {
            lemma_entries_dom(self.inner@, key@);
        }
        None
    }

    /// The model held under `key`, if any.
    pub fn get(&self, key: &str) -> (r: Option<&ParsedModel>)
        requires
            self.wf(),
        ensures
            r matches Some(m) ==> self@.contains_key(key@) && m@ == self@[key@],
            r is None ==> !self@.contains_key(key@),
    {
        let key = key.to_owned();
        match self.find(&key) {
            Some(i) => {
                proof {
                    lemma_entries_at(self.inner@, i as int);
                }
                Some(&self.inner[i].1)
            },
            None => None,
        }
    }

    /// Takes in the result of fetching the model `key`: a model is stored
    /// under `key`, replacing one stored meanwhile, and handed back; an error
    /// is handed back and the cache stays as it was.
    pub fn insert_fetched(&mut self, key: &str, fetched: Result<ParsedModel, FetchError>) -> (r: Result<ParsedModel, FetchError>)
        requires
            old(self).wf(),
        ensures
            final(self).wf(),
            r == fetched,
            fetched_into_cache(old(self)@, key@, r, final(self)@),
    {
        match fetched {
            Ok(model) => {
                let stored = model.clone();
                let key = key.to_owned();
                match self.find(&key) {
                    Some(i) => {
                        let ghost s = self.inner@;
                        proof {
                            lemma_entries_update(s, i as int, key, stored);
                        }
                        self.inner.set(i, (key, stored));
                    },
                    None => {
                        let ghost s = self.inner@;
                        proof {
                            lemma_entries_dom(s, key@);
                        }
                        self.inner.push((key, stored));
                        assert(self.inner@.drop_last() =~= s);
                    },
                }
                Ok(model)
            },
            Err(e) => Err(e),
        }
    }

    /// The model `key`: a copy of the one held, without calling `fetch`, or
    /// else what `fetch` gives for `key`, stored when it is a model.
    pub fn get_or_fetch_and_insert<F>(&mut self, key: &str, fetch: F) -> (r: Result<ParsedModel, FetchError>)
        where
            F: FnOnce(&str) -> Result<ParsedModel, FetchError>,
        requires
            old(self).wf(),
            fetch.requires((key,)),
        ensures
            final(self).wf(),
            old(self)@.contains_key(key@) ==> served_from_cache(old(self)@, key@, r, final(self)@),
            !old(self)@.contains_key(key@) ==> fetch.ensures((key,), r) && fetched_into_cache(
                old(self)@,
                key@,
                r,
                final(self)@,
            ),
    {
        match self.get(key) {
            Some(model) => Ok(model.clone()),
            None => {
                let fetched = fetch(key);
                self.insert_fetched(key, fetched)
            },
        }
    }

    /// Flips the `checked` mark of property `index` of the model `key`; does
    /// nothing when no model is held under `key` or it has no such property.
    pub fn flip_checked(&mut self, key: &str, index: usize)
        requires
            old(self).wf(),
        ensures
            final(self).wf(),
            old(self)@.contains_key(key@) && index < old(self)@[key@].properties.len() ==> final(self)@
                == old(self)@.insert(key@, flip_at(old(self)@[key@], index as int)),
            !(old(self)@.contains_key(key@) && index < old(self)@[key@].properties.len()) ==> final(self)@
                == old(self)@,
    {
        let key = key.to_owned();
        if let Some(i) = self.find(&key) {
            proof {
                lemma_entries_at(self.inner@, i as int);
            }
            if index < self.inner[i].1.properties.len() {
                let ghost s = self.inner@;
                let ghost k = s[i as int].0;
                let ghost before = s[i as int].1;
                let flag = self.inner[i].1.properties[index].checked;
                self.inner[i].1.properties[index].checked = !flag;
                proof {
                    let after = self.inner@[i as int].1;
                    assert(after@.properties =~= flip_at(before@, index as int).properties);
                    assert(self.inner@ =~= s.update(i as int, (k, after)));
                    lemma_entries_update(s, i as int, k, after);
                }
            }
        }
    }
}

/// Asking twice for the same model: once the first request has given a
/// model, the second one finds it in the cache, so it does not fetch, leaves
/// the cache as it was and gives a model equal to the first.
pub proof fn lemma_repeat_request_served_from_cache(
    c0: Map<Seq<char>, ParsedModelView>,
    key: Seq<char>,
    r1: Result<ParsedModel, FetchError>,
    c1: Map<Seq<char>, ParsedModelView>,
    r2: Result<ParsedModel, FetchError>,
    c2: Map<Seq<char>, ParsedModelView>,
)
    requires
        c0.contains_key(key) ==> served_from_cache(c0, key, r1, c1),
        !c0.contains_key(key) ==> fetched_into_cache(c0, key, r1, c1),
        r1 is Ok,
        c1.contains_key(key) ==> served_from_cache(c1, key, r2, c2),
        !c1.contains_key(key) ==> fetched_into_cache(c1, key, r2, c2),
    ensures
        c1.contains_key(key),
        c2 == c1,
        r2 is Ok,
        r1->Ok_0@ == r2->Ok_0@,
{
}

} // verus!
