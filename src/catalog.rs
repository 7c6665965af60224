//! The catalog of data-model repositories, its loading and its filtering.
use vstd::prelude::*;
use vstd::string::StrSliceExecFns;
use crate::error::ParseError;
use crate::links::{data_model_yaml, yaml_link};
use crate::search::{contains, occurs_at, occurs_in};
use crate::text::chars_of;

verus! {

/// A repository entry as the catalog document lists it.
#[derive(Debug, PartialEq)]
pub struct RawDataModelRepo {
    pub repo_name: String,
    pub link: String,
    pub data_models: Vec<String>,
    pub domains: Vec<String>,
}

/// The catalog document.
#[derive(Debug, PartialEq)]
pub struct RawModelList {
    pub date: String,
    pub entries: Vec<RawDataModelRepo>,
}

/// A repository of data models.
#[derive(Debug, PartialEq)]
pub struct DataModelRepo {
    pub name: String,
    pub link: String,
    pub data_models: Vec<String>,
    pub domains: Vec<String>,
}

pub struct DataModelRepoView {
    pub name: String,
    pub link: String,
    pub data_models: Seq<String>,
    pub domains: Seq<String>,
}

impl View for DataModelRepo {
    type V = DataModelRepoView;

    open spec fn view(&self) -> DataModelRepoView {
        DataModelRepoView {
            name: self.name,
            link: self.link,
            data_models: self.data_models@,
            domains: self.domains@,
        }
    }
}

impl Clone for DataModelRepo {
    fn clone(&self) -> (r: Self)
        ensures
            r@ == self@,
    {
        let data_models = self.data_models.clone();
        let domains = self.domains.clone();
        assert(data_models@ =~= self.data_models@);
        assert(domains@ =~= self.domains@);
        DataModelRepo { name: self.name.clone(), link: self.link.clone(), data_models, domains }
    }
}

/// The catalog: when it was updated and its repositories.
#[derive(Debug, PartialEq)]
pub struct ModelList {
    pub date: String,
    pub entries: Vec<DataModelRepo>,
}

impl Clone for ModelList {
    fn clone(&self) -> (r: Self)
        ensures
            r.date == self.date,
            r.entries@.map_values(|e: DataModelRepo| e@) == self.entries@.map_values(|e: DataModelRepo| e@),
    {
        let entries = self.entries.clone();
        assert(entries@.map_values(|e: DataModelRepo| e@) =~= self.entries@.map_values(|e: DataModelRepo| e@));
        ModelList { date: self.date.clone(), entries }
    }
}

/// The name of a repository from its identifier `<prefix>.<Name>`: what
/// follows the first `.`, if there is one.
pub open spec fn short_name(s: Seq<char>) -> Option<Seq<char>>
    decreases s.len(),
{
    if s.len() == 0 {
        None
    } else if s[0] == '.' {
        Some(s.drop_first())
    } else {
        short_name(s.drop_first())
    }
}

/// The repository name in a raw identifier, or `MalformedRepoName` when it
/// has no `.`.
pub fn remove_part(raw: &str) -> (r: Result<String, ParseError>)
    ensures
        short_name(raw@) matches Some(n) ==> r matches Ok(s) && s@ == n,
        short_name(raw@) is None ==> r == Err::<String, ParseError>(ParseError::MalformedRepoName),
{
    let t = chars_of(raw);
    let n = t.len();
    let mut i: usize = 0;
    assert(t@.subrange(0, n as int) =~= t@);
    while i < n
        invariant
            t@ == raw@,
            n == t.len(),
            i <= n,
            short_name(raw@) == short_name(t@.subrange(i as int, n as int)),
        decreases n - i,
    {
        assert(t@.subrange(i as int, n as int).drop_first() =~= t@.subrange(i + 1, n as int));
        if t[i] == '.' {
            return Ok(raw.substring_char(i + 1, n).to_owned());
        }
        i = i + 1;
    }
    Err(ParseError::MalformedRepoName)
}

/// The entry made of a raw entry: its name is the short name of its
/// identifier, the rest is kept.
pub open spec fn entry_from(raw: RawDataModelRepo, e: DataModelRepo) -> bool {
    &&& short_name(raw.repo_name@) == Some(e.name@)
    &&& e.link == raw.link
    &&& e.data_models == raw.data_models
    &&& e.domains == raw.domains
}

/// A repository matches a pattern when it occurs in its name or in the name
/// of one of its models.
pub open spec fn repo_matches(e: DataModelRepoView, p: Seq<char>) -> bool {
    occurs_in(e.name@, p) || exists|i: int| 0 <= i < e.data_models.len() && occurs_in((#[trigger] e.data_models[i])@, p)
}

impl ModelList {
    /// Loads the catalog from its document. One identifier without a `.`
    /// fails the whole load.
    pub fn load(raw: RawModelList) -> (r: Result<ModelList, ParseError>)
        ensures
            r is Ok <==> forall|i: int| 0 <= i < raw.entries.len() ==> (#[trigger] short_name(raw.entries@[i].repo_name@)) is Some,
            r is Err ==> r == Err::<ModelList, ParseError>(ParseError::MalformedRepoName),
            r matches Ok(l) ==> {
                &&& l.date == raw.date
                &&& l.entries.len() == raw.entries.len()
                &&& forall|i: int| 0 <= i < raw.entries.len() ==> entry_from(raw.entries@[i], #[trigger] l.entries@[i])
            },
    {
        let ghost src = raw.entries@;
        let RawModelList { date, entries } = raw;
        assert(entries@ == src);
        let mut out: Vec<DataModelRepo> = Vec::new();
        for e in it: entries.into_iter()
            invariant
                it.seq() == src,
                src == raw.entries@,
                out.len() == it.index(),
                forall|i: int| 0 <= i < it.index() ==> entry_from(src[i], #[trigger] out@[i]),
        {
            let ghost k = it.index();
            let ghost orig = e;
            let RawDataModelRepo { repo_name, link, data_models, domains } = e;
            match remove_part(repo_name.as_str()) {
                Ok(name) => {
                    out.push(DataModelRepo { name, link, data_models, domains });
                    assert(entry_from(orig, out@[k as int]));
                },
                Err(err) => {
                    assert(short_name(raw.entries@[k as int].repo_name@) is None);
                    return Err(err);
                },
            }
        }
        assert forall|i: int| 0 <= i < raw.entries.len() implies (#[trigger] short_name(raw.entries@[i].repo_name@)) is Some by {
            assert(entry_from(src[i], out@[i]));
        }
        Ok(ModelList { date, entries: out })
    }

    /// The entries that match `filter`, in catalog order. Every entry
    /// matches the empty filter.
    pub fn get_filtered_entries(&self, filter: &str) -> (r: Vec<DataModelRepo>)
        ensures
            r@.map_values(|e: DataModelRepo| e@) == self.entries@.map_values(|e: DataModelRepo| e@).filter(
                |v: DataModelRepoView| repo_matches(v, filter@),
            ),
    {
        let ghost all = self.entries@.map_values(|e: DataModelRepo| e@);
        let ghost pred = |v: DataModelRepoView| repo_matches(v, filter@);
        let mut out: Vec<DataModelRepo> = Vec::new();
        let mut i: usize = 0;
        assert(all.subrange(0, 0).filter(pred) =~= Seq::<DataModelRepoView>::empty());
        while i < self.entries.len()
            invariant
                i <= self.entries.len(),
                all == self.entries@.map_values(|e: DataModelRepo| e@),
                pred == (|v: DataModelRepoView| repo_matches(v, filter@)),
                out@.map_values(|e: DataModelRepo| e@) == all.subrange(0, i as int).filter(pred),
            decreases self.entries.len() - i,
        {
            let ghost before = out@;
            assert(all.subrange(0, i + 1) =~= all.subrange(0, i as int).push(all[i as int]));
            proof {
                all.subrange(0, i as int).lemma_filter_push(all[i as int], pred);
            }
            if self.entries[i].matches(filter) {
                out.push(self.entries[i].clone());
                assert(out@.map_values(|e: DataModelRepo| e@) =~= before.map_values(|e: DataModelRepo| e@).push(
                    all[i as int],
                ));
            }
            i = i + 1;
        }
        assert(all.subrange(0, self.entries@.len() as int) =~= all);
        out
    }
}

/// Every repository matches the empty pattern, so filtering by it keeps the
/// whole catalog.
pub proof fn lemma_empty_filter_keeps_all(entries: Seq<DataModelRepoView>)
    ensures
        entries.filter(|v: DataModelRepoView| repo_matches(v, Seq::<char>::empty())) == entries,
    decreases entries.len(),
{
    let pred = |v: DataModelRepoView| repo_matches(v, Seq::<char>::empty());
    if entries.len() > 0 {
        let d = entries.drop_last();
        let last = entries.last();
        lemma_empty_filter_keeps_all(d);
        assert(last.name@.subrange(0, 0) =~= Seq::<char>::empty());
        assert(occurs_at(last.name@, Seq::<char>::empty(), 0));
        d.lemma_filter_push(last, pred);
        assert(d.push(last) =~= entries);
    } else {
        assert(entries.filter(pred) =~= entries);
    }
}

impl DataModelRepo {
    /// Whether `filter` occurs in the repository's name or in the name of one
    /// of its models.
    pub fn matches(&self, filter: &str) -> (r: bool)
        ensures
            r == repo_matches(self@, filter@),
    {
        if contains(self.name.as_str(), filter) {
            return true;
        }
        let mut i: usize = 0;
        while i < self.data_models.len()
            invariant
                i <= self.data_models.len(),
                !occurs_in(self.name@, filter@),
                forall|j: int| 0 <= j < i ==> !occurs_in((#[trigger] self.data_models@[j])@, filter@),
            decreases self.data_models.len() - i,
        {
            if contains(self.data_models[i].as_str(), filter) {
                assert(self@.data_models[i as int] == self.data_models@[i as int]);
                return true;
            }
            i = i + 1;
        }
        false
    }
}

/// The model picked by the user: its repository, its name and where its
/// schema is published.
#[derive(Debug, Default, Clone)]
pub struct DataModelData {
    pub repo_name: String,
    pub name: String,
    pub url: String,
}

impl DataModelData {
    /// The selection of model `name` of repository `repo_name`.
    pub fn select(repo_name: &str, name: &str) -> (r: DataModelData)
        ensures
            r.repo_name@ == repo_name@,
            r.name@ == name@,
            r.url@ == yaml_link(repo_name@, name@),
    {
        DataModelData { repo_name: repo_name.to_owned(), name: name.to_owned(), url: data_model_yaml(repo_name, name) }
    }

    /// The name of the selected model, if one is selected.
    pub fn maybe_current(&self) -> (r: Option<&str>)
        ensures
            self.name@.len() == 0 ==> r is None,
            self.name@.len() > 0 ==> (r matches Some(s) && s@ == self.name@),
    {
        if self.name.as_str().is_empty() {
            return None;
        }
        Some(self.name.as_str())
    }
}

} // verus!
