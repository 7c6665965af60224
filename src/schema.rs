//! Schemas of single data models, as fetched and as normalised for display.
use vstd::prelude::*;
use vstd::string::StringExecFns;
use vstd::utf8::encode_utf8;
use crate::error::ParseError;
use crate::links::{data_model_github, github_link};
use crate::text::{chars_of, lex_less, lex_lt, lemma_lex_lt_asymmetric, lemma_lex_lt_irreflexive, lemma_lex_lt_total, lemma_lex_lt_transitive};

verus! {

/// `serde_yaml::Value`, the raw alternatives of a property, carried through
/// normalisation as they were fetched.
#[verifier::external_type_specification]
#[verifier::external_body]
pub struct ExYamlValue(serde_yaml::Value);

/// Relies on the derived `Clone` of `serde_yaml::Value`, which copies the
/// value as it is.
pub assume_specification[ <serde_yaml::Value as Clone>::clone ](v: &serde_yaml::Value) -> (r: serde_yaml::Value)
    ensures
        r == *v,
;

/// The `x-ngsi` annotation of a property.
#[derive(Debug, PartialEq)]
pub struct XNgsi {
    pub model: Option<String>,
    pub typ: Option<String>,
    pub units: Option<String>,
}

impl Clone for XNgsi {
    fn clone(&self) -> (r: Self)
        ensures
            r == *self,
    {
        XNgsi { model: self.model.clone(), typ: self.typ.clone(), units: self.units.clone() }
    }
}

/// One property of a model. `name`, `required` and `checked` are set by
/// normalisation; the other fields are carried through as fetched.
#[derive(Debug, PartialEq)]
pub struct Property {
    pub any_of: Option<Vec<serde_yaml::Value>>,
    pub format: Option<String>,
    pub one_of: Option<Vec<serde_yaml::Value>>,
    pub enums: Option<Vec<String>>,
    pub description: Option<String>,
    pub typ: Option<String>,
    pub xngsi: Option<XNgsi>,
    pub checked: bool,
    pub name: String,
    pub required: bool,
}

/// A property with its sequences seen as `Seq`s.
pub struct PropertyView {
    pub any_of: Option<Seq<serde_yaml::Value>>,
    pub format: Option<String>,
    pub one_of: Option<Seq<serde_yaml::Value>>,
    pub enums: Option<Seq<String>>,
    pub description: Option<String>,
    pub typ: Option<String>,
    pub xngsi: Option<XNgsi>,
    pub checked: bool,
    pub name: String,
    pub required: bool,
}

pub open spec fn opt_seq<T>(o: Option<Vec<T>>) -> Option<Seq<T>> {
    match o {
        Some(v) => Some(v@),
        None => None,
    }
}

impl View for Property {
    type V = PropertyView;

    open spec fn view(&self) -> PropertyView {
        PropertyView {
            any_of: opt_seq(self.any_of),
            format: self.format,
            one_of: opt_seq(self.one_of),
            enums: opt_seq(self.enums),
            description: self.description,
            typ: self.typ,
            xngsi: self.xngsi,
            checked: self.checked,
            name: self.name,
            required: self.required,
        }
    }
}

fn clone_values(o: &Option<Vec<serde_yaml::Value>>) -> (r: Option<Vec<serde_yaml::Value>>)
    ensures
        opt_seq(r) == opt_seq(*o),
{
    match o {
        Some(v) => {
            let c = v.clone();
            assert(c@ =~= v@);
            Some(c)
        },
        None => None,
    }
}

impl Clone for Property {
    fn clone(&self) -> (r: Self)
        ensures
            r@ == self@,
    {
        let enums = match &self.enums {
            Some(v) => {
                let c = v.clone();
                assert(c@ =~= v@);
                Some(c)
            },
            None => None,
        };
        Property {
            any_of: clone_values(&self.any_of),
            format: self.format.clone(),
            one_of: clone_values(&self.one_of),
            enums,
            description: self.description.clone(),
            typ: self.typ.clone(),
            xngsi: self.xngsi.clone(),
            checked: self.checked,
            name: self.name.clone(),
            required: self.required,
        }
    }
}

/// The geometries a `location` property can take.
#[derive(Debug, Clone, Copy, PartialEq, Eq)]
pub enum GeoProperty {
    Point,
    LineString,
    Polygon,
    MultiPoint,
    MultiLineString,
    MultiPolygon,
}

pub open spec fn geo_name(g: GeoProperty) -> Seq<char> {
    match g {
        GeoProperty::Point => "Point"@,
        GeoProperty::LineString => "LineString"@,
        GeoProperty::Polygon => "Polygon"@,
        GeoProperty::MultiPoint => "MultiPoint"@,
        GeoProperty::MultiLineString => "MultiLineString"@,
        GeoProperty::MultiPolygon => "MultiPolygon"@,
    }
}

impl GeoProperty {
    /// The geometry's GeoJSON type name.
    pub fn str(&self) -> (r: &'static str)
        ensures
            r@ == geo_name(*self),
    {
        match self {
            GeoProperty::Point => "Point",
            GeoProperty::LineString => "LineString",
            GeoProperty::Polygon => "Polygon",
            GeoProperty::MultiPoint => "MultiPoint",
            GeoProperty::MultiLineString => "MultiLineString",
            GeoProperty::MultiPolygon => "MultiPolygon",
        }
    }

    /// All geometries, in the order they are offered.
    pub fn array() -> (r: [GeoProperty; 6])
        ensures
            r@ == seq![
                GeoProperty::Point,
                GeoProperty::LineString,
                GeoProperty::Polygon,
                GeoProperty::MultiPoint,
                GeoProperty::MultiLineString,
                GeoProperty::MultiPolygon,
            ],
    {
        let r = [
            GeoProperty::Point,
            GeoProperty::LineString,
            GeoProperty::Polygon,
            GeoProperty::MultiPoint,
            GeoProperty::MultiLineString,
            GeoProperty::MultiPolygon,
        ];
        assert(r@ =~= seq![
            GeoProperty::Point,
            GeoProperty::LineString,
            GeoProperty::Polygon,
            GeoProperty::MultiPoint,
            GeoProperty::MultiLineString,
            GeoProperty::MultiPolygon,
        ]);
        r
    }
}

impl Property {
    /// Whether the property is a `location` with alternative shapes, for
    /// which a choice of geometry is offered.
    pub fn offers_geometry_choice(&self) -> (r: bool)
        ensures
            r == (self.one_of is Some && self.name@ == "location"@),
    {
        let location = String::from_str("location");
        self.one_of.is_some() && self.name == location
    }
}

/// The length of a name in bytes, as `str::len` counts it.
pub open spec fn byte_len(s: Seq<char>) -> nat {
    encode_utf8(s).len()
}

/// The display order of properties: checked ones first; among checked ones
/// the shorter name first, then the lexicographically smaller; among
/// unchecked ones the lexicographically smaller name.
pub open spec fn ranks_before(a_checked: bool, a: Seq<char>, b_checked: bool, b: Seq<char>) -> bool {
    if a_checked != b_checked {
        a_checked
    } else if a_checked {
        byte_len(a) < byte_len(b) || (byte_len(a) == byte_len(b) && lex_lt(a, b))
    } else {
        lex_lt(a, b)
    }
}

pub open spec fn property_before(a: Property, b: Property) -> bool {
    ranks_before(a.checked, a.name@, b.checked, b.name@)
}

/// No property stands after one that ranks after it.
pub open spec fn in_display_order(s: Seq<Property>) -> bool {
    forall|i: int, j: int| 0 <= i < j < s.len() ==> !property_before(#[trigger] s[j], #[trigger] s[i])
}

pub proof fn lemma_ranks_before_strict_order(a: Property, b: Property, c: Property)
    ensures
        !property_before(a, a),
        !(property_before(a, b) && property_before(b, a)),
        property_before(a, b) && property_before(b, c) ==> property_before(a, c),
        a.checked == b.checked && a.name@ != b.name@ ==> property_before(a, b) || property_before(b, a),
{
    lemma_lex_lt_irreflexive(a.name@);
    lemma_lex_lt_asymmetric(a.name@, b.name@);
    if lex_lt(a.name@, b.name@) && lex_lt(b.name@, c.name@) {
        lemma_lex_lt_transitive(a.name@, b.name@, c.name@);
    }
    if a.name@ != b.name@ {
        lemma_lex_lt_total(a.name@, b.name@);
    }
}

/// No two properties share a name.
pub open spec fn names_distinct(s: Seq<Property>) -> bool {
    forall|i: int, j: int| 0 <= i < s.len() && 0 <= j < s.len() && i != j ==> (#[trigger] s[i]).name@ != (#[trigger] s[j]).name@
}

/// Display order leaves no freedom: two sequences in display order that hold
/// the same properties, no two of which share a name, are the same sequence.
pub proof fn lemma_display_order_unique(s1: Seq<Property>, s2: Seq<Property>)
    requires
        in_display_order(s1),
        in_display_order(s2),
        s1.to_multiset() == s2.to_multiset(),
        names_distinct(s1),
    ensures
        s1 == s2,
    decreases s1.len(),
{
    broadcast use vstd::seq_lib::group_to_multiset_ensures;

    s1.to_multiset_ensures();
    s2.to_multiset_ensures();
    if s1.len() == 0 {
        assert(s1 =~= s2);
    } else {
        let a = s1[0];
        let b = s2[0];
        assert(s1.to_multiset().count(b) > 0);
        assert(s2.to_multiset().count(a) > 0);
        if a != b {
            let j = choose|j: int| 0 <= j < s1.len() && s1[j] == b;
            let k = choose|k: int| 0 <= k < s2.len() && s2[k] == a;
            assert(j != 0 && k != 0);
            assert(a.name@ != b.name@);
            lemma_ranks_before_strict_order(a, b, b);
            assert(!property_before(s1[j], s1[0]));
            assert(!property_before(s2[k], s2[0]));
        }
        vstd::seq_lib::to_multiset_remove(s1, 0);
        vstd::seq_lib::to_multiset_remove(s2, 0);
        assert(s1.remove(0) =~= s1.drop_first());
        assert(s2.remove(0) =~= s2.drop_first());
        let t1 = s1.drop_first();
        let t2 = s2.drop_first();
        assert forall|i: int, j: int| 0 <= i < j < t1.len() implies !property_before(#[trigger] t1[j], #[trigger] t1[i]) by {
            assert(t1[i] == s1[i + 1] && t1[j] == s1[j + 1]);
        }
        assert forall|i: int, j: int| 0 <= i < j < t2.len() implies !property_before(#[trigger] t2[j], #[trigger] t2[i]) by {
            assert(t2[i] == s2[i + 1] && t2[j] == s2[j + 1]);
        }
        assert forall|i: int, j: int| 0 <= i < t1.len() && 0 <= j < t1.len() && i != j implies (#[trigger] t1[i]).name@ != (#[trigger] t1[j]).name@ by {
            assert(t1[i] == s1[i + 1] && t1[j] == s1[j + 1]);
        }
        lemma_display_order_unique(t1, t2);
        assert(s1 =~= s2) by {
            assert forall|i: int| 0 <= i < s1.len() implies s1[i] == s2[i] by {
                if i > 0 {
                    assert(s1[i] == t1[i - 1] && s2[i] == t2[i - 1]);
                }
            }
        }
    }
}

/// Whether `name` is among `names`.
pub open spec fn names_contain(names: Seq<String>, name: Seq<char>) -> bool {
    exists|i: int| 0 <= i < names.len() && (#[trigger] names[i])@ == name
}

/// A fetched property with its name attached and `required` and `checked`
/// set from the model's list of required names.
pub open spec fn promote(key: String, p: Property, required: Seq<String>) -> Property {
    Property {
        name: key,
        checked: names_contain(required, key@),
        required: names_contain(required, key@),
        ..p
    }
}

pub open spec fn promote_all(entries: Seq<(String, Property)>, required: Seq<String>) -> Seq<Property> {
    entries.map_values(|e: (String, Property)| promote(e.0, e.1, required))
}

fn is_required(required: &Vec<String>, key: &String) -> (r: bool)
    ensures
        r == names_contain(required@, key@),
{
    let mut i: usize = 0;
    while i < required.len()
        invariant
            i <= required.len(),
            forall|j: int| 0 <= j < i ==> (#[trigger] required@[j])@ != key@,
        decreases required.len() - i,
    {
        if required[i] == *key {
            return true;
        }
        i = i + 1;
    }
    false
}

/// Whether property `a` is displayed before property `b`.
fn displayed_before(a: &Property, b: &Property) -> (r: bool)
    ensures
        r == property_before(*a, *b),
{
    if a.checked != b.checked {
        return a.checked;
    }
    let an = chars_of(a.name.as_str());
    let bn = chars_of(b.name.as_str());
    if a.checked {
        let la = a.name.as_str().as_bytes().len();
        let lb = b.name.as_str().as_bytes().len();
        la < lb || (la == lb && lex_less(&an, &bn))
    } else {
        lex_less(&an, &bn)
    }
}

/// Inserts `x` into `v`, which is in display order, after every property
/// that `x` does not rank before.
fn insert_in_order(v: &mut Vec<Property>, x: Property)
    requires
        in_display_order(old(v)@),
    ensures
        in_display_order(final(v)@),
        final(v)@.to_multiset() == old(v)@.to_multiset().insert(x),
{
    let mut pos: usize = 0;
    while pos < v.len() && !displayed_before(&x, &v[pos])
        invariant
            pos <= v.len(),
            forall|k: int| 0 <= k < pos ==> !property_before(x, #[trigger] v@[k]),
        decreases v.len() - pos,
    {
        pos = pos + 1;
    }
    let ghost s = v@;
    v.insert(pos, x);
    proof {
        vstd::seq_lib::to_multiset_insert(s, pos as int, x);
        assert(v@ == s.insert(pos as int, x));
        assert forall|i: int, j: int| 0 <= i < j < v@.len() implies !property_before(#[trigger] v@[j], #[trigger] v@[i]) by {
            lemma_ranks_before_strict_order(x, x, x);
            if j < pos {
                assert(v@[i] == s[i] && v@[j] == s[j]);
            } else if j == pos {
                assert(v@[i] == s[i]);
                assert(!property_before(x, s[i]));
            } else if i > pos {
                assert(v@[i] == s[i - 1] && v@[j] == s[j - 1]);
            } else if i == pos {
                assert(v@[j] == s[j - 1]);
                assert(property_before(x, s[pos as int]));
                lemma_ranks_before_strict_order(s[j - 1], x, s[pos as int]);
                lemma_ranks_before_strict_order(s[pos as int], s[pos as int], s[pos as int]);
                if j - 1 > pos {
                    assert(!property_before(s[j - 1], s[pos as int]));
                }
            } else {
                assert(v@[i] == s[i] && v@[j] == s[j - 1]);
            }
        }
    }
}

/// A model's schema as fetched: its properties by name, in the order of the
/// document.
#[derive(Debug, PartialEq)]
pub struct Model {
    pub description: String,
    pub properties: Vec<(String, Property)>,
    pub required: Vec<String>,
    pub typ: String,
    pub derived_from: String,
    pub disclaimer: String,
    pub license_url: String,
    pub schema: String,
    pub tags: String,
    pub version: String,
    pub url: String,
}

/// A model's schema ready for display: its properties named, marked and in
/// display order.
#[derive(Debug, PartialEq)]
pub struct ParsedModel {
    pub description: String,
    pub properties: Vec<Property>,
    pub required: Vec<String>,
    pub typ: String,
    pub derived_from: String,
    pub disclaimer: String,
    pub license_url: String,
    pub schema: String,
    pub tags: String,
    pub version: String,
    pub url: String,
}

pub struct ParsedModelView {
    pub description: String,
    pub properties: Seq<PropertyView>,
    pub required: Seq<String>,
    pub typ: String,
    pub derived_from: String,
    pub disclaimer: String,
    pub license_url: String,
    pub schema: String,
    pub tags: String,
    pub version: String,
    pub url: String,
}

impl View for ParsedModel {
    type V = ParsedModelView;

    open spec fn view(&self) -> ParsedModelView {
        ParsedModelView {
            description: self.description,
            properties: self.properties@.map_values(|p: Property| p@),
            required: self.required@,
            typ: self.typ,
            derived_from: self.derived_from,
            disclaimer: self.disclaimer,
            license_url: self.license_url,
            schema: self.schema,
            tags: self.tags,
            version: self.version,
            url: self.url,
        }
    }
}

impl Clone for ParsedModel {
    fn clone(&self) -> (r: Self)
        ensures
            r@ == self@,
    {
        let properties = self.properties.clone();
        let required = self.required.clone();
        assert(properties@.map_values(|p: Property| p@) =~= self.properties@.map_values(|p: Property| p@));
        assert(required@ =~= self.required@);
        ParsedModel {
            description: self.description.clone(),
            properties,
            required,
            typ: self.typ.clone(),
            derived_from: self.derived_from.clone(),
            disclaimer: self.disclaimer.clone(),
            license_url: self.license_url.clone(),
            schema: self.schema.clone(),
            tags: self.tags.clone(),
            version: self.version.clone(),
            url: self.url.clone(),
        }
    }
}

/// Entry `k` holds the first of the least keys of a document.
pub open spec fn first_least_key(doc: Seq<(String, Model)>, k: int) -> bool {
    &&& 0 <= k < doc.len()
    &&& forall|j: int| 0 <= j < k ==> lex_lt(doc[k].0@, (#[trigger] doc[j]).0@)
    &&& forall|j: int| k < j < doc.len() ==> !lex_lt((#[trigger] doc[j]).0@, doc[k].0@)
}

impl Model {
    /// Picks the schema out of a parsed model document, whose top-level keys
    /// are model names: the entry of the least key (a document is expected to
    /// hold one), with its `url` set to the model's page.
    pub fn from_document(doc: Vec<(String, Model)>, repo_name: &str, name: &str) -> (r: Result<Model, ParseError>)
        ensures
            doc@.len() == 0 <==> r is Err,
            r is Err ==> r == Err::<Model, ParseError>(ParseError::EmptyDocument),
            r matches Ok(m) ==> m.url@ == github_link(repo_name@, name@) && exists|k: int|
                first_least_key(doc@, k) && m == (Model { url: m.url, ..doc@[k].1 }),
    {
        if doc.len() == 0 {
            return Err(ParseError::EmptyDocument);
        }
        let mut best: usize = 0;
        let mut best_key = chars_of(doc[0].0.as_str());
        let mut j: usize = 1;
        while j < doc.len()
            invariant
                0 < j <= doc.len(),
                best < j,
                best_key@ == doc@[best as int].0@,
                forall|i: int| 0 <= i < best ==> lex_lt(doc@[best as int].0@, (#[trigger] doc@[i]).0@),
                forall|i: int| best < i < j ==> !lex_lt((#[trigger] doc@[i]).0@, doc@[best as int].0@),
            decreases doc.len() - j,
        {
            let key = chars_of(doc[j].0.as_str());
            if lex_less(&key, &best_key) {
                proof {
                    let kb = doc@[best as int].0@;
                    let kj = doc@[j as int].0@;
                    assert forall|i: int| 0 <= i < j implies lex_lt(kj, (#[trigger] doc@[i]).0@) by {
                        let ki = doc@[i].0@;
                        if i < best {
                            lemma_lex_lt_transitive(kj, kb, ki);
                        } else if i > best {
                            if ki != kb {
                                lemma_lex_lt_total(ki, kb);
                                lemma_lex_lt_transitive(kj, kb, ki);
                            }
                        }
                    }
                }
                best = j;
                best_key = key;
            }
            j = j + 1;
        }
        let ghost k = best as int;
        let ghost old_doc = doc@;
        let mut doc = doc;
        let (_, mut model) = doc.remove(best);
        model.url = data_model_github(repo_name, name);
        assert(first_least_key(old_doc, k));
        Ok(model)
    }

    /// Normalises the schema: each property gets its name, is marked
    /// required and checked when its name is among the required ones, and
    /// the properties are put in display order.
    pub fn into_parsed(self) -> (r: ParsedModel)
        ensures
            in_display_order(r.properties@),
            r.properties@.to_multiset() == promote_all(self.properties@, self.required@).to_multiset(),
            r.description == self.description,
            r.required == self.required,
            r.typ == self.typ,
            r.derived_from == self.derived_from,
            r.disclaimer == self.disclaimer,
            r.license_url == self.license_url,
            r.schema == self.schema,
            r.tags == self.tags,
            r.version == self.version,
            r.url == self.url,
    {
        let Model {
            description,
            properties,
            required,
            typ,
            derived_from,
            disclaimer,
            license_url,
            schema,
            tags,
            version,
            url,
        } = self;
        let ghost entries = properties@;
        let mut sorted: Vec<Property> = Vec::new();
        assert(sorted@ =~= promote_all(entries.subrange(0, 0), required@));
        for entry in it: properties.into_iter()
            invariant
                it.seq() == entries,
                in_display_order(sorted@),
                sorted@.to_multiset() == promote_all(
                    entries.subrange(0, it.index() as int),
                    required@,
                ).to_multiset(),
        {
            let ghost k = it.index();
            let (key, mut val) = entry;
            let ghost orig = val;
            let ghost orig_key = key;
            let c = is_required(&required, &key);
            val.name = key;
            val.checked = c;
            val.required = c;
            assert(val == promote(orig_key, orig, required@));
            proof {
                assert(promote_all(entries.subrange(0, k + 1), required@) =~= promote_all(
                    entries.subrange(0, k as int),
                    required@,
                ).push(val));
                vstd::seq_lib::to_multiset_build(promote_all(entries.subrange(0, k as int), required@), val);
            }
            insert_in_order(&mut sorted, val);
        }
        assert(entries.subrange(0, entries.len() as int) =~= entries);
        ParsedModel {
            description,
            properties: sorted,
            required,
            typ,
            derived_from,
            disclaimer,
            license_url,
            schema,
            tags,
            version,
            url,
        }
    }
}

} // verus!
