use vstd::prelude::*;

use crate::error::Error;
use crate::json::{parsed_json, spec_get, JsonValue};
use crate::options::{AliasMap, AliasMapView};
use crate::path::{is_absolute, normalizable, spec_normalized, NormalizedPath};

verus! {

/// A parsed `package.json`.
#[derive(Debug)]
pub struct PkgJSON {
    name: Option<String>,
    alias_fields: Vec<(String, AliasMap)>,
    raw: JsonValue,
}

/// The `name` of a description file when it is a string.
pub open spec fn spec_pkg_name(raw: JsonValue) -> Option<Seq<char>> {
    match spec_get(raw, "name"@) {
        Some(JsonValue::String(s)) => Some(s@),
        _ => None,
    }
}

/// The alias that one member of a `browser` object gives, if any.
pub open spec fn browser_member(key: Seq<char>, value: JsonValue) -> Option<(Seq<char>, AliasMapView)> {
    match value {
        JsonValue::Bool(false) => Some((key, AliasMapView::Ignored)),
        JsonValue::String(s) => Some((key, AliasMapView::Target(s@))),
        _ => None,
    }
}

/// The aliases of the first `n` members of a `browser` object.
pub open spec fn browser_members(entries: Seq<(String, JsonValue)>, n: int) -> Seq<(Seq<char>, AliasMapView)>
    decreases n,
{
    if n <= 0 || n > entries.len() {
        Seq::empty()
    } else {
        browser_members(entries, n - 1) + match browser_member(entries[n - 1].0@, entries[n - 1].1) {
            Some(a) => seq![a],
            None => Seq::empty(),
        }
    }
}

/// The aliases of the `browser` field: an object maps each key to a path
/// (`false` ignores it); a string or `false` applies to the package itself (`.`).
pub open spec fn spec_alias_fields(raw: JsonValue) -> Seq<(Seq<char>, AliasMapView)> {
    match spec_get(raw, "browser"@) {
        Some(JsonValue::Object(map)) => browser_members(map@, map@.len() as int),
        Some(JsonValue::Bool(false)) => seq![(seq!['.'], AliasMapView::Ignored)],
        Some(JsonValue::String(s)) => seq![(seq!['.'], AliasMapView::Target(s@))],
        _ => Seq::empty(),
    }
}

/// The model of a list of aliases.
pub open spec fn aliases_view(v: Seq<(String, AliasMap)>) -> Seq<(Seq<char>, AliasMapView)> {
    v.map_values(|p: (String, AliasMap)| (p.0@, p.1@))
}

/// The value found by following `fields` from `v`, each step into an object.
pub open spec fn spec_get_field(v: JsonValue, fields: Seq<Seq<char>>) -> Option<JsonValue>
    decreases fields.len(),
{
    if fields.len() == 0 {
        Some(v)
    } else {
        match v {
            JsonValue::Object(_) => match spec_get(v, fields[0]) {
                Some(next) => spec_get_field(next, fields.drop_first()),
                None => None,
            },
            _ => None,
        }
    }
}

fn browser_aliases(raw: &JsonValue) -> (r: Vec<(String, AliasMap)>)
    ensures
        aliases_view(r@) == spec_alias_fields(*raw),
{
    let mut alias_fields: Vec<(String, AliasMap)> = Vec::new();
    proof {
        reveal_strlit(".");
        assert("."@ =~= seq!['.']);
    }
    match raw.get("browser") {
        Some(value) => {
            match value {
                JsonValue::Object(map) => {
                    let mut i: usize = 0;
                    while i < map.len()
                        invariant
                            i <= map@.len(),
                            aliases_view(alias_fields@) == browser_members(map@, i as int),
                        decreases map@.len() - i,
                    {
                        let ghost before = alias_fields@;
                        match &map[i].1 {
                            JsonValue::Bool(false) => {
                                alias_fields.push((map[i].0.clone(), AliasMap::Ignored));
                            },
                            JsonValue::String(s) => {
                                alias_fields.push((map[i].0.clone(), AliasMap::Target(s.clone())));
                            },
                            _ => {},
                        }
                        assert(aliases_view(alias_fields@) =~= browser_members(map@, i + 1));
                        i = i + 1;
                    }
                },
                JsonValue::Bool(false) => {
                    alias_fields.push((String::from_str("."), AliasMap::Ignored));
                    assert(aliases_view(alias_fields@) =~= spec_alias_fields(*raw));
                },
                JsonValue::String(s) => {
                    alias_fields.push((String::from_str("."), AliasMap::Target(s.clone())));
                    assert(aliases_view(alias_fields@) =~= spec_alias_fields(*raw));
                },
                _ => {},
            }
        },
        None => {},
    }
    alias_fields
}

impl PkgJSON {
    /// The description read from a JSON value.
    pub fn from_value(raw: JsonValue) -> (r: Self)
        ensures
            r.raw_view() == raw,
            r.name_view() == spec_pkg_name(raw),
            r.aliases() == spec_alias_fields(raw),
    {
        let name = match raw.get("name") {
            Some(JsonValue::String(s)) => Some(s.clone()),
            _ => None,
        };
        let alias_fields = browser_aliases(&raw);
        PkgJSON { name, alias_fields, raw }
    }

    /// Parses the text of a description file (`PkgJSON::parse`).
    pub fn parse(content: &str, file_path: &str) -> (r: Result<Self, Error>)
        ensures
            r is Ok <==> parsed_json(content@) is Some,
            r matches Ok(p) ==> Some(p.raw_view()) == parsed_json(content@) && p.name_view()
                == spec_pkg_name(p.raw_view()) && p.aliases() == spec_alias_fields(p.raw_view()),
            r matches Err(e) ==> e matches Error::UnexpectedJson((p, _)) && p@ == file_path@,
    {
        match JsonValue::parse(content) {
            Ok(json) => Ok(PkgJSON::from_value(json)),
            Err(message) => Err(Error::UnexpectedJson((file_path.to_owned(), message))),
        }
    }

    pub closed spec fn raw_view(&self) -> JsonValue {
        self.raw
    }

    pub closed spec fn name_view(&self) -> Option<Seq<char>> {
        match self.name {
            Some(s) => Some(s@),
            None => None,
        }
    }

    pub closed spec fn aliases(&self) -> Seq<(Seq<char>, AliasMapView)> {
        aliases_view(self.alias_fields@)
    }

    /// The aliases of the `browser` field.
    pub fn alias_fields(&self) -> (r: &Vec<(String, AliasMap)>)
        ensures
            aliases_view(r@) == self.aliases(),
    {
        &self.alias_fields
    }

    /// The value at a path of fields (`PkgJSON::get_filed`).
    pub fn get_filed(&self, field: &Vec<String>) -> (r: Option<&JsonValue>)
        ensures
            match r {
                Some(v) => spec_get_field(self.raw_view(), crate::options::texts(field@)) == Some(*v),
                None => spec_get_field(self.raw_view(), crate::options::texts(field@)) is None,
            },
    {
        let mut current_value = &self.raw;
        let mut i: usize = 0;
        assert(crate::options::texts(field@).subrange(0, field@.len() as int) =~= crate::options::texts(field@));
        while i < field.len()
            invariant
                i <= field@.len(),
                spec_get_field(self.raw_view(), crate::options::texts(field@)) == spec_get_field(
                    *current_value,
                    crate::options::texts(field@).subrange(i as int, field@.len() as int),
                ),
            decreases field@.len() - i,
        {
            let ghost rest = crate::options::texts(field@).subrange(i as int, field@.len() as int);
            assert(rest.drop_first() =~= crate::options::texts(field@).subrange(i + 1, field@.len() as int));
            if !current_value.is_object() {
                return None;
            }
            match current_value.get(field[i].as_str()) {
                Some(next) => current_value = next,
                None => {
                    return None;
                },
            }
            i = i + 1;
        }
        assert(crate::options::texts(field@).subrange(i as int, field@.len() as int) =~= Seq::<Seq<char>>::empty());
        Some(current_value)
    }

    pub fn name(&self) -> (r: Option<&str>)
        ensures
            match r {
                Some(s) => self.name_view() == Some(s@),
                None => self.name_view() is None,
            },
    {
        match &self.name {
            Some(s) => Some(s.as_str()),
            None => None,
        }
    }

    pub fn raw(&self) -> (r: &JsonValue)
        ensures
            *r == self.raw_view(),
    {
        &self.raw
    }
}

/// A description file and the directory it stands in.
#[derive(Debug)]
pub struct DescriptionData {
    json: PkgJSON,
    /// The directory where the description file is located.
    dir_path: NormalizedPath,
}

impl DescriptionData {
    pub fn new(json: PkgJSON, dir_path: &str) -> (r: Self)
        requires
            normalizable(dir_path@),
        ensures
            r.dir()@ == spec_normalized(dir_path@),
            is_absolute(dir_path@) ==> is_absolute(r.dir()@),
            r.data() == json,
    {
        DescriptionData { json, dir_path: NormalizedPath::new(dir_path) }
    }

    pub closed spec fn dir(&self) -> NormalizedPath {
        self.dir_path
    }

    pub closed spec fn data(&self) -> PkgJSON {
        self.json
    }

    /// The directory of the description file.
    pub fn dir_path(&self) -> (r: &NormalizedPath)
        ensures
            *r == self.dir(),
    {
        &self.dir_path
    }

    /// The description itself.
    pub fn json(&self) -> (r: &PkgJSON)
        ensures
            *r == self.data(),
    {
        &self.json
    }
}

} // verus!
