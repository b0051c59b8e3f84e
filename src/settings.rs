//! Associations declared in an editor settings file: the `json.schemas`
//! array of `<base>/.vscode/settings.json`, whose entries pair `fileMatch`
//! glob patterns with a schema given by path (`url`) or inline (`schema`).

use vstd::prelude::*;
use crate::assoc::{lemma_with_paths_twice, regularize_all, regularized_set, with_paths, Associations};
use crate::json::{
    elements, is_object, jsonc_document, jsonc_token_kinds, json_elements, json_is_object,
    json_member, json_string, max_nesting, member, nesting_within, parse_jsonc, string_value,
    token_kinds, MAX_NESTING,
};
use crate::path::{joined, opt_path, parse_path, regularize, regularized, FsPath, PathModel};
use crate::schema::{Schema, SchemaModel};

verus! {

/// Where the schema of one settings entry is to be found.
#[derive(Debug)]
pub enum SchemaSource {
    /// The file at this path, before it is canonicalized.
    File(FsPath),
    /// A document written in the settings, as compact JSON text.
    Inline(String),
}

/// What a schema source means.
pub enum SourceModel {
    File(PathModel),
    Inline(Seq<char>),
}

impl View for SchemaSource {
    type V = SourceModel;

    open spec fn view(&self) -> SourceModel {
        match self {
            SchemaSource::File(p) => SourceModel::File(p@),
            SchemaSource::Inline(t) => SourceModel::Inline(t@),
        }
    }
}

/// One usable entry of `json.schemas`: its glob patterns, made relative to
/// the base directory, and its schema.
#[derive(Debug)]
pub struct Definition {
    pub patterns: Vec<String>,
    /// The elements of `fileMatch` that were left out, in order: a pattern
    /// that begins with `../` as itself, an element that is no string as none.
    pub refused: Vec<Option<String>>,
    pub schema: SchemaSource,
}

/// What a definition means.
pub struct DefinitionModel {
    pub patterns: Seq<Seq<char>>,
    pub refused: Seq<Option<Seq<char>>>,
    pub schema: SourceModel,
}

impl View for Definition {
    type V = DefinitionModel;

    open spec fn view(&self) -> DefinitionModel {
        DefinitionModel {
            patterns: self.patterns@.map_values(|p: String| p@),
            refused: self.refused.deep_view(),
            schema: self.schema@,
        }
    }
}

/// Why an entry of `json.schemas` gives no definition.
#[derive(Debug, Clone, Copy, PartialEq, Eq, Structural)]
pub enum Skip {
    /// The entry is no object.
    NotObject,
    /// It has no `fileMatch`.
    NoFileMatch,
    /// Its `fileMatch` is no array.
    FileMatchNotArray,
    /// Its `url` is no string.
    UrlNotString,
    /// Its `url` is an `http://` or `https://` address, which is not fetched.
    RemoteUrl,
    /// It has no `url`, and its `schema` is no object.
    SchemaNotObject,
    /// It has neither `url` nor `schema`.
    NoSchema,
}

/// Why a settings text gives no definitions at all.
#[derive(Debug, Clone, Copy, PartialEq, Eq, Structural)]
pub enum SettingsError {
    /// The text is no JSON-with-comments document, or holds no value.
    Unparsable,
    /// Its brackets nest deeper than `MAX_NESTING`.
    TooDeep,
    /// The document has no `json.schemas` member.
    NoSchemas,
    /// Its `json.schemas` is no array.
    SchemasNotArray,
}

/// `s` begins with `p`.
pub open spec fn starts_with(s: Seq<char>, p: Seq<char>) -> bool {
    p.len() <= s.len() && s.take(p.len() as int) == p
}

/// A `fileMatch` pattern as it is matched from the base directory: a leading
/// `./` is dropped, and a pattern that begins with `../` is refused.
pub open spec fn normalized_pattern(p: Seq<char>) -> Option<Seq<char>> {
    if starts_with(p, "./"@) {
        Some(p.skip("./"@.len() as int))
    } else if starts_with(p, "../"@) {
        None
    } else {
        Some(p)
    }
}

/// The patterns kept from the elements of a `fileMatch` array, each given as
/// its string or as none where it is no string.
pub open spec fn kept_patterns(items: Seq<Option<Seq<char>>>) -> Seq<Seq<char>>
    decreases items.len(),
{
    if items.len() == 0 {
        Seq::empty()
    } else {
        let rest = kept_patterns(items.drop_last());
        match items.last() {
            Some(p) => match normalized_pattern(p) {
                Some(q) => rest.push(q),
                None => rest,
            },
            None => rest,
        }
    }
}

/// The elements of a `fileMatch` array that are left out, in order: a
/// pattern that begins with `../` as itself, an element that is no string as
/// none.
pub open spec fn refused_patterns(items: Seq<Option<Seq<char>>>) -> Seq<Option<Seq<char>>>
    decreases items.len(),
{
    if items.len() == 0 {
        Seq::empty()
    } else {
        let rest = refused_patterns(items.drop_last());
        match items.last() {
            Some(p) => match normalized_pattern(p) {
                Some(_) => rest,
                None => rest.push(Some(p)),
            },
            None => rest.push(None),
        }
    }
}

/// The schema that a `url` names from `base`: none for `http://` and
/// `https://` addresses, else the path read from `base`, a leading `/`
/// dropped.
pub open spec fn url_source(base: PathModel, url: Seq<char>) -> Option<SourceModel> {
    if starts_with(url, "http://"@) || starts_with(url, "https://"@) {
        None
    } else if starts_with(url, "/"@) {
        Some(SourceModel::File(joined(base, parse_path(url.skip(1)))))
    } else {
        Some(SourceModel::File(joined(base, parse_path(url))))
    }
}

/// The schema of the entry `def`: its `url` where it has one, which must be a
/// string; else its `schema`, which must be an object.
pub open spec fn definition_source(base: PathModel, def: Seq<char>) -> Result<SourceModel, Skip> {
    match json_member(def, "url"@) {
        Some(u) => match json_string(u) {
            Some(s) => match url_source(base, s) {
                Some(source) => Ok(source),
                None => Err(Skip::RemoteUrl),
            },
            None => Err(Skip::UrlNotString),
        },
        None => match json_member(def, "schema"@) {
            Some(inline) => if json_is_object(inline) {
                Ok(SourceModel::Inline(inline))
            } else {
                Err(Skip::SchemaNotObject)
            },
            None => Err(Skip::NoSchema),
        },
    }
}

/// Each element text read as a string, or none.
pub open spec fn string_values(items: Seq<Seq<char>>) -> Seq<Option<Seq<char>>> {
    items.map_values(|i: Seq<char>| json_string(i))
}

/// The definition that the entry `def` of `json.schemas` gives: it must be
/// an object with a `fileMatch` array and a usable schema; else the first of
/// these that fails.
pub open spec fn definition_of(base: PathModel, def: Seq<char>) -> Result<DefinitionModel, Skip> {
    if !json_is_object(def) {
        Err(Skip::NotObject)
    } else {
        match json_member(def, "fileMatch"@) {
            None => Err(Skip::NoFileMatch),
            Some(file_match) => match json_elements(file_match) {
                None => Err(Skip::FileMatchNotArray),
                Some(items) => match definition_source(base, def) {
                    Err(why) => Err(why),
                    Ok(schema) => Ok(
                        DefinitionModel {
                            patterns: kept_patterns(string_values(items)),
                            refused: refused_patterns(string_values(items)),
                            schema,
                        },
                    ),
                },
            },
        }
    }
}

/// The entries of `json.schemas` in the settings text `text`, as element
/// texts; else why there are none. A text that does not scan is unparsable,
/// and one nested too deep is not parsed.
pub open spec fn settings_entries(text: Seq<char>) -> Result<Seq<Seq<char>>, SettingsError> {
    match jsonc_token_kinds(text) {
        None => Err(SettingsError::Unparsable),
        Some(kinds) => if max_nesting(kinds) > MAX_NESTING {
            Err(SettingsError::TooDeep)
        } else {
            match jsonc_document(text) {
                None => Err(SettingsError::Unparsable),
                Some(doc) => match json_member(doc, "json.schemas"@) {
                    None => Err(SettingsError::NoSchemas),
                    Some(array) => match json_elements(array) {
                        None => Err(SettingsError::SchemasNotArray),
                        Some(items) => Ok(items),
                    },
                },
            }
        },
    }
}

/// What each entry gives, in order.
pub open spec fn outcomes_of(base: PathModel, items: Seq<Seq<char>>) -> Seq<
    Result<DefinitionModel, Skip>,
> {
    items.map_values(|i: Seq<char>| definition_of(base, i))
}

/// The schema reference that a definition records: an inline document as
/// it is, a file once canonicalized (none where that failed), regularized
/// against `base`.
pub open spec fn recorded_schema(
    base: PathModel,
    source: SourceModel,
    canonical: Option<PathModel>,
) -> Option<SchemaModel> {
    match source {
        SourceModel::Inline(t) => Some(SchemaModel::Inline(t)),
        SourceModel::File(_) => match canonical {
            Some(c) => Some(SchemaModel::Local(regularized(base, c))),
            None => None,
        },
    }
}

/// `m` once the instances `found` for a definition with schema `source`
/// are recorded; `canonical` is the canonical path of its schema file.
pub open spec fn after_record(
    m: Map<SchemaModel, Set<PathModel>>,
    base: PathModel,
    source: SourceModel,
    canonical: Option<PathModel>,
    found: Seq<FsPath>,
) -> Map<SchemaModel, Set<PathModel>> {
    match recorded_schema(base, source, canonical) {
        Some(k) => with_paths(m, k, regularized_set(base, found)),
        None => m,
    }
}

/// `s` begins with `p`.
fn has_prefix(s: &str, p: &str) -> (r: bool)
    ensures
        r == starts_with(s@, p@),
{
    let n = p.unicode_len();
    if n > s.unicode_len() {
        return false;
    }
    let mut i: usize = 0;
    while i < n
        invariant
            n == p@.len(),
            n <= s@.len(),
            i <= n,
            forall|k: int| 0 <= k < i ==> s@[k] == p@[k],
        decreases n - i,
    {
        if s.get_char(i) != p.get_char(i) {
            assert(s@.take(n as int)[i as int] != p@[i as int]);
            return false;
        }
        i = i + 1;
    }
    assert(s@.take(n as int) =~= p@);
    true
}

/// A `fileMatch` pattern as it is matched from the base directory: a leading
/// `./` is dropped, and a pattern that begins with `../` is refused.
pub fn normalize_pattern(p: &str) -> (r: Option<String>)
    ensures
        r.deep_view() == normalized_pattern(p@),
{
    if has_prefix(p, "./") {
        proof {
            reveal_strlit("./");
        }
        Some(String::from_str(p.substring_char(2, p.unicode_len())))
    } else if has_prefix(p, "../") {
        None
    } else {
        Some(String::from_str(p))
    }
}

/// The patterns kept from the elements of a `fileMatch` array, each given as
/// its string or as none where it is no string: elements that are no string,
/// and patterns that begin with `../`, are left out; the others are kept in
/// order.
pub fn file_patterns(items: &Vec<Option<String>>) -> (r: Vec<String>)
    ensures
        r.deep_view() == kept_patterns(items.deep_view()),
{
    let mut kept: Vec<String> = Vec::new();
    let mut i: usize = 0;
    while i < items.len()
        invariant
            i <= items.len(),
            kept.deep_view() == kept_patterns(items.deep_view().take(i as int)),
        decreases items.len() - i,
    {
        let ghost before = kept.deep_view();
        proof {
            assert(items.deep_view().take(i + 1).drop_last() =~= items.deep_view().take(i as int));
            assert(items.deep_view().take(i + 1).last() == items.deep_view()[i as int]);
        }
        match &items[i] {
            Some(p) => match normalize_pattern(p.as_str()) {
                Some(q) => {
                    kept.push(q);
                    assert(kept.deep_view() =~= before.push(q@));
                },
                None => {},
            },
            None => {},
        }
        i = i + 1;
    }
    assert(items.deep_view().take(items.len() as int) =~= items.deep_view());
    kept
}

impl Definition {
    /// The schema file whose canonical path the definition needs, if any.
    pub fn schema_file(&self) -> (r: Option<&FsPath>)
        ensures
            match self.schema@ {
                SourceModel::File(p) => r matches Some(f) && f@ == p,
                SourceModel::Inline(_) => r is None,
            },
    {
        match &self.schema {
            SchemaSource::File(p) => Some(p),
            SchemaSource::Inline(_) => None,
        }
    }
}

/// The elements of a `fileMatch` array that are left out, in order, each
/// given as its string or as none where it is no string: a pattern that
/// begins with `../` as itself, an element that is no string as none.
pub fn refused_file_patterns(items: &Vec<Option<String>>) -> (r: Vec<Option<String>>)
    ensures
        r.deep_view() == refused_patterns(items.deep_view()),
{
    let mut refused: Vec<Option<String>> = Vec::new();
    let mut i: usize = 0;
    while i < items.len()
        invariant
            i <= items.len(),
            refused.deep_view() == refused_patterns(items.deep_view().take(i as int)),
        decreases items.len() - i,
    {
        let ghost before = refused.deep_view();
        proof {
            assert(items.deep_view().take(i + 1).drop_last() =~= items.deep_view().take(i as int));
            assert(items.deep_view().take(i + 1).last() == items.deep_view()[i as int]);
        }
        match &items[i] {
            Some(p) => match normalize_pattern(p.as_str()) {
                Some(_) => {},
                None => {
                    let item = Some(p.clone());
                    refused.push(item);
                    assert(refused.deep_view() =~= before.push(Some(p@)));
                },
            },
            None => {
                refused.push(None);
                assert(refused.deep_view() =~= before.push(None));
            },
        }
        i = i + 1;
    }
    assert(items.deep_view().take(items.len() as int) =~= items.deep_view());
    refused
}

/// The view of an optional schema source.
pub open spec fn source_view(s: Option<SchemaSource>) -> Option<SourceModel> {
    match s {
        Some(x) => Some(x@),
        None => None,
    }
}

/// The view of a source or of why there is none.
pub open spec fn source_outcome(s: Result<SchemaSource, Skip>) -> Result<SourceModel, Skip> {
    match s {
        Ok(x) => Ok(x@),
        Err(why) => Err(why),
    }
}

/// The view of a definition or of why there is none.
pub open spec fn definition_outcome(d: Result<Definition, Skip>) -> Result<DefinitionModel, Skip> {
    match d {
        Ok(x) => Ok(x@),
        Err(why) => Err(why),
    }
}

/// The views of the outcomes of several entries.
pub open spec fn outcomes_view(ds: Seq<Result<Definition, Skip>>) -> Seq<
    Result<DefinitionModel, Skip>,
> {
    ds.map_values(|d: Result<Definition, Skip>| definition_outcome(d))
}

/// The settings strategy, for one base directory.
#[derive(Debug)]
pub struct Vscode {
    base: FsPath,
}

impl Vscode {
    /// The directory that settings paths and patterns are read from.
    pub closed spec fn base_path(&self) -> PathModel {
        self.base@
    }

    /// The strategy for the canonical directory `base`.
    pub fn with_base(base: FsPath) -> (r: Vscode)
        ensures
            r.base_path() == base@,
    {
        Vscode { base }
    }

    /// The base directory.
    pub fn base(&self) -> (r: &FsPath)
        ensures
            r@ == self.base_path(),
    {
        &self.base
    }

    /// Where the settings file lies: `.vscode/settings.json` under the base.
    pub fn settings_path(&self) -> (r: FsPath)
        ensures
            r@ == joined(self.base_path(), parse_path(".vscode/settings.json"@)),
    {
        self.base.join(&FsPath::parse(".vscode/settings.json"))
    }

    /// The schema that a `url` names: none for `http://` and `https://`
    /// addresses, which are not fetched; else the path read from the base
    /// directory, a leading `/` dropped.
    pub fn source_from_url(&self, url: &str) -> (r: Option<SchemaSource>)
        ensures
            source_view(r) == url_source(self.base_path(), url@),
    {
        if has_prefix(url, "http://") || has_prefix(url, "https://") {
            None
        } else if has_prefix(url, "/") {
            proof {
                reveal_strlit("/");
            }
            let rest = url.substring_char(1, url.unicode_len());
            assert(rest@ =~= url@.skip(1));
            Some(SchemaSource::File(self.base.join(&FsPath::parse(rest))))
        } else {
            Some(SchemaSource::File(self.base.join(&FsPath::parse(url))))
        }
    }

    /// The schema of the entry `def`: its `url` where it has one, which must
    /// be a string; else its `schema`, which must be an object.
    fn definition_source(&self, def: &str) -> (r: Result<SchemaSource, Skip>)
        ensures
            source_outcome(r) == definition_source(self.base_path(), def@),
    {
        match member(def, "url") {
            Some(u) => match string_value(u.as_str()) {
                Some(s) => match self.source_from_url(s.as_str()) {
                    Some(source) => Ok(source),
                    None => Err(Skip::RemoteUrl),
                },
                None => Err(Skip::UrlNotString),
            },
            None => match member(def, "schema") {
                Some(inline) => if is_object(inline.as_str()) {
                    Ok(SchemaSource::Inline(inline))
                } else {
                    Err(Skip::SchemaNotObject)
                },
                None => Err(Skip::NoSchema),
            },
        }
    }

    /// The definition that the entry `def` of `json.schemas` gives, as JSON
    /// text: it must be an object with a `fileMatch` array and a usable
    /// schema; else the first of these that fails.
    pub fn definition(&self, def: &str) -> (r: Result<Definition, Skip>)
        ensures
            definition_outcome(r) == definition_of(self.base_path(), def@),
    {
        if !is_object(def) {
            return Err(Skip::NotObject);
        }
        let file_match = match member(def, "fileMatch") {
            Some(t) => t,
            None => return Err(Skip::NoFileMatch),
        };
        let items = match elements(file_match.as_str()) {
            Some(v) => v,
            None => return Err(Skip::FileMatchNotArray),
        };
        let ghost texts = items.deep_view();
        let mut strings: Vec<Option<String>> = Vec::new();
        let mut i: usize = 0;
        while i < items.len()
            invariant
                texts == items.deep_view(),
                i <= items.len(),
                strings.deep_view() == string_values(texts.take(i as int)),
            decreases items.len() - i,
        {
            let ghost before = strings.deep_view();
            let s = string_value(items[i].as_str());
            strings.push(s);
            assert(strings.deep_view() =~= string_values(texts.take(i + 1))) by {
                assert(strings.deep_view() =~= before.push(s.deep_view()));
            }
            i = i + 1;
        }
        assert(texts.take(items.len() as int) =~= texts);
        let patterns = file_patterns(&strings);
        let refused = refused_file_patterns(&strings);
        match self.definition_source(def) {
            Ok(schema) => {
                let d = Definition { patterns, refused, schema };
                assert(d@.patterns =~= patterns.deep_view());
                Ok(d)
            },
            Err(why) => Err(why),
        }
    }

    /// Records the canonical paths `found` that the patterns of `def` matched,
    /// under its schema: an inline document as it is, a file by its
    /// `canonical` path, where it could be canonicalized. Paths are
    /// regularized against the base.
    pub fn record(
        &self,
        assoc: &mut Associations,
        def: &Definition,
        canonical: Option<FsPath>,
        found: &Vec<FsPath>,
    )
        ensures
            final(assoc)@ == after_record(
                old(assoc)@,
                self.base_path(),
                def.schema@,
                opt_path(canonical),
                found@,
            ),
    {
        let schema = match &def.schema {
            SchemaSource::Inline(t) => Schema::Inline(t.clone()),
            SchemaSource::File(_) => match canonical {
                Some(c) => Schema::Local(regularize(&self.base, &c)),
                None => return,
            },
        };
        let instances = regularize_all(&self.base, found);
        assoc.add(schema, &instances);
    }

    /// What each entry of the `json.schemas` array of the settings text
    /// gives, in order: a definition, or why it gives none. An error where
    /// the text does not parse, nests deeper than `MAX_NESTING`, or has no
    /// such array.
    pub fn definitions(&self, settings_text: &str) -> (r: Result<
        Vec<Result<Definition, Skip>>,
        SettingsError,
    >)
        ensures
            match settings_entries(settings_text@) {
                Ok(items) => r matches Ok(v) && outcomes_view(v@) == outcomes_of(
                    self.base_path(),
                    items,
                ),
                Err(e) => r == Err::<Vec<Result<Definition, Skip>>, SettingsError>(e),
            },
    {
        let kinds = match token_kinds(settings_text) {
            Some(k) => k,
            None => return Err(SettingsError::Unparsable),
        };
        assert(kinds.deep_view() =~= kinds@);
        if !nesting_within(&kinds) {
            return Err(SettingsError::TooDeep);
        }
        let doc = match parse_jsonc(settings_text) {
            Some(d) => d,
            None => return Err(SettingsError::Unparsable),
        };
        let array = match member(doc.as_str(), "json.schemas") {
            Some(a) => a,
            None => return Err(SettingsError::NoSchemas),
        };
        let items = match elements(array.as_str()) {
            Some(v) => v,
            None => return Err(SettingsError::SchemasNotArray),
        };
        let ghost texts = items.deep_view();
        let ghost base = self.base_path();
        let mut found: Vec<Result<Definition, Skip>> = Vec::new();
        let mut i: usize = 0;
        while i < items.len()
            invariant
                texts == items.deep_view(),
                base == self.base_path(),
                i <= items.len(),
                outcomes_view(found@) == outcomes_of(base, texts.take(i as int)),
            decreases items.len() - i,
        {
            let ghost before = found@;
            let d = self.definition(items[i].as_str());
            found.push(d);
            assert(outcomes_view(found@) =~= outcomes_of(base, texts.take(i + 1))) by {
                assert(outcomes_view(found@) =~= outcomes_view(before).push(definition_outcome(d)));
                assert(texts.take(i + 1) =~= texts.take(i as int).push(texts[i as int]));
            }
            i = i + 1;
        }
        assert(texts.take(items.len() as int) =~= texts);
        Ok(found)
    }
}

/// Two definitions whose schema files have one canonical path, however
/// they were spelled, are recorded under one entry, which holds the instances
/// of both.
pub proof fn lemma_same_file_one_entry(
    m: Map<SchemaModel, Set<PathModel>>,
    base: PathModel,
    first: PathModel,
    second: PathModel,
    canonical: PathModel,
    found_first: Seq<FsPath>,
    found_second: Seq<FsPath>,
)
    ensures
        after_record(
            after_record(m, base, SourceModel::File(first), Some(canonical), found_first),
            base,
            SourceModel::File(second),
            Some(canonical),
            found_second,
        ) == with_paths(
            m,
            SchemaModel::Local(regularized(base, canonical)),
            regularized_set(base, found_first).union(regularized_set(base, found_second)),
        ),
{
    lemma_with_paths_twice(
        m,
        SchemaModel::Local(regularized(base, canonical)),
        regularized_set(base, found_first),
        regularized_set(base, found_second),
    );
}

/// An entry whose `url` is an `https://` or `http://` address gives no
/// definition; where nothing else is wrong with it, the reason given is the
/// address.
pub proof fn lemma_remote_url_skipped(base: PathModel, def: Seq<char>, url: Seq<char>)
    requires
        json_member(def, "url"@) matches Some(u) && json_string(u) == Some(url),
        starts_with(url, "https://"@) || starts_with(url, "http://"@),
    ensures
        definition_of(base, def) is Err,
        json_is_object(def) && (json_member(def, "fileMatch"@) matches Some(f) && json_elements(
            f,
        ) is Some) ==> definition_of(base, def) == Err::<DefinitionModel, Skip>(Skip::RemoteUrl),
{
}

/// A pattern that begins with `../` is dropped, and the patterns around it
/// are kept as they would be without it.
pub proof fn lemma_parent_pattern_dropped(
    before: Seq<Option<Seq<char>>>,
    pattern: Seq<char>,
    after: Seq<Option<Seq<char>>>,
)
    requires
        starts_with(pattern, "../"@),
    ensures
        kept_patterns(before.push(Some(pattern)) + after) == kept_patterns(before + after),
    decreases after.len(),
{
    reveal_strlit("./");
    reveal_strlit("../");
    assert(!starts_with(pattern, "./"@)) by {
        assert(pattern.take(2)[1] == '.');
    }
    if after.len() == 0 {
        assert(before.push(Some(pattern)) + after =~= before.push(Some(pattern)));
        assert(before + after =~= before);
        assert(before.push(Some(pattern)).drop_last() =~= before);
    } else {
        let shorter = after.drop_last();
        lemma_parent_pattern_dropped(before, pattern, shorter);
        assert((before.push(Some(pattern)) + after).drop_last() =~= before.push(Some(pattern))
            + shorter);
        assert((before + after).drop_last() =~= before + shorter);
    }
}

} // verus!
