//! The decisions of the data loader: reading a document's `kind` from its
//! YAML text, choosing what a kind is loaded as, and the errors loading
//! fails with. Walking the directory, reading files and loading the
//! entities is done by the caller, which hands each document's path and
//! text in and acts on the step decided here.

use vstd::prelude::*;

verus! {

/// `serde_yaml::Error`, carried opaquely in `LoadError::Yaml`.
#[verifier::external_type_specification]
#[verifier::external_body]
pub struct ExYamlError(serde_yaml::Error);

/// `serde_yaml::Value`, a parsed YAML document, held opaquely.
#[verifier::external_type_specification]
#[verifier::external_body]
pub struct ExYamlValue(serde_yaml::Value);

/// `std::io::Error`, carried opaquely in `LoadError::Io`.
#[verifier::external_type_specification]
#[verifier::external_body]
pub struct ExIoError(std::io::Error);

/// Why loading the data directory failed, as far as the library decides
/// it; failures of the entity loader itself are the caller's.
#[allow(inconsistent_fields)]
#[derive(Debug)]
pub enum LoadError {
    /// A file or directory could not be read.
    Io { path: String, source: std::io::Error },
    /// A file is not valid YAML.
    Yaml { path: String, source: serde_yaml::Error },
}

/// Whether a text parses as a YAML document.
pub uninterp spec fn yaml_parses(text: Seq<char>) -> bool;

/// The string that the YAML document `text` holds under the top-level
/// key `key`: `None` when the document is not a mapping, has no such key,
/// or holds something other than a string there (tags are looked through,
/// as `serde_yaml` does).
pub uninterp spec fn yaml_str_field(text: Seq<char>, key: Seq<char>) -> Option<Seq<char>>;

/// A parsed YAML document, together with the text it was parsed from.
/// Only `parse_yaml` builds one.
pub struct YamlDoc<'t> {
    value: serde_yaml::Value,
    source: &'t str,
}

impl<'t> View for YamlDoc<'t> {
    type V = Seq<char>;

    /// A document is seen as the text it was parsed from.
    closed spec fn view(&self) -> Seq<char> {
        self.source@
    }
}

/// The value that a parsed document holds under a top-level key. Only
/// `yaml_get` builds one.
pub struct YamlField<'a, 't> {
    value: &'a serde_yaml::Value,
    doc: &'a YamlDoc<'t>,
    key: &'a str,
}

impl<'a, 't> View for YamlField<'a, 't> {
    type V = (Seq<char>, Seq<char>);

    /// A field is seen as the document's text and the key it sits under.
    closed spec fn view(&self) -> (Seq<char>, Seq<char>) {
        (self.doc@, self.key@)
    }
}

/// Calls `serde_yaml::from_str::<serde_yaml::Value>`: it succeeds exactly
/// when the text is a YAML document, a function of the text alone; the
/// parsed value is kept with the text it came from.
#[verifier::external_body]
fn parse_yaml<'t>(text: &'t str) -> (r: Result<YamlDoc<'t>, serde_yaml::Error>)
    ensures
        r is Ok <==> yaml_parses(text@),
        r matches Ok(d) ==> d@ == text@,
{
    match serde_yaml::from_str(text) {
        Ok(value) => Ok(YamlDoc { value, source: text }),
        Err(e) => Err(e),
    }
}

/// Calls `serde_yaml::Value::get` with a string key: the value that a
/// mapping holds under `key`. When there is none, the document holds no
/// string under that key either.
#[verifier::external_body]
fn yaml_get<'a, 't>(doc: &'a YamlDoc<'t>, key: &'a str) -> (r: Option<YamlField<'a, 't>>)
    ensures
        r matches Some(f) ==> f@ == (doc@, key@),
        r is None ==> yaml_str_field(doc@, key@) is None,
{
    match doc.value.get(key) {
        Some(value) => Some(YamlField { value, doc, key }),
        None => None,
    }
}

/// Calls `serde_yaml::Value::as_str` on the value under a key: the string
/// the document holds under that key, if it is a string.
#[verifier::external_body]
fn yaml_as_str<'a, 't>(field: &YamlField<'a, 't>) -> (r: Option<&'a str>)
    ensures
        str_option_view(r) == yaml_str_field(field@.0, field@.1),
{
    field.value.as_str()
}

/// An optional string slice, seen as characters.
pub open spec fn str_option_view(o: Option<&str>) -> Option<Seq<char>> {
    match o {
        Some(s) => Some(s@),
        None => None,
    }
}

/// An optional string, seen as characters.
pub open spec fn string_option_view(o: Option<String>) -> Option<Seq<char>> {
    match o {
        Some(s) => Some(s@),
        None => None,
    }
}

/// Reads the `kind` field of a YAML document without committing to a
/// target type. A text that is not YAML fails with a YAML error naming its
/// path; otherwise the result is the string under `kind`, or `None` when
/// there is none (no such key, a non-string value, or a non-mapping
/// document).
pub fn peek_kind(path: &str, text: &str) -> (r: Result<Option<String>, LoadError>)
    ensures
        r is Ok <==> yaml_parses(text@),
        r matches Ok(k) ==> string_option_view(k) == yaml_str_field(text@, "kind"@),
        r matches Err(e) ==> (e matches LoadError::Yaml { path: p, .. } && p@ == path@),
{
    match parse_yaml(text) {
        Ok(doc) => match yaml_get(&doc, "kind") {
            Some(field) => match yaml_as_str(&field) {
                Some(kind) => Ok(Some(String::from_str(kind))),
                None => Ok(None),
            },
            None => Ok(None),
        },
        Err(source) => Err(LoadError::Yaml { path: String::from_str(path), source }),
    }
}

/// What a document is loaded as, by its kind.
#[derive(Debug, PartialEq, Eq, Structural)]
pub enum DocumentKind {
    Part,
    Device,
    Package,
    Source,
    /// A kind no route needs (manufacturer, erratum, rejected, ...): the
    /// document is skipped, not an error, since the data directory holds
    /// more kinds than the server serves.
    Other,
}

/// What a document of kind `kind` is loaded as.
pub open spec fn document_kind_of(kind: Seq<char>) -> DocumentKind {
    if kind == "part"@ {
        DocumentKind::Part
    } else if kind == "device"@ {
        DocumentKind::Device
    } else if kind == "package"@ {
        DocumentKind::Package
    } else if kind == "source"@ {
        DocumentKind::Source
    } else {
        DocumentKind::Other
    }
}

/// Only the four kind strings "part", "device", "package" and "source"
/// are loaded, each as its own kind; every other kind (erratum,
/// manufacturer, rejected, ...) is skipped.
pub proof fn law_only_named_kinds_load(kind: Seq<char>)
    ensures
        document_kind_of(kind) == DocumentKind::Part <==> kind == "part"@,
        document_kind_of(kind) == DocumentKind::Device <==> kind == "device"@,
        document_kind_of(kind) == DocumentKind::Package <==> kind == "package"@,
        document_kind_of(kind) == DocumentKind::Source <==> kind == "source"@,
        document_kind_of(kind) == DocumentKind::Other <==> !(kind == "part"@ || kind == "device"@
            || kind == "package"@ || kind == "source"@),
{
    reveal_strlit("part");
    reveal_strlit("device");
    reveal_strlit("package");
    reveal_strlit("source");
    assert("part"@.len() == 4 && "device"@.len() == 6 && "package"@.len() == 7);
    assert("source"@.len() == 6 && "device"@[0] == 'd' && "source"@[0] == 's');
}

/// Chooses what a document of the given kind is loaded as.
pub fn classify_kind(kind: &str) -> (r: DocumentKind)
    ensures
        r == document_kind_of(kind@),
        r == DocumentKind::Part <==> kind@ == "part"@,
        r == DocumentKind::Device <==> kind@ == "device"@,
        r == DocumentKind::Package <==> kind@ == "package"@,
        r == DocumentKind::Source <==> kind@ == "source"@,
        r == DocumentKind::Other <==> !(kind@ == "part"@ || kind@ == "device"@ || kind@
            == "package"@ || kind@ == "source"@),
{
    proof {
        law_only_named_kinds_load(kind@);
    }
    let k = String::from_str(kind);
    if k == String::from_str("part") {
        DocumentKind::Part
    } else if k == String::from_str("device") {
        DocumentKind::Device
    } else if k == String::from_str("package") {
        DocumentKind::Package
    } else if k == String::from_str("source") {
        DocumentKind::Source
    } else {
        DocumentKind::Other
    }
}

/// What the loader does with one document.
#[derive(Debug, PartialEq, Eq, Structural)]
pub enum LoadStep {
    /// The document has no string `kind`: it is skipped with a warning.
    MissingKind,
    /// The document is loaded as (or, for `Other`, silently skipped as)
    /// this kind.
    Load(DocumentKind),
}

/// Decides what the loader does with the document at `path` whose text is
/// `text`: fail when it is not YAML, skip it with a warning when it has no
/// string `kind`, else load it by its kind.
pub fn document_step(path: &str, text: &str) -> (r: Result<LoadStep, LoadError>)
    ensures
        r is Ok <==> yaml_parses(text@),
        r matches Err(e) ==> (e matches LoadError::Yaml { path: p, .. } && p@ == path@),
        r matches Ok(step) ==> match yaml_str_field(text@, "kind"@) {
            None => step == LoadStep::MissingKind,
            Some(k) => step == LoadStep::Load(document_kind_of(k)),
        },
{
    match peek_kind(path, text) {
        Ok(Some(kind)) => Ok(LoadStep::Load(classify_kind(kind.as_str()))),
        Ok(None) => Ok(LoadStep::MissingKind),
        Err(e) => Err(e),
    }
}

} // verus!
