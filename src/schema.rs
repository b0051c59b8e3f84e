//! References to schema documents.

use vstd::prelude::*;
use crate::path::{joined, path_text, FsPath, PathModel};

verus! {

/// Where a schema comes from.
///
/// `Local` holds a canonical path, relative to the base directory where the
/// file lies inside it and absolute otherwise, so that two spellings of one
/// file give equal references. `Inline` holds a document written in the
/// settings, as its compact JSON text with object keys in sorted order: two
/// equal documents have equal text. `Remote` is kept only to be refused when
/// it is resolved.
#[derive(Debug, PartialEq, Eq, Hash)]
pub enum Schema {
    Local(FsPath),
    Remote(String),
    Inline(String),
}

/// What a schema reference means.
pub enum SchemaModel {
    Local(PathModel),
    Remote(Seq<char>),
    Inline(Seq<char>),
}

impl View for Schema {
    type V = SchemaModel;

    open spec fn view(&self) -> SchemaModel {
        match self {
            Schema::Local(p) => SchemaModel::Local(p@),
            Schema::Remote(u) => SchemaModel::Remote(u@),
            Schema::Inline(t) => SchemaModel::Inline(t@),
        }
    }
}

impl Clone for Schema {
    fn clone(&self) -> (r: Schema)
        ensures
            r@ == self@,
    {
        match self {
            Schema::Local(p) => Schema::Local(p.clone()),
            Schema::Remote(u) => Schema::Remote(u.clone()),
            Schema::Inline(t) => Schema::Inline(t.clone()),
        }
    }
}

/// What a schema reference turns into before it can be validated against.
#[derive(Debug)]
pub enum Resolved {
    /// A schema file to read, at this path.
    File(FsPath),
    /// A schema document, as JSON text.
    Document(String),
}

/// Why a schema reference cannot be resolved.
#[derive(Debug, PartialEq, Eq)]
pub enum ResolveError {
    /// Schemas behind a URL are not fetched.
    RemoteUnsupported(String),
}

/// The name under which a schema is reported.
pub open spec fn schema_label(m: SchemaModel) -> Seq<char> {
    match m {
        SchemaModel::Local(p) => path_text(p),
        SchemaModel::Remote(u) => u,
        SchemaModel::Inline(_) => "<inline schema>"@,
    }
}

impl Schema {
    /// The same reference: equal paths, equal URLs, or equal documents.
    pub fn same(&self, other: &Schema) -> (r: bool)
        ensures
            r == (self@ == other@),
    {
        match self {
            Schema::Local(a) => match other {
                Schema::Local(b) => a.same(b),
                _ => false,
            },
            Schema::Remote(a) => match other {
                Schema::Remote(b) => a.eq(b),
                _ => false,
            },
            Schema::Inline(a) => match other {
                Schema::Inline(b) => a.eq(b),
                _ => false,
            },
        }
    }

    /// The name under which the schema is reported: its path, its URL, or
    /// `<inline schema>`.
    pub fn label(&self) -> (r: String)
        ensures
            r@ == schema_label(self@),
    {
        match self {
            Schema::Local(p) => p.to_text(),
            Schema::Remote(u) => u.clone(),
            Schema::Inline(_) => String::from_str("<inline schema>"),
        }
    }

    /// What must be read to obtain the schema document: a local schema is
    /// the file at its path read from `base`, an inline one is its own
    /// document, and a remote one is refused.
    pub fn resolve(&self, base: &FsPath) -> (r: Result<Resolved, ResolveError>)
        ensures
            match self@ {
                SchemaModel::Local(p) => r matches Ok(Resolved::File(f)) && f@ == joined(base@, p),
                SchemaModel::Remote(u) => r matches Err(ResolveError::RemoteUnsupported(v))
                    && v@ == u,
                SchemaModel::Inline(t) => r matches Ok(Resolved::Document(d)) && d@ == t,
            },
    {
        match self {
            Schema::Local(p) => Ok(Resolved::File(base.join(p))),
            Schema::Remote(u) => Err(ResolveError::RemoteUnsupported(u.clone())),
            Schema::Inline(t) => Ok(Resolved::Document(t.clone())),
        }
    }
}

} // verus!
