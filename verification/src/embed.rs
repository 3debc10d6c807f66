//! File embeddings: a payload that layout carries through untouched.
//!
//! An embedding occupies no space; its bytes and descriptive fields are
//! opaque to layout and only matter to a downstream document encoder.

use vstd::prelude::*;

verus! {

/// The relationship of an embedded file with the document content.
#[derive(Debug, Copy, Clone, Eq, PartialEq, Structural, Hash)]
pub enum EmbeddedFileRelationship {
    /// The document was derived from the source file.
    Source,
    /// The file was used to derive a visual presentation in the document.
    Data,
    /// An alternative representation of the document.
    Alternative,
    /// Additional resources for the document.
    Supplement,
    /// The file is encrypted and needs a cryptographic filter to read.
    EncryptedPayload,
    /// Data associated with a form.
    FormData,
    /// A schema definition.
    Schema,
    /// No known relationship.
    Unspecified,
}

/// A file-embedding element as the construction layer hands it over:
/// required path and data, and optional settings, each of which may also be
/// explicitly unset.
#[derive(Debug, PartialEq, Eq)]
pub struct EmbedElem {
    /// Path of the file to embed.
    pub path: String,
    /// The raw file data.
    pub data: Vec<u8>,
    /// The name of the attached file; the path stands in when unset.
    pub name: Option<Option<String>>,
    /// A description for the attached file.
    pub description: Option<Option<String>>,
    /// The media type of the embedded file.
    pub mime_type: Option<Option<String>>,
    /// The relationship of the embedded file to the document.
    pub relationship: Option<Option<EmbeddedFileRelationship>>,
}

pub ghost struct EmbedElemV {
    pub path: Seq<char>,
    pub data: Seq<u8>,
    pub name: Option<Option<Seq<char>>>,
    pub description: Option<Option<Seq<char>>>,
    pub mime_type: Option<Option<Seq<char>>>,
    pub relationship: Option<Option<EmbeddedFileRelationship>>,
}

pub open spec fn opt_str_view(o: Option<String>) -> Option<Seq<char>> {
    match o {
        Some(s) => Some(s@),
        None => None,
    }
}

pub open spec fn opt_opt_str_view(o: Option<Option<String>>) -> Option<Option<Seq<char>>> {
    match o {
        Some(i) => Some(opt_str_view(i)),
        None => None,
    }
}

impl View for EmbedElem {
    type V = EmbedElemV;

    open spec fn view(&self) -> EmbedElemV {
        EmbedElemV {
            path: self.path@,
            data: self.data@,
            name: opt_opt_str_view(self.name),
            description: opt_opt_str_view(self.description),
            mime_type: opt_opt_str_view(self.mime_type),
            relationship: self.relationship,
        }
    }
}

impl EmbedElem {
    /// A fresh element with only the required fields set.
    pub fn new(path: String, data: Vec<u8>) -> (r: EmbedElem)
        ensures
            r@ == (EmbedElemV {
                path: path@,
                data: data@,
                name: None,
                description: None,
                mime_type: None,
                relationship: None,
            }),
    {
        EmbedElem { path, data, name: None, description: None, mime_type: None, relationship: None }
    }

    /// Build an element from data given directly rather than read from a
    /// file, with each optional setting as the caller passed it.
    pub fn decode(
        path: String,
        data: Vec<u8>,
        name: Option<Option<String>>,
        description: Option<Option<String>>,
        mime_type: Option<Option<String>>,
        relationship: Option<Option<EmbeddedFileRelationship>>,
    ) -> (r: EmbedElem)
        ensures
            r@ == (EmbedElemV {
                path: path@,
                data: data@,
                name: opt_opt_str_view(name),
                description: opt_opt_str_view(description),
                mime_type: opt_opt_str_view(mime_type),
                relationship,
            }),
    {
        EmbedElem { path, data, name, description, mime_type, relationship }
    }
}

/// A loaded file to be embedded, with every descriptive field resolved.
#[derive(Debug, PartialEq, Eq)]
pub struct Embed {
    data: Vec<u8>,
    path: String,
    name: String,
    description: Option<String>,
    mime_type: Option<String>,
    relationship: Option<EmbeddedFileRelationship>,
}

pub ghost struct EmbedV {
    pub data: Seq<u8>,
    pub path: Seq<char>,
    pub name: Seq<char>,
    pub description: Option<Seq<char>>,
    pub mime_type: Option<Seq<char>>,
    pub relationship: Option<EmbeddedFileRelationship>,
}

impl View for Embed {
    type V = EmbedV;

    closed spec fn view(&self) -> EmbedV {
        EmbedV {
            data: self.data@,
            path: self.path@,
            name: self.name@,
            description: opt_str_view(self.description),
            mime_type: opt_str_view(self.mime_type),
            relationship: self.relationship,
        }
    }
}

/// The embedding an element resolves to: the name falls back to the path,
/// and a setting that is absent or explicitly unset resolves to nothing.
pub open spec fn embed_of(e: EmbedElemV) -> EmbedV {
    EmbedV {
        data: e.data,
        path: e.path,
        name: match e.name {
            Some(Some(n)) => n,
            _ => e.path,
        },
        description: match e.description {
            Some(Some(d)) => Some(d),
            _ => None,
        },
        mime_type: match e.mime_type {
            Some(Some(m)) => Some(m),
            _ => None,
        },
        relationship: match e.relationship {
            Some(Some(r)) => Some(r),
            _ => None,
        },
    }
}

fn clone_bytes(v: &Vec<u8>) -> (r: Vec<u8>)
    ensures
        r@ == v@,
{
    let mut r: Vec<u8> = Vec::new();
    let mut i: usize = 0;
    while i < v.len()
        invariant
            i <= v.len(),
            r@ == v@.subrange(0, i as int),
        decreases v.len() - i,
    {
        r.push(v[i]);
        proof {
            assert(r@ =~= v@.subrange(0, i + 1 as int));
        }
        i = i + 1;
    }
    proof {
        assert(r@ =~= v@);
    }
    r
}

fn clone_opt_string(o: &Option<String>) -> (r: Option<String>)
    ensures
        opt_str_view(r) == opt_str_view(*o),
{
    match o {
        Some(s) => Some(s.clone()),
        None => None,
    }
}

impl Embed {
    /// Resolve an element into an embedding.
    pub fn from_element(element: EmbedElem) -> (e: Embed)
        ensures
            e@ == embed_of(element@),
    {
        let EmbedElem { path, data, name, description, mime_type, relationship } = element;
        let resolved_name: String = match name {
            Some(Some(n)) => n,
            _ => path.clone(),
        };
        let resolved_description: Option<String> = match description {
            Some(Some(d)) => Some(d),
            _ => None,
        };
        let resolved_mime: Option<String> = match mime_type {
            Some(Some(m)) => Some(m),
            _ => None,
        };
        let resolved_relationship: Option<EmbeddedFileRelationship> = match relationship {
            Some(Some(r)) => Some(r),
            _ => None,
        };
        Embed {
            data,
            path,
            name: resolved_name,
            description: resolved_description,
            mime_type: resolved_mime,
            relationship: resolved_relationship,
        }
    }

    /// The raw file data.
    pub fn data(&self) -> (r: &Vec<u8>)
        ensures
            r@ == self@.data,
    {
        &self.data
    }

    /// The path of the file embedding.
    pub fn path(&self) -> (r: &String)
        ensures
            r@ == self@.path,
    {
        &self.path
    }

    /// The name of the file embedding.
    pub fn name(&self) -> (r: &String)
        ensures
            r@ == self@.name,
    {
        &self.name
    }

    /// The description of the file embedding.
    pub fn description(&self) -> (r: &Option<String>)
        ensures
            opt_str_view(*r) == self@.description,
    {
        &self.description
    }

    /// The media type of the embedded file.
    pub fn mime_type(&self) -> (r: &Option<String>)
        ensures
            opt_str_view(*r) == self@.mime_type,
    {
        &self.mime_type
    }

    /// The relationship of the file with the document.
    pub fn relationship(&self) -> (r: Option<EmbeddedFileRelationship>)
        ensures
            r == self@.relationship,
    {
        self.relationship
    }
}

impl Clone for Embed {
    fn clone(&self) -> (r: Self)
        ensures
            r@ == self@,
    {
        Embed {
            data: clone_bytes(&self.data),
            path: self.path.clone(),
            name: self.name.clone(),
            description: clone_opt_string(&self.description),
            mime_type: clone_opt_string(&self.mime_type),
            relationship: self.relationship,
        }
    }
}

} // verus!
