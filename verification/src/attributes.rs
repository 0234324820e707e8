//! Object attributes and the form in which they are stored.
use crate::error::StoreError;
use crate::listing::text_of;
use crate::text::same_text;
use vstd::prelude::*;

verus! {

/// What an attribute tells of an object.
#[derive(Clone, Debug)]
pub enum Attribute {
    ContentDisposition,
    ContentEncoding,
    ContentLanguage,
    ContentType,
    CacheControl,
    StorageClass,
    /// A value of the user's own, by its name.
    Metadata(String),
    /// An attribute that the store has no form for, as the outside shows it.
    Unsupported(String),
}

/// An attribute with its name as characters.
pub enum AttributeView {
    ContentDisposition,
    ContentEncoding,
    ContentLanguage,
    ContentType,
    CacheControl,
    StorageClass,
    Metadata(Seq<char>),
    Unsupported(Seq<char>),
}

impl View for Attribute {
    type V = AttributeView;

    open spec fn view(&self) -> AttributeView {
        match self {
            Attribute::ContentDisposition => AttributeView::ContentDisposition,
            Attribute::ContentEncoding => AttributeView::ContentEncoding,
            Attribute::ContentLanguage => AttributeView::ContentLanguage,
            Attribute::ContentType => AttributeView::ContentType,
            Attribute::CacheControl => AttributeView::CacheControl,
            Attribute::StorageClass => AttributeView::StorageClass,
            Attribute::Metadata(name) => AttributeView::Metadata(name@),
            Attribute::Unsupported(shown) => AttributeView::Unsupported(shown@),
        }
    }
}

/// One attribute and its value.
#[derive(Clone, Debug)]
pub struct AttributePair {
    pub attribute: Attribute,
    pub value: String,
}

/// The stored form of one attribute and its value.
#[derive(Clone, Debug)]
pub struct StoredAttribute {
    pub kind: String,
    pub name: Option<String>,
    pub value: String,
}

/// The word under which an attribute is stored.
pub open spec fn kind_of(attribute: AttributeView) -> Option<Seq<char>> {
    match attribute {
        AttributeView::ContentDisposition => Some("content-disposition"@),
        AttributeView::ContentEncoding => Some("content-encoding"@),
        AttributeView::ContentLanguage => Some("content-language"@),
        AttributeView::ContentType => Some("content-type"@),
        AttributeView::CacheControl => Some("cache-control"@),
        AttributeView::StorageClass => Some("storage-class"@),
        AttributeView::Metadata(_) => Some("metadata"@),
        AttributeView::Unsupported(_) => None,
    }
}

/// The name that is stored beside the word.
pub open spec fn name_of(attribute: AttributeView) -> Option<Seq<char>> {
    match attribute {
        AttributeView::Metadata(name) => Some(name),
        _ => None,
    }
}

/// The attribute that a word and a name stand for. A value of the user's own
/// without a name has the empty one.
pub open spec fn attribute_of(kind: Seq<char>, name: Option<Seq<char>>) -> Option<AttributeView> {
    if kind == "content-disposition"@ {
        Some(AttributeView::ContentDisposition)
    } else if kind == "content-encoding"@ {
        Some(AttributeView::ContentEncoding)
    } else if kind == "content-language"@ {
        Some(AttributeView::ContentLanguage)
    } else if kind == "content-type"@ {
        Some(AttributeView::ContentType)
    } else if kind == "cache-control"@ {
        Some(AttributeView::CacheControl)
    } else if kind == "storage-class"@ {
        Some(AttributeView::StorageClass)
    } else if kind == "metadata"@ {
        Some(
            AttributeView::Metadata(
                match name {
                    Some(name) => name,
                    None => Seq::empty(),
                },
            ),
        )
    } else {
        None
    }
}

/// The stored form is that of the pair.
pub open spec fn is_stored_form(stored: StoredAttribute, pair: AttributePair) -> bool {
    &&& kind_of(pair.attribute@) == Some(stored.kind@)
    &&& text_of(stored.name) == name_of(pair.attribute@)
    &&& stored.value@ == pair.value@
}

/// The pair is what the stored form stands for.
pub open spec fn is_read_form(pair: AttributePair, stored: StoredAttribute) -> bool {
    &&& attribute_of(stored.kind@, text_of(stored.name)) == Some(pair.attribute@)
    &&& pair.value@ == stored.value@
}

/// The stored form of one pair, where there is one.
pub(crate) fn encode_pair(pair: &AttributePair) -> (stored: Option<StoredAttribute>)
    ensures
        stored is None <==> pair.attribute@ is Unsupported,
        stored matches Some(stored) ==> is_stored_form(stored, *pair),
{
    let (kind, name) = match &pair.attribute {
        Attribute::ContentDisposition => ("content-disposition", None),
        Attribute::ContentEncoding => ("content-encoding", None),
        Attribute::ContentLanguage => ("content-language", None),
        Attribute::ContentType => ("content-type", None),
        Attribute::CacheControl => ("cache-control", None),
        Attribute::StorageClass => ("storage-class", None),
        Attribute::Metadata(name) => ("metadata", Some(name.clone())),
        Attribute::Unsupported(_) => return None,
    };
    Some(StoredAttribute { kind: kind.to_owned(), name, value: pair.value.clone() })
}

/// The stored forms of the attributes, in their order.
pub fn encode_attributes(attributes: &Vec<AttributePair>) -> (encoded: Result<
    Vec<StoredAttribute>,
    StoreError,
>)
    ensures
        encoded is Err <==> exists|i: int|
            0 <= i < attributes@.len() && (#[trigger] attributes@[i]).attribute@ is Unsupported,
        encoded matches Err(error) ==> error is UnsupportedAttribute,
        encoded matches Ok(stored) ==> stored@.len() == attributes@.len() && forall|i: int|
            0 <= i < attributes@.len() ==> is_stored_form(
                #[trigger] stored@[i],
                attributes@[i],
            ),
{
    let mut stored: Vec<StoredAttribute> = Vec::new();
    let mut i: usize = 0;
    while i < attributes.len()
        invariant
            0 <= i <= attributes@.len(),
            stored@.len() == i,
            forall|j: int|
                0 <= j < i ==> is_stored_form(#[trigger] stored@[j], attributes@[j]),
            forall|j: int| 0 <= j < i ==> !((#[trigger] attributes@[j]).attribute@ is Unsupported),
        decreases attributes@.len() - i,
    {
        match encode_pair(&attributes[i]) {
            Some(form) => stored.push(form),
            None => {
                assert(attributes@[i as int].attribute@ is Unsupported);
                return Err(StoreError::UnsupportedAttribute);
            },
        }
        i = i + 1;
    }
    Ok(stored)
}

/// The attribute that one stored form stands for.
fn decode_form(stored: &StoredAttribute) -> (pair: Option<AttributePair>)
    ensures
        pair is None <==> attribute_of(stored.kind@, text_of(stored.name)) is None,
        pair matches Some(pair) ==> is_read_form(pair, *stored),
{
    let kind = stored.kind.as_str();
    let attribute = if same_text(kind, "content-disposition") {
        Attribute::ContentDisposition
    } else if same_text(kind, "content-encoding") {
        Attribute::ContentEncoding
    } else if same_text(kind, "content-language") {
        Attribute::ContentLanguage
    } else if same_text(kind, "content-type") {
        Attribute::ContentType
    } else if same_text(kind, "cache-control") {
        Attribute::CacheControl
    } else if same_text(kind, "storage-class") {
        Attribute::StorageClass
    } else if same_text(kind, "metadata") {
        match &stored.name {
            Some(name) => Attribute::Metadata(name.clone()),
            None => Attribute::Metadata(String::new()),
        }
    } else {
        return None;
    };
    Some(AttributePair { attribute, value: stored.value.clone() })
}

/// The attributes that the stored forms stand for, in their order. The first
/// word that stands for none is an error.
pub fn decode_attributes(stored: &Vec<StoredAttribute>) -> (decoded: Result<
    Vec<AttributePair>,
    StoreError,
>)
    ensures
        match decoded {
            Ok(pairs) => pairs@.len() == stored@.len() && forall|i: int|
                0 <= i < stored@.len() ==> is_read_form(#[trigger] pairs@[i], stored@[i]),
            Err(error) => exists|i: int|
                {
                    &&& 0 <= i < stored@.len()
                    &&& attribute_of((#[trigger] stored@[i]).kind@, text_of(stored@[i].name)) is None
                    &&& forall|j: int|
                        0 <= j < i ==> attribute_of(
                            (#[trigger] stored@[j]).kind@,
                            text_of(stored@[j].name),
                        ) is Some
                    &&& error matches StoreError::UnknownAttribute { kind }
                    &&& kind@ == stored@[i].kind@
                },
        },
{
    let mut pairs: Vec<AttributePair> = Vec::new();
    let mut i: usize = 0;
    while i < stored.len()
        invariant
            0 <= i <= stored@.len(),
            pairs@.len() == i,
            forall|j: int| 0 <= j < i ==> is_read_form(#[trigger] pairs@[j], stored@[j]),
            forall|j: int|
                0 <= j < i ==> attribute_of(
                    (#[trigger] stored@[j]).kind@,
                    text_of(stored@[j].name),
                ) is Some,
        decreases stored@.len() - i,
    {
        match decode_form(&stored[i]) {
            Some(pair) => pairs.push(pair),
            None => {
                let kind = stored[i].kind.clone();
                assert(attribute_of(
                    stored@[i as int].kind@,
                    text_of(stored@[i as int].name),
                ) is None);
                return Err(StoreError::UnknownAttribute { kind });
            },
        }
        i = i + 1;
    }
    Ok(pairs)
}

/// An attribute read back is the one that was stored.
pub proof fn attributes_read_back(pair: AttributePair, stored: StoredAttribute)
    requires
        is_stored_form(stored, pair),
    ensures
        attribute_of(stored.kind@, text_of(stored.name)) == Some(pair.attribute@),
        stored.value@ == pair.value@,
{
    reveal_strlit("content-disposition");
    reveal_strlit("content-encoding");
    reveal_strlit("content-language");
    reveal_strlit("content-type");
    reveal_strlit("cache-control");
    reveal_strlit("storage-class");
    reveal_strlit("metadata");
    assert("content-disposition"@.len() == 19);
    assert("content-encoding"@.len() == 16);
    assert("content-language"@.len() == 16);
    assert("content-type"@.len() == 12);
    assert("cache-control"@.len() == 13);
    assert("storage-class"@.len() == 13);
    assert("metadata"@.len() == 8);
    assert("content-encoding"@[8] != "content-language"@[8]);
    assert("cache-control"@[1] != "storage-class"@[1]);
}

} // verus!
