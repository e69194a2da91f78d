//! The values a response decodes to.

use vstd::prelude::*;

verus! {

/// What a response holds, as a mathematical value: the characters of a text
/// line, or the bytes of a binary block.
pub enum KsValue {
    Text(Seq<char>),
    Bin(Seq<u8>),
}

/// A decoded response.
#[derive(Debug, Clone, PartialEq)]
pub enum KsData {
    /// A line of text, its terminator removed.
    Text(String),
    /// The payload of a binary block, of exactly the declared length.
    Bin(Vec<u8>),
}

impl View for KsData {
    type V = KsValue;

    open spec fn view(&self) -> KsValue {
        match self {
            KsData::Text(text) => KsValue::Text(text@),
            KsData::Bin(data) => KsValue::Bin(data@),
        }
    }
}

impl KsData {
    /// A text response holding `v`.
    pub fn from_text(v: String) -> (data: Self)
        ensures
            data == KsData::Text(v),
    {
        KsData::Text(v)
    }

    /// A binary response holding `v`.
    pub fn from_bin(v: Vec<u8>) -> (data: Self)
        ensures
            data == KsData::Bin(v),
    {
        KsData::Bin(v)
    }

    /// The text of a text response; `None` for a binary one.
    pub fn into_text(self) -> (text: Option<String>)
        ensures
            text == match self {
                KsData::Text(t) => Some(t),
                KsData::Bin(_) => None,
            },
    {
        if let KsData::Text(text) = self {
            Some(text)
        } else {
            None
        }
    }

    /// The payload of a binary response; `None` for a text one.
    pub fn into_bin(self) -> (data: Option<Vec<u8>>)
        ensures
            data == match self {
                KsData::Bin(d) => Some(d),
                KsData::Text(_) => None,
            },
    {
        if let KsData::Bin(data) = self {
            Some(data)
        } else {
            None
        }
    }
}

} // verus!
