//! The kinds of values and their stable tags.

use vstd::prelude::*;

verus! {

/// What the bytes of a value stand for.
#[derive(Debug, Clone, Copy, PartialEq, Eq, Structural)]
pub enum ValueKind {
    Binary,
    Utf8,
    Integer,
    UnsignedInteger,
    Float,
    Bool,
    Null,
    Structured,
}

impl ValueKind {
    /// The tag under which a kind is stored.
    pub open spec fn tag_of(self) -> u8 {
        match self {
            ValueKind::Binary => 0,
            ValueKind::Utf8 => 1,
            ValueKind::Integer => 2,
            ValueKind::Float => 3,
            ValueKind::Bool => 4,
            ValueKind::Null => 5,
            ValueKind::Structured => 6,
            ValueKind::UnsignedInteger => 7,
        }
    }

    /// The name of a kind.
    pub open spec fn name_of(self) -> Seq<char> {
        match self {
            ValueKind::Binary => "Binary"@,
            ValueKind::Utf8 => "Utf8"@,
            ValueKind::Integer => "Integer"@,
            ValueKind::UnsignedInteger => "UnsignedInteger"@,
            ValueKind::Float => "Float"@,
            ValueKind::Bool => "Bool"@,
            ValueKind::Null => "Null"@,
            ValueKind::Structured => "Structured"@,
        }
    }

    pub fn tag(self) -> (tag: u8)
        ensures
            tag == self.tag_of(),
    {
        match self {
            ValueKind::Binary => 0,
            ValueKind::Utf8 => 1,
            ValueKind::Integer => 2,
            ValueKind::Float => 3,
            ValueKind::Bool => 4,
            ValueKind::Null => 5,
            ValueKind::Structured => 6,
            ValueKind::UnsignedInteger => 7,
        }
    }

    /// The kind stored under a tag, if there is one.
    pub fn from_tag(tag: u8) -> (kind: Option<Self>)
        ensures
            match kind {
                Some(k) => k.tag_of() == tag,
                None => forall|k: ValueKind| #[trigger] k.tag_of() != tag,
            },
    {
        match tag {
            0 => Some(ValueKind::Binary),
            1 => Some(ValueKind::Utf8),
            2 => Some(ValueKind::Integer),
            3 => Some(ValueKind::Float),
            4 => Some(ValueKind::Bool),
            5 => Some(ValueKind::Null),
            6 => Some(ValueKind::Structured),
            7 => Some(ValueKind::UnsignedInteger),
            _ => None,
        }
    }

    pub fn name(self) -> (name: &'static str)
        ensures
            name@ == self.name_of(),
    {
        match self {
            ValueKind::Binary => "Binary",
            ValueKind::Utf8 => "Utf8",
            ValueKind::Integer => "Integer",
            ValueKind::UnsignedInteger => "UnsignedInteger",
            ValueKind::Float => "Float",
            ValueKind::Bool => "Bool",
            ValueKind::Null => "Null",
            ValueKind::Structured => "Structured",
        }
    }
}

/// Two kinds never share a tag.
pub proof fn law_tags_distinct(a: ValueKind, b: ValueKind)
    requires
        a.tag_of() == b.tag_of(),
    ensures
        a == b,
{
}

/// The tags are the numbers from 0 to 7, and each belongs to one kind.
pub proof fn law_tags(tag: u8)
    ensures
        tag < 8 <==> exists|kind: ValueKind| #[trigger] kind.tag_of() == tag,
        ValueKind::Binary.tag_of() == 0,
        ValueKind::UnsignedInteger.tag_of() == 7,
{
    if tag < 8 {
        let kind = if tag == 0 {
            ValueKind::Binary
        } else if tag == 1 {
            ValueKind::Utf8
        } else if tag == 2 {
            ValueKind::Integer
        } else if tag == 3 {
            ValueKind::Float
        } else if tag == 4 {
            ValueKind::Bool
        } else if tag == 5 {
            ValueKind::Null
        } else if tag == 6 {
            ValueKind::Structured
        } else {
            ValueKind::UnsignedInteger
        };
        assert(kind.tag_of() == tag);
    }
}

} // verus!
