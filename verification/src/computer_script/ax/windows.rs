//! Which properties the Windows accessibility backend reads.
use vstd::prelude::*;
use crate::computer_script::ax::{AxError, AxFault};
use crate::text::same;

verus! {

pub struct WindowsBackend;

/// A property of a UI Automation element.
#[derive(Debug, PartialEq, Eq, Clone, Copy, Structural)]
pub enum Property {
    Name,
    Value,
    ControlType,
}

/// The property an attribute's name stands for.
pub open spec fn property(attribute: Seq<char>) -> Option<Property> {
    if attribute == "name"@ || attribute == "title"@ || attribute == "AXTitle"@ {
        Some(Property::Name)
    } else if attribute == "value"@ || attribute == "AXValue"@ {
        Some(Property::Value)
    } else if attribute == "role"@ || attribute == "controltype"@ || attribute == "AXRole"@ {
        Some(Property::ControlType)
    } else {
        None
    }
}

/// The property to read for a named attribute.
pub fn read_attribute(attribute: &str) -> (r: Result<Property, AxError>)
    ensures
        match r {
            Ok(p) => property(attribute@) == Some(p),
            Err(e) => property(attribute@) is None && e@ == AxFault::NotSupported(
                "attribute "@ + attribute@ + " is not read on Windows"@,
            ),
        },
{
    if same(attribute, "name") || same(attribute, "title") || same(attribute, "AXTitle") {
        Ok(Property::Name)
    } else if same(attribute, "value") || same(attribute, "AXValue") {
        Ok(Property::Value)
    } else if same(attribute, "role") || same(attribute, "controltype") || same(
        attribute,
        "AXRole",
    ) {
        Ok(Property::ControlType)
    } else {
        let mut e = "attribute ".to_string();
        e.push_str(attribute);
        e.push_str(" is not read on Windows");
        Err(AxError::NotSupported(e))
    }
}

/// A property goes by any of its names, and no name stands for two.
pub proof fn a_property_goes_by_its_names(attribute: Seq<char>)
    ensures
        property(attribute) == Some(Property::Name) <==> attribute == "name"@ || attribute
            == "title"@ || attribute == "AXTitle"@,
        property(attribute) == Some(Property::Value) <==> attribute == "value"@ || attribute
            == "AXValue"@,
        property(attribute) == Some(Property::ControlType) <==> attribute == "role"@ || attribute
            == "controltype"@ || attribute == "AXRole"@,
{
    reveal_strlit("name");
    reveal_strlit("title");
    reveal_strlit("AXTitle");
    reveal_strlit("value");
    reveal_strlit("AXValue");
    reveal_strlit("role");
    reveal_strlit("controltype");
    reveal_strlit("AXRole");
    assert("name"@[0] == 'n' && "title"@[0] == 't' && "value"@[0] == 'v' && "role"@[0] == 'r'
        && "controltype"@[0] == 'c' && "AXTitle"@[0] == 'A' && "AXValue"@[0] == 'A' && "AXRole"@[0]
        == 'A');
    assert("AXTitle"@[2] == 'T' && "AXValue"@[2] == 'V' && "AXRole"@[2] == 'R');
}

} // verus!
