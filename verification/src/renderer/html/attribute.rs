//! One `name="value"` pair of a start tag.

use crate::text::str_is;
use vstd::prelude::*;

verus! {

#[derive(Debug, PartialEq, Eq)]
pub struct Attribute {
    pub name: String,
    pub value: String,
}

pub struct AttributeModel {
    pub name: Seq<char>,
    pub value: Seq<char>,
}

impl View for Attribute {
    type V = AttributeModel;

    open spec fn view(&self) -> AttributeModel {
        AttributeModel { name: self.name@, value: self.value@ }
    }
}

impl Clone for Attribute {
    fn clone(&self) -> (r: Self)
        ensures
            r@ == self@,
    {
        Attribute { name: self.name.clone(), value: self.value.clone() }
    }
}

/// The models of a list of attributes, in order.
pub open spec fn attributes_model(attributes: Seq<Attribute>) -> Seq<AttributeModel> {
    attributes.map_values(|a: Attribute| a@)
}

/// A copy of a list of attributes.
pub fn clone_attributes(attributes: &Vec<Attribute>) -> (r: Vec<Attribute>)
    ensures
        attributes_model(r@) == attributes_model(attributes@),
{
    let mut r: Vec<Attribute> = Vec::new();
    let mut i: usize = 0;
    while i < attributes.len()
        invariant
            i <= attributes.len(),
            r.len() == i,
            forall|j: int| 0 <= j < i ==> r[j]@ == attributes[j]@,
        decreases attributes.len() - i,
    {
        r.push(attributes[i].clone());
        i += 1;
    }
    assert(attributes_model(r@) =~= attributes_model(attributes@));
    r
}

impl Attribute {
    /// An attribute with an empty name and an empty value.
    pub fn new() -> (a: Self)
        ensures
            a@ == (AttributeModel { name: Seq::empty(), value: Seq::empty() }),
    {
        Attribute { name: String::new(), value: String::new() }
    }

    /// Appends `c` to the name if `is_name` holds, else to the value.
    pub fn add_char(&mut self, c: char, is_name: bool)
        ensures
            final(self)@ == if is_name {
                AttributeModel { name: old(self)@.name.push(c), value: old(self)@.value }
            } else {
                AttributeModel { name: old(self)@.name, value: old(self)@.value.push(c) }
            },
    {
        if is_name {
            self.name.push(c);
        } else {
            self.value.push(c);
        }
    }

    pub fn name(&self) -> (r: String)
        ensures
            r@ == self@.name,
    {
        self.name.clone()
    }

    pub fn value(&self) -> (r: String)
        ensures
            r@ == self@.value,
    {
        self.value.clone()
    }
}

/// Whether some attribute in the list has exactly this name and this value.
pub open spec fn has_attribute(
    attributes: Seq<AttributeModel>,
    name: Seq<char>,
    value: Seq<char>,
) -> bool {
    exists|i: int|
        0 <= i < attributes.len() && (#[trigger] attributes[i]).name == name && attributes[i].value
            == value
}

/// Whether some attribute in the list has exactly this name and this value.
pub fn has_attribute_with(attributes: &Vec<Attribute>, name: &str, value: &String) -> (r: bool)
    ensures
        r == has_attribute(attributes_model(attributes@), name@, value@),
{
    let ghost model = attributes_model(attributes@);
    let mut i: usize = 0;
    while i < attributes.len()
        invariant
            i <= attributes.len(),
            model == attributes_model(attributes@),
            forall|j: int|
                0 <= j < i ==> !((#[trigger] model[j]).name == name@ && model[j].value == value@),
        decreases attributes.len() - i,
    {
        assert(model[i as int] == attributes[i as int]@);
        if str_is(&attributes[i].name, name) && attributes[i].value == *value {
            return true;
        }
        i += 1;
    }
    false
}

} // verus!
