//! The custom properties that any entity of a map may carry, and the parser of a
//! `properties` element.

use vstd::prelude::*;
use crate::attributes::{attr_value, find};
use crate::dispatch::{
    child_step, element_end, finish_element, lemma_child_step, lemma_element_end,
    lemma_subtree_end, next_child, outcome, read_text, skip_element, start_attrs, start_name,
    subtree_end, text_at, Found, Step,
};
use crate::error::{Failure, TiledError};
use crate::events::{views, Token, TokenView};
use crate::text::text_is;
use crate::values::{property_value, PropertyValue, PropertyValueView};

verus! {

/// One custom property: its name and its value.
#[derive(Debug, PartialEq, Eq, Clone)]
pub struct Property {
    pub name: String,
    pub value: PropertyValue,
}

/// The model of a [`Property`].
pub struct PropertyView {
    pub name: Seq<char>,
    pub value: PropertyValueView,
}

impl View for Property {
    type V = PropertyView;

    open spec fn view(&self) -> PropertyView {
        PropertyView { name: self.name@, value: self.value@ }
    }
}

/// The mapping that a list of properties stands for: a later entry replaces an earlier one of
/// the same name.
pub open spec fn as_map(entries: Seq<PropertyView>) -> Map<Seq<char>, PropertyValueView>
    decreases entries.len(),
{
    if entries.len() == 0 {
        Map::empty()
    } else {
        as_map(entries.drop_last()).insert(entries.last().name, entries.last().value)
    }
}

/// The value of the last entry called `name`.
pub open spec fn lookup(entries: Seq<PropertyView>, name: Seq<char>) -> Option<PropertyValueView>
    decreases entries.len(),
{
    if entries.len() == 0 {
        None
    } else if entries.last().name == name {
        Some(entries.last().value)
    } else {
        lookup(entries.drop_last(), name)
    }
}

/// The mapping holds, under each name, what [`lookup`] finds.
pub proof fn lemma_lookup(entries: Seq<PropertyView>, name: Seq<char>)
    ensures
        match lookup(entries, name) {
            Some(v) => as_map(entries).contains_key(name) && as_map(entries)[name] == v,
            None => !as_map(entries).contains_key(name),
        },
    decreases entries.len(),
{
    if entries.len() > 0 {
        lemma_lookup(entries.drop_last(), name);
    }
}

/// A mapping from the names of custom properties to their values.
#[derive(Debug, PartialEq, Eq, Clone)]
pub struct Properties {
    entries: Vec<Property>,
}

impl View for Properties {
    type V = Map<Seq<char>, PropertyValueView>;

    closed spec fn view(&self) -> Map<Seq<char>, PropertyValueView> {
        as_map(views(self.entries@))
    }
}

impl Properties {
    /// No properties.
    pub fn new() -> (p: Properties)
        ensures
            p@ == Map::<Seq<char>, PropertyValueView>::empty(),
    {
        Properties { entries: Vec::new() }
    }

    /// Sets the property `name` to `value`, whatever it was before.
    pub fn insert(&mut self, name: String, value: PropertyValue)
        ensures
            final(self)@ == old(self)@.insert(name@, value@),
    {
        let ghost before = views(self.entries@);
        let ghost entry = (Property { name, value })@;
        self.entries.push(Property { name, value });
        assert(views(self.entries@) =~= before.push(entry));
        assert(before.push(entry).drop_last() =~= before);
    }

    /// The value of the property `name`, if it is set.
    pub fn get(&self, name: &str) -> (r: Option<&PropertyValue>)
        ensures
            match r {
                Some(v) => self@.contains_key(name@) && self@[name@] == v@,
                None => !self@.contains_key(name@),
            },
    {
        let ghost all = views(self.entries@);
        let mut i: usize = self.entries.len();
        assert(all.take(i as int) =~= all);
        while i > 0
            invariant
                i <= self.entries.len(),
                all == views(self.entries@),
                lookup(all, name@) == lookup(all.take(i as int), name@),
            decreases i,
        {
            let entry = &self.entries[i - 1];
            assert(all.take(i as int).last() == entry@);
            if text_is(entry.name.as_str(), name) {
                proof {
                    lemma_lookup(all, name@);
                }
                return Some(&entry.value);
            }
            assert(all.take(i as int).drop_last() =~= all.take(i - 1));
            i -= 1;
        }
        proof {
            lemma_lookup(all, name@);
        }
        None
    }

    /// The entries in the order in which they were set. A later one replaces an earlier one of
    /// the same name.
    pub fn entries(&self) -> (r: &Vec<Property>)
        ensures
            as_map(views(r@)) == self@,
    {
        &self.entries
    }
}

/// What a `property` element must have.
pub open spec fn property_needs() -> Seq<char> {
    "property must have a name and a value"@
}

/// The property that the `property` element at `at` declares. Its value is that of the
/// attribute `value` or, without one, the text that follows the start tag.
pub open spec fn property_at(ts: Seq<TokenView>, at: int) -> Result<(PropertyView, int), Failure> {
    let attrs = ts[at]->attrs;
    let kind = match attr_value(attrs, "type"@) {
        Some(t) => t,
        None => "string"@,
    };
    let spelled = match attr_value(attrs, "value"@) {
        Some(v) => Some((v, at + 1)),
        None => match text_at(ts, at + 1) {
            Some(t) => Some((t, at + 2)),
            None => None,
        },
    };
    match (attr_value(attrs, "name"@), spelled) {
        (Some(name), Some((spelling, pos))) => match property_value(kind, spelling) {
            Err(f) => Err(f),
            Ok(value) => match element_end(ts, pos, "property"@) {
                Err(f) => Err(f),
                Ok(next) => Ok((PropertyView { name, value }, next)),
            },
        },
        _ => Err(Failure::MalformedAttributes(property_needs())),
    }
}

/// The properties that the children of a `properties` element declare from `pos` on, added
/// to `found`. Children that are no `property` are passed over.
pub open spec fn properties_from(
    ts: Seq<TokenView>,
    pos: int,
    found: Map<Seq<char>, PropertyValueView>,
) -> Result<(Map<Seq<char>, PropertyValueView>, int), Failure>
    decreases ts.len() - pos,
{
    if pos < 0 {
        Err(Failure::MalformedAttributes(property_needs()))
    } else {
        match child_step(ts, pos, "properties"@) {
            Step::Failed(f) => Err(f),
            Step::Closed { next } => Ok((found, next)),
            Step::Child { at } => if ts[at]->Start_name == "property"@ {
                match property_at(ts, at) {
                    Err(f) => Err(f),
                    Ok((p, next)) => {
                        proof {
                            lemma_child_step(ts, pos, "properties"@);
                            lemma_property_at(ts, at);
                        }
                        properties_from(ts, next, found.insert(p.name, p.value))
                    },
                }
            } else {
                match subtree_end(ts, at + 1, 1, "properties"@) {
                    Err(f) => Err(f),
                    Ok(next) => {
                        proof {
                            lemma_child_step(ts, pos, "properties"@);
                            lemma_subtree_end(ts, at + 1, 1, "properties"@);
                        }
                        properties_from(ts, next, found)
                    },
                }
            },
        }
    }
}

/// The properties of the `properties` element at `at`.
pub open spec fn properties_at(ts: Seq<TokenView>, at: int) -> Result<
    (Map<Seq<char>, PropertyValueView>, int),
    Failure,
> {
    properties_from(ts, at + 1, Map::empty())
}

/// A property ends behind its start tag.
pub proof fn lemma_property_at(ts: Seq<TokenView>, at: int)
    requires
        0 <= at,
    ensures
        match property_at(ts, at) {
            Ok((_, next)) => at < next <= ts.len(),
            Err(_) => true,
        },
{
    lemma_element_end(ts, at + 1, "property"@);
    lemma_element_end(ts, at + 2, "property"@);
}

/// A `properties` element ends behind where its reading began.
pub proof fn lemma_properties_from(
    ts: Seq<TokenView>,
    pos: int,
    found: Map<Seq<char>, PropertyValueView>,
)
    requires
        0 <= pos,
    ensures
        match properties_from(ts, pos, found) {
            Ok((_, next)) => pos < next <= ts.len(),
            Err(_) => true,
        },
    decreases ts.len() - pos,
{
    lemma_child_step(ts, pos, "properties"@);
    match child_step(ts, pos, "properties"@) {
        Step::Child { at } => {
            if ts[at]->Start_name == "property"@ {
                lemma_property_at(ts, at);
                match property_at(ts, at) {
                    Ok((p, next)) => lemma_properties_from(ts, next, found.insert(p.name, p.value)),
                    Err(_) => {},
                }
            } else {
                lemma_subtree_end(ts, at + 1, 1, "properties"@);
                match subtree_end(ts, at + 1, 1, "properties"@) {
                    Ok(next) => lemma_properties_from(ts, next, found),
                    Err(_) => {},
                }
            }
        },
        _ => {},
    }
}

impl Property {
    /// Reads the `property` element whose start tag is at `at`.
    pub fn parse(tokens: &Vec<Token>, at: usize) -> (r: Result<(Property, usize), TiledError>)
        requires
            at < tokens.len(),
            tokens[at as int] is Start,
        ensures
            outcome(r) == property_at(views(tokens@), at as int),
            r matches Ok((_, next)) ==> at < next <= tokens.len(),
    {
        let attrs = start_attrs(tokens, at);
        let kind: &str = match find(attrs, "type") {
            Some(t) => t.as_str(),
            None => "string",
        };
        let (spelling, pos): (&str, usize) = match find(attrs, "value") {
            Some(v) => (v.as_str(), at + 1),
            None => match read_text(tokens, at + 1) {
                Some(t) => (t.as_str(), at + 2),
                None => {
                    return Err(TiledError::malformed("property must have a name and a value"));
                },
            },
        };
        let name = match find(attrs, "name") {
            Some(n) => n.clone(),
            None => {
                return Err(TiledError::malformed("property must have a name and a value"));
            },
        };
        let value = match PropertyValue::new(kind, spelling) {
            Ok(v) => v,
            Err(e) => {
                return Err(e);
            },
        };
        match finish_element(tokens, pos, "property") {
            Ok(next) => Ok((Property { name, value }, next)),
            Err(e) => Err(e),
        }
    }
}

impl Properties {
    /// Reads the `properties` element whose start tag is at `at`.
    pub fn parse_xml(tokens: &Vec<Token>, at: usize) -> (r: Result<(Properties, usize), TiledError>)
        requires
            at < tokens.len(),
        ensures
            outcome(r) == properties_at(views(tokens@), at as int),
            r matches Ok((_, next)) ==> at < next <= tokens.len(),
    {
        let ghost ts = views(tokens@);
        let mut found = Properties::new();
        let mut pos: usize = at + 1;
        loop
            invariant
                at < pos,
                ts == views(tokens@),
                properties_at(ts, at as int) == properties_from(ts, pos as int, found@),
            decreases tokens.len() - pos,
        {
            match next_child(tokens, pos, "properties") {
                Err(e) => {
                    return Err(e);
                },
                Ok(Found::Closed { next }) => {
                    return Ok((found, next));
                },
                Ok(Found::Child { at: child }) => {
                    if text_is(start_name(tokens, child), "property") {
                        match Property::parse(tokens, child) {
                            Err(e) => {
                                return Err(e);
                            },
                            Ok((p, next)) => {
                                found.insert(p.name, p.value);
                                pos = next;
                            },
                        }
                    } else {
                        match skip_element(tokens, child, "properties") {
                            Err(e) => {
                                return Err(e);
                            },
                            Ok(next) => {
                                pos = next;
                            },
                        }
                    }
                },
            }
        }
    }
}

} // verus!
