//! Tags: lists of resource ids with a replace flag, written as JSON.

use vstd::prelude::*;
use vstd::string::*;
use crate::compile::{CompileOptions, CompilerState};
use crate::text::{join2, join3, owned};
use crate::vfs::{VFile, VFileView};

verus! {

/// The JSON string literal of a text: quoted, with escapes.
pub uninterp spec fn json_string_of(s: Seq<char>) -> Seq<char>;

/// Relies on `serde_json::Value::String` and its `Display`: the compact JSON
/// form of a string value, which depends on the text alone.
#[verifier::external_body]
pub(crate) fn json_string(s: &str) -> (r: String)
    ensures
        r@ == json_string_of(s@),
{
    serde_json::Value::String(s.to_string()).to_string()
}

/// The value of a tag.
#[derive(Debug, Clone, PartialEq, Eq, Hash)]
pub enum TagValue {
    /// A simple value, either a resource location or an id of another tag.
    Simple(String),
    /// An id with whether loading the tag fails when the entry is missing.
    Advanced {
        /// The id of the tag.
        id: String,
        /// Whether the loading of the tag should fail when the entry is not found.
        required: bool,
    },
}

pub open spec fn bool_json(b: bool) -> Seq<char> {
    if b {
        "true"@
    } else {
        "false"@
    }
}

/// The JSON form of a tag value.
pub open spec fn value_json(v: TagValue) -> Seq<char> {
    match v {
        TagValue::Simple(s) => json_string_of(s@),
        TagValue::Advanced { id, required } => "{\"id\":"@ + json_string_of(id@) + ",\"required\":"@
            + bool_json(required) + "}"@,
    }
}

/// The JSON forms of tag values, separated by commas.
pub open spec fn values_json(vs: Seq<TagValue>) -> Seq<char>
    decreases vs.len(),
{
    if vs.len() == 0 {
        Seq::empty()
    } else if vs.len() == 1 {
        value_json(vs[0])
    } else {
        values_json(vs.drop_last()) + ","@ + value_json(vs.last())
    }
}

/// The JSON form of a tag.
pub open spec fn tag_json(replace: bool, vs: Seq<TagValue>) -> Seq<char> {
    "{\"replace\":"@ + bool_json(replace) + ",\"values\":["@ + values_json(vs) + "]}"@
}

fn bool_text(b: bool) -> (r: &'static str)
    ensures
        r@ == bool_json(b),
{
    if b {
        "true"
    } else {
        "false"
    }
}

impl TagValue {
    /// A simple value.
    pub fn simple(value: &str) -> (r: Self)
        ensures
            r matches TagValue::Simple(s) && s@ == value@,
    {
        TagValue::Simple(owned(value))
    }

    /// Compile the tag value into JSON text.
    pub fn compile(&self) -> (r: String)
        ensures
            r@ == value_json(*self),
    {
        match self {
            TagValue::Simple(value) => json_string(value.as_str()),
            TagValue::Advanced { id, required } => {
                let head = join2("{\"id\":", json_string(id.as_str()).as_str());
                let r = join3(head.as_str(), ",\"required\":", join2(bool_text(*required), "}").as_str());
                assert(r@ =~= value_json(*self));
                r
            },
        }
    }
}

/// A tag for various types.
#[derive(Debug, Clone, PartialEq, Eq, Hash)]
pub struct Tag {
    replace: bool,
    values: Vec<TagValue>,
}

impl View for Tag {
    type V = (bool, Seq<TagValue>);

    closed spec fn view(&self) -> (bool, Seq<TagValue>) {
        (self.replace, self.values@)
    }
}

impl Tag {
    /// Create a new tag.
    pub fn new(replace: bool) -> (r: Self)
        ensures
            r@ == (replace, Seq::<TagValue>::empty()),
    {
        Tag { replace, values: Vec::new() }
    }

    /// Get whether the tag should replace existing values.
    pub fn get_replace(&self) -> (r: bool)
        ensures
            r == self@.0,
    {
        self.replace
    }

    /// Set whether the tag should replace existing values.
    pub fn set_replace(&mut self, replace: bool)
        ensures
            final(self)@ == (replace, old(self)@.1),
    {
        self.replace = replace;
    }

    /// Get the values of the tag.
    pub fn get_values(&self) -> (r: &Vec<TagValue>)
        ensures
            r@ == self@.1,
    {
        &self.values
    }

    /// Add a value to the tag.
    pub fn add_value(&mut self, value: TagValue)
        ensures
            final(self)@ == (old(self)@.0, old(self)@.1.push(value)),
    {
        self.values.push(value);
    }

    /// Compile the tag into a JSON file.
    pub fn compile_no_state(&self, options: &CompileOptions) -> (r: VFile)
        ensures
            r@ == VFileView::Text(tag_json(self@.0, self@.1)),
    {
        let mut out = owned("{\"replace\":");
        out.append(bool_text(self.replace));
        out.append(",\"values\":[");
        let ghost start = out@;
        let mut i: usize = 0;
        while i < self.values.len()
            invariant
                i <= self.values@.len(),
                out@ == start + values_json(self.values@.take(i as int)),
            decreases self.values.len() - i,
        {
            proof {
                assert(self.values@.take(i + 1).drop_last() =~= self.values@.take(i as int));
            }
            if i > 0 {
                out.append(",");
            }
            let v = self.values[i].compile();
            out.append(v.as_str());
            i = i + 1;
            proof {
                if i == 1 {
                    assert(values_json(self.values@.take(1)) == value_json(self.values@[0]));
                }
                assert(out@ =~= start + values_json(self.values@.take(i as int)));
            }
        }
        out.append("]}");
        assert(self.values@.take(i as int) =~= self.values@);
        assert(out@ =~= tag_json(self@.0, self@.1));
        VFile::Text(out)
    }

    /// Compile the tag into a JSON file.
    pub fn compile(&self, options: &CompileOptions, state: &CompilerState) -> (r: VFile)
        ensures
            r@ == VFileView::Text(tag_json(self@.0, self@.1)),
    {
        self.compile_no_state(options)
    }
}

/// The type of a tag.
#[derive(Debug, Clone, PartialEq, Eq, Hash)]
pub enum TagType {
    /// A tag for blocks.
    Block,
    /// A tag for fluids.
    Fluid,
    /// A tag for items.
    Item,
    /// A tag for entities.
    Entity,
    /// A tag for game events.
    GameEvent,
    /// A tag for functions.
    Function,
    /// A custom tag type: `Other(<registry path>)` is stored under
    /// `data/<namespace>/tags/<registry path>`.
    Other(String),
}

/// The directory of a tag type in a pack format.
pub open spec fn tag_directory(t: TagType, pack_format: u8) -> Seq<char> {
    match t {
        TagType::Other(p) => p@,
        TagType::Block => if pack_format < 43 { "blocks"@ } else { "block"@ },
        TagType::Fluid => if pack_format < 43 { "fluids"@ } else { "fluid"@ },
        TagType::Item => if pack_format < 43 { "items"@ } else { "item"@ },
        TagType::Entity => if pack_format < 43 { "entity_types"@ } else { "entity_type"@ },
        TagType::GameEvent => if pack_format < 43 { "game_events"@ } else { "game_event"@ },
        TagType::Function => if pack_format < 45 { "functions"@ } else { "function"@ },
    }
}

/// Two tag types are the same kind, with the same path for `Other`.
pub open spec fn same_tag_type(a: TagType, b: TagType) -> bool {
    match (a, b) {
        (TagType::Other(x), TagType::Other(y)) => x@ == y@,
        (TagType::Block, TagType::Block) => true,
        (TagType::Fluid, TagType::Fluid) => true,
        (TagType::Item, TagType::Item) => true,
        (TagType::Entity, TagType::Entity) => true,
        (TagType::GameEvent, TagType::GameEvent) => true,
        (TagType::Function, TagType::Function) => true,
        _ => false,
    }
}

impl TagType {
    /// The directory of the tag type, which depends on the pack format.
    pub fn get_directory_name(&self, pack_format: u8) -> (r: &str)
        ensures
            r@ == tag_directory(*self, pack_format),
    {
        if pack_format < 43 {
            match self {
                TagType::Block => "blocks",
                TagType::Fluid => "fluids",
                TagType::Item => "items",
                TagType::Entity => "entity_types",
                TagType::GameEvent => "game_events",
                TagType::Function => "functions",
                TagType::Other(path) => path.as_str(),
            }
        } else {
            match self {
                TagType::Block => "block",
                TagType::Fluid => "fluid",
                TagType::Item => "item",
                TagType::Entity => "entity_type",
                TagType::GameEvent => "game_event",
                TagType::Function => if pack_format < 45 {
                    "functions"
                } else {
                    "function"
                },
                TagType::Other(path) => path.as_str(),
            }
        }
    }

    /// The name of the tag type: its registry path.
    pub fn name(&self) -> (r: &str)
        ensures
            r@ == tag_directory(*self, 45),
    {
        match self {
            TagType::Block => "block",
            TagType::Fluid => "fluid",
            TagType::Item => "item",
            TagType::Entity => "entity_type",
            TagType::GameEvent => "game_event",
            TagType::Function => "function",
            TagType::Other(path) => path.as_str(),
        }
    }

    /// A copy of this tag type.
    pub fn duplicate(&self) -> (r: Self)
        ensures
            r == *self,
    {
        match self {
            TagType::Block => TagType::Block,
            TagType::Fluid => TagType::Fluid,
            TagType::Item => TagType::Item,
            TagType::Entity => TagType::Entity,
            TagType::GameEvent => TagType::GameEvent,
            TagType::Function => TagType::Function,
            TagType::Other(p) => TagType::Other(p.clone()),
        }
    }

    /// Whether two tag types are the same.
    pub fn same_as(&self, other: &TagType) -> (r: bool)
        ensures
            r == same_tag_type(*self, *other),
    {
        match (self, other) {
            (TagType::Other(x), TagType::Other(y)) => *x == *y,
            (TagType::Block, TagType::Block) => true,
            (TagType::Fluid, TagType::Fluid) => true,
            (TagType::Item, TagType::Item) => true,
            (TagType::Entity, TagType::Entity) => true,
            (TagType::GameEvent, TagType::GameEvent) => true,
            (TagType::Function, TagType::Function) => true,
            _ => false,
        }
    }
}

} // verus!
