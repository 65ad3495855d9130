use vstd::prelude::*;

verus! {

/// A JSON number, kept as `serde_json` holds it. The engine never looks
/// inside one; it only carries numbers from a record to its transform.
#[verifier::external_type_specification]
#[verifier::external_body]
pub struct ExNumber(serde_json::Number);

/// `Number::clone` returns a number equal to the one it was given.
pub assume_specification[ <serde_json::Number as Clone>::clone ](n: &serde_json::Number) -> (r: serde_json::Number)
    ensures
        r == *n,
;

/// A record value: a string, a number, a boolean, null, an ordered sequence
/// of values, or a mapping from string keys to values. A mapping lists its
/// entries in order; a key names the first entry that carries it.
#[derive(Debug, PartialEq)]
pub enum JsonValue {
    Null,
    Bool(bool),
    Number(serde_json::Number),
    String(String),
    Array(Vec<JsonValue>),
    Object(Vec<(String, JsonValue)>),
}

/// The mathematical content of a `JsonValue`.
pub enum JsonView {
    Null,
    Bool(bool),
    Number(serde_json::Number),
    String(Seq<char>),
    Array(Seq<JsonView>),
    Object(Seq<(Seq<char>, JsonView)>),
}

impl View for JsonValue {
    type V = JsonView;

    open spec fn view(&self) -> JsonView
        decreases self,
    {
        match self {
            JsonValue::Null => JsonView::Null,
            JsonValue::Bool(b) => JsonView::Bool(*b),
            JsonValue::Number(n) => JsonView::Number(*n),
            JsonValue::String(s) => JsonView::String(s@),
            JsonValue::Array(items) => JsonView::Array(item_views(items@)),
            JsonValue::Object(entries) => JsonView::Object(entry_views(entries@)),
        }
    }
}

/// The contents of the items of a sequence, in order.
pub open spec fn item_views(items: Seq<JsonValue>) -> Seq<JsonView>
    decreases items,
{
    if items.len() == 0 {
        Seq::empty()
    } else {
        item_views(items.drop_last()).push(items.last()@)
    }
}

/// The keys and contents of the entries of a mapping, in order.
pub open spec fn entry_views(entries: Seq<(String, JsonValue)>) -> Seq<(Seq<char>, JsonView)>
    decreases entries,
{
    if entries.len() == 0 {
        Seq::empty()
    } else {
        entry_views(entries.drop_last()).push((entries.last().0@, entries.last().1@))
    }
}

/// `item_views` keeps the length and takes the content of each item.
pub proof fn lemma_item_views(items: Seq<JsonValue>)
    ensures
        item_views(items).len() == items.len(),
        forall|i: int| 0 <= i < items.len() ==> #[trigger] item_views(items)[i] == items[i]@,
    decreases items.len(),
{
    if items.len() > 0 {
        lemma_item_views(items.drop_last());
        assert(item_views(items) == item_views(items.drop_last()).push(items.last()@));
    } else {
        assert(item_views(items) == Seq::<JsonView>::empty());
    }
}

/// `entry_views` keeps the length and takes the key and content of each entry.
pub proof fn lemma_entry_views(entries: Seq<(String, JsonValue)>)
    ensures
        entry_views(entries).len() == entries.len(),
        forall|i: int|
            0 <= i < entries.len() ==> #[trigger] entry_views(entries)[i] == (
                entries[i].0@,
                entries[i].1@,
            ),
    decreases entries.len(),
{
    if entries.len() > 0 {
        lemma_entry_views(entries.drop_last());
        assert(entry_views(entries) == entry_views(entries.drop_last()).push(
            (entries.last().0@, entries.last().1@),
        ));
    } else {
        assert(entry_views(entries) == Seq::<(Seq<char>, JsonView)>::empty());
    }
}

impl JsonView {
    /// The items of a sequence; none for any other value.
    pub open spec fn items(self) -> Seq<JsonView> {
        match self {
            JsonView::Array(items) => items,
            _ => Seq::empty(),
        }
    }

    /// The entries of a mapping, in order; none for any other value.
    pub open spec fn entries(self) -> Seq<(Seq<char>, JsonView)> {
        match self {
            JsonView::Object(entries) => entries,
            _ => Seq::empty(),
        }
    }
}

/// The content of a sequence value, item by item.
pub proof fn lemma_array_view(items: Vec<JsonValue>)
    ensures
        JsonValue::Array(items)@ is Array,
        JsonValue::Array(items)@.items().len() == items@.len(),
        forall|i: int|
            0 <= i < items@.len() ==> #[trigger] JsonValue::Array(items)@.items()[i] == items@[i]@,
{
    lemma_item_views(items@);
}

/// The content of a mapping value, entry by entry.
pub proof fn lemma_object_view(entries: Vec<(String, JsonValue)>)
    ensures
        JsonValue::Object(entries)@ is Object,
        JsonValue::Object(entries)@.entries().len() == entries@.len(),
        forall|i: int|
            0 <= i < entries@.len() ==> #[trigger] JsonValue::Object(entries)@.entries()[i] == (
                entries@[i].0@,
                entries@[i].1@,
            ),
{
    lemma_entry_views(entries@);
}

/// The texts of a sequence of strings, in order.
pub open spec fn names_of(fields: Seq<String>) -> Seq<Seq<char>> {
    Seq::new(fields.len(), |j: int| fields[j]@)
}

/// Index of the first entry that carries the key `name`.
pub open spec fn key_index(entries: Seq<(Seq<char>, JsonView)>, name: Seq<char>) -> Option<int>
    decreases entries.len(),
{
    if entries.len() == 0 {
        None
    } else {
        match key_index(entries.drop_last(), name) {
            Some(i) => Some(i),
            None => if entries.last().0 == name {
                Some(entries.len() - 1)
            } else {
                None
            },
        }
    }
}

/// `key_index` finds the first entry with the key, and finds none only where
/// no entry has it.
pub proof fn lemma_key_index(entries: Seq<(Seq<char>, JsonView)>, name: Seq<char>)
    ensures
        match key_index(entries, name) {
            Some(i) => {
                &&& 0 <= i < entries.len()
                &&& entries[i].0 == name
                &&& forall|j: int| 0 <= j < i ==> (#[trigger] entries[j]).0 != name
            },
            None => forall|j: int| 0 <= j < entries.len() ==> (#[trigger] entries[j]).0 != name,
        },
    decreases entries.len(),
{
    if entries.len() > 0 {
        let front = entries.drop_last();
        lemma_key_index(front, name);
        assert forall|j: int| 0 <= j < front.len() implies front[j] == entries[j] by {}
        match key_index(front, name) {
            Some(i) => {
                assert(entries[i] == front[i]);
                assert forall|j: int| 0 <= j < i implies (#[trigger] entries[j]).0 != name by {
                    assert(front[j] == entries[j]);
                }
            },
            None => {
                assert forall|j: int| 0 <= j < entries.len() - 1 implies (#[trigger] entries[j]).0
                    != name by {
                    assert(front[j] == entries[j]);
                }
            },
        }
    }
}

/// The entry at `i` is the one that `key_index` finds when no earlier entry
/// has its key.
pub proof fn lemma_key_index_at(entries: Seq<(Seq<char>, JsonView)>, i: int)
    requires
        0 <= i < entries.len(),
        forall|j: int| 0 <= j < i ==> (#[trigger] entries[j]).0 != entries[i].0,
    ensures
        key_index(entries, entries[i].0) == Some(i),
{
    lemma_key_index(entries, entries[i].0);
}

impl JsonView {
    /// The value under the key `name`: that of the first entry that carries
    /// it. A value that is no mapping has no keys.
    pub open spec fn get(self, name: Seq<char>) -> Option<JsonView> {
        match key_index(self.entries(), name) {
            Some(i) => Some(self.entries()[i].1),
            None => None,
        }
    }
}

impl JsonValue {
    /// Index of the first entry that carries the key `name`, where this is a
    /// mapping that has one.
    pub fn position(&self, name: &String) -> (r: Option<usize>)
        ensures
            match r {
                Some(i) => key_index(self@.entries(), name@) == Some(i as int),
                None => key_index(self@.entries(), name@) is None,
            },
    {
        match self {
            JsonValue::Object(entries) => {
                proof {
                    lemma_object_view(*entries);
                }
                let mut i: usize = 0;
                while i < entries.len()
                    invariant
                        i <= entries@.len(),
                        self@.entries().len() == entries@.len(),
                        forall|j: int|
                            0 <= j < entries@.len() ==> (#[trigger] self@.entries()[j]).0
                                == entries@[j].0@,
                        forall|j: int| 0 <= j < i ==> (#[trigger] self@.entries()[j]).0 != name@,
                    decreases entries@.len() - i,
                {
                    if entries[i].0 == *name {
                        proof {
                            lemma_key_index_at(self@.entries(), i as int);
                        }
                        return Some(i);
                    }
                    i += 1;
                }
                proof {
                    lemma_key_index(self@.entries(), name@);
                }
                None
            },
            _ => None,
        }
    }

    /// The value under the key `name`, where this is a mapping that has it.
    pub fn get(&self, name: &str) -> (r: Option<&JsonValue>)
        ensures
            match r {
                Some(value) => self@.get(name@) == Some(value@),
                None => self@.get(name@) is None,
            },
    {
        let owned = name.to_owned();
        match self {
            JsonValue::Object(entries) => {
                proof {
                    lemma_object_view(*entries);
                    lemma_key_index(self@.entries(), name@);
                }
                match self.position(&owned) {
                    Some(i) => Some(&entries[i].1),
                    None => None,
                }
            },
            _ => None,
        }
    }

    /// The text of a string value.
    pub fn as_str(&self) -> (r: Option<&str>)
        ensures
            match r {
                Some(text) => self@ == JsonView::String(text@),
                None => !(self@ is String),
            },
    {
        match self {
            JsonValue::String(text) => Some(text.as_str()),
            _ => None,
        }
    }

    /// The items of a sequence value.
    pub fn as_array(&self) -> (r: Option<&Vec<JsonValue>>)
        ensures
            match r {
                Some(items) => *self == JsonValue::Array(*items),
                None => !(self@ is Array),
            },
    {
        match self {
            JsonValue::Array(items) => Some(items),
            _ => None,
        }
    }
}

impl Clone for JsonValue {
    /// A deep copy: the copy has the content of the value copied.
    #[verifier::loop_isolation(false)]
    fn clone(&self) -> (copy: JsonValue)
        ensures
            copy@ == self@,
        decreases self,
    {
        match self {
            JsonValue::Null => JsonValue::Null,
            JsonValue::Bool(b) => JsonValue::Bool(*b),
            JsonValue::Number(n) => JsonValue::Number(n.clone()),
            JsonValue::String(s) => JsonValue::String(s.clone()),
            JsonValue::Array(items) => {
                let mut copies: Vec<JsonValue> = Vec::new();
                let mut i: usize = 0;
                while i < items.len()
                    invariant
                        i <= items@.len(),
                        copies@.len() == i,
                        forall|k: int| 0 <= k < i ==> (#[trigger] copies@[k])@ == items@[k]@,
                    decreases items@.len() - i,
                {
                    copies.push(items[i].clone());
                    i += 1;
                }
                proof {
                    lemma_array_view(*items);
                    lemma_array_view(copies);
                    assert(JsonValue::Array(copies)@.items() =~= self@.items());
                }
                JsonValue::Array(copies)
            },
            JsonValue::Object(entries) => {
                let mut copies: Vec<(String, JsonValue)> = Vec::new();
                let mut i: usize = 0;
                while i < entries.len()
                    invariant
                        i <= entries@.len(),
                        copies@.len() == i,
                        forall|k: int|
                            0 <= k < i ==> (#[trigger] copies@[k]).0@ == entries@[k].0@
                                && copies@[k].1@ == entries@[k].1@,
                    decreases entries@.len() - i,
                {
                    copies.push((entries[i].0.clone(), entries[i].1.clone()));
                    i += 1;
                }
                proof {
                    lemma_object_view(*entries);
                    lemma_object_view(copies);
                    assert(JsonValue::Object(copies)@.entries() =~= self@.entries());
                }
                JsonValue::Object(copies)
            },
        }
    }
}

} // verus!
