//! TOML documents as plain values, with the `toml` crate reading their text.
use crate::text;
use vstd::prelude::*;

verus! {

/// The document type of `toml`, which stands only between its parser and `TomlDoc`.
#[verifier::external_type_specification]
#[verifier::external_body]
pub struct ExTomlValue(toml::Value);

/// What is read of a TOML document: its tables and strings.
#[derive(Debug)]
pub enum TomlDoc {
    Text(String),
    Table(Vec<(String, TomlDoc)>),
    /// A number, a boolean, a date or an array.
    Other,
}

/// A TOML document as a mathematical value.
pub enum TomlView {
    Text(Seq<char>),
    Table(Seq<(Seq<char>, TomlView)>),
    Other,
}

impl View for TomlDoc {
    type V = TomlView;

    open spec fn view(&self) -> TomlView
        decreases self,
    {
        match self {
            TomlDoc::Text(s) => TomlView::Text(s@),
            TomlDoc::Table(v) => TomlView::Table(
                Seq::new(
                    v@.len(),
                    |i: int|
                        (
                            v@[i].0@,
                            if 0 <= i < v@.len() {
                                v@[i].1.view()
                            } else {
                                TomlView::Other
                            },
                        ),
                ),
            ),
            TomlDoc::Other => TomlView::Other,
        }
    }
}

pub open spec fn entry_views(v: Seq<(String, TomlDoc)>) -> Seq<(Seq<char>, TomlView)> {
    Seq::new(v.len(), |i: int| (v[i].0@, v[i].1@))
}

pub open spec fn opt_toml(d: Option<TomlDoc>) -> Option<TomlView> {
    match d {
        Some(v) => Some(v@),
        None => None,
    }
}

/// The position of the first entry with a name.
pub open spec fn entry_index(entries: Seq<(Seq<char>, TomlView)>, key: Seq<char>) -> Option<int>
    decreases entries.len(),
{
    if entries.len() == 0 {
        None
    } else {
        match entry_index(entries.drop_last(), key) {
            Some(i) => Some(i),
            None => if entries.last().0 == key {
                Some(entries.len() - 1)
            } else {
                None
            },
        }
    }
}

/// The entry of a table with a name.
pub open spec fn entry(d: TomlView, key: Seq<char>) -> Option<TomlView> {
    match d {
        TomlView::Table(entries) => match entry_index(entries, key) {
            Some(i) => Some(entries[i].1),
            None => None,
        },
        _ => None,
    }
}

pub proof fn entry_index_found(entries: Seq<(Seq<char>, TomlView)>, key: Seq<char>)
    ensures
        match entry_index(entries, key) {
            Some(i) => {
                &&& 0 <= i < entries.len()
                &&& entries[i].0 == key
                &&& forall|j: int| 0 <= j < i ==> (#[trigger] entries[j]).0 != key
            },
            None => forall|j: int| 0 <= j < entries.len() ==> (#[trigger] entries[j]).0 != key,
        },
    decreases entries.len(),
{
    if entries.len() > 0 {
        let before = entries.drop_last();
        entry_index_found(before, key);
        assert forall|j: int| 0 <= j < entries.len() - 1 implies #[trigger] entries[j]
            == before[j] by {}
        match entry_index(before, key) {
            Some(i) => {
                assert(entries[i] == before[i]);
            },
            None => {},
        }
    }
}

impl TomlDoc {
    pub proof fn table_view(v: Vec<(String, TomlDoc)>)
        ensures
            TomlDoc::Table(v)@ == TomlView::Table(entry_views(v@)),
    {
        assert(TomlDoc::Table(v)@->Table_0 =~= entry_views(v@));
    }

    /// The entry of a table with a name; nothing for what is no table.
    pub fn get(&self, key: &str) -> (r: Option<&TomlDoc>)
        ensures
            match r {
                Some(d) => entry(self@, key@) == Some(d@),
                None => entry(self@, key@) is None,
            },
    {
        match self {
            TomlDoc::Table(entries) => {
                proof {
                    TomlDoc::table_view(*entries);
                }
                let ghost all = entry_views(entries@);
                let mut i: usize = 0;
                while i < entries.len()
                    invariant
                        self@ == TomlView::Table(all),
                        all == entry_views(entries@),
                        i <= entries@.len(),
                        forall|j: int| 0 <= j < i ==> (#[trigger] all[j]).0 != key@,
                    decreases entries@.len() - i,
                {
                    if text::same(entries[i].0.as_str(), key) {
                        proof {
                            entry_index_found(all, key@);
                            assert(all[i as int].0 == key@);
                        }
                        return Some(&entries[i].1);
                    }
                    assert(all[i as int].0 != key@);
                    i = i + 1;
                }
                proof {
                    entry_index_found(all, key@);
                }
                None
            },
            _ => None,
        }
    }

    /// The document that a text holds; `None` where the text is not TOML.
    pub fn parse(s: &str) -> (r: Option<TomlDoc>)
        ensures
            opt_toml(r) == toml_read(s@),
    {
        parse(s)
    }
}

/// What the `toml` crate reads from a text: the document, or nothing where the text
/// is not TOML.
pub uninterp spec fn toml_read(s: Seq<char>) -> Option<TomlView>;

/// Takes a `toml::Value` apart, variant by variant. Nothing is claimed of it: `parse`
/// states what its result is.
#[verifier::external_body]
fn from_value(value: toml::Value) -> TomlDoc {
    match value {
        toml::Value::String(s) => TomlDoc::Text(s),
        toml::Value::Table(t) => TomlDoc::Table(
            t.into_iter().map(|(k, v)| (k, from_value(v))).collect(),
        ),
        toml::Value::Integer(_) => TomlDoc::Other,
        toml::Value::Float(_) => TomlDoc::Other,
        toml::Value::Boolean(_) => TomlDoc::Other,
        toml::Value::Datetime(_) => TomlDoc::Other,
        toml::Value::Array(_) => TomlDoc::Other,
    }
}

/// Calls `toml::from_str` for a `toml::Value`: the document that the text holds, or
/// `None` where the parser reports an error.
#[verifier::external_body]
fn parse(s: &str) -> (r: Option<TomlDoc>)
    ensures
        opt_toml(r) == toml_read(s@),
{
    toml::from_str::<toml::Value>(s).ok().map(from_value)
}

} // verus!
