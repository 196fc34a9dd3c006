use vstd::prelude::*;
use vstd::string::*;
use crate::entry::{Entry, EntryKind, EntryModel, KindModel};
use crate::text::{first_line, first_line_of, int_of, parse_int};

verus! {

/// What the directory listing says of one item, with what was read from it.
#[derive(Clone, Debug, PartialEq, Eq)]
pub enum Item {
    /// A symbolic link and its raw destination.
    Symlink { target: String },
    /// A regular file and its text.
    File { content: String },
    /// A directory, or any other kind of object.
    Other,
}

/// Mathematical model of an `Item`.
pub enum ItemModel {
    Symlink(Seq<char>),
    File(Seq<char>),
    Other,
}

impl View for Item {
    type V = ItemModel;

    open spec fn view(&self) -> ItemModel {
        match self {
            Item::Symlink { target } => ItemModel::Symlink(target@),
            Item::File { content } => ItemModel::File(content@),
            Item::Other => ItemModel::Other,
        }
    }
}

/// The serialized form of the absolute URL that `s` spells, as the URL
/// parser gives it, or `None` where `s` is no absolute URL.
pub uninterp spec fn parsed_url(s: Seq<char>) -> Option<Seq<char>>;

/// Relies on `url::Url::parse`: whether `s` parses as an absolute URL, and
/// the serialization that the parsed `Url` holds (`From<Url> for String`).
#[verifier::external_body]
fn parse_url(s: &str) -> (r: Option<String>)
    ensures
        r is Some <==> parsed_url(s@) is Some,
        r is Some ==> parsed_url(s@) == Some(r->0@),
{
    url::Url::parse(s).ok().map(String::from)
}

pub open spec fn opt_text(o: Option<String>) -> Option<Seq<char>> {
    match o {
        Some(s) => Some(s@),
        None => None,
    }
}

/// The kind of a file whose first line is `line`, given what the URL parser
/// made of that line: an integer first, then a URL, else invalid.
pub open spec fn line_kind(line: Seq<char>, url: Option<Seq<char>>) -> KindModel {
    match int_of(line) {
        Some(p) => KindModel::Port(p),
        None => match url {
            Some(u) => KindModel::Url(u),
            None => KindModel::Invalid,
        },
    }
}

/// The kind of an item.
pub open spec fn item_kind(item: ItemModel) -> KindModel {
    match item {
        ItemModel::Symlink(t) => KindModel::Link(t),
        ItemModel::File(c) => line_kind(first_line_of(c), parsed_url(first_line_of(c))),
        ItemModel::Other => KindModel::Invalid,
    }
}

/// The entry that a named item becomes.
pub open spec fn entry_of(name: Seq<char>, item: ItemModel) -> EntryModel {
    EntryModel { name, kind: item_kind(item) }
}

/// Classifies a file's first line, given what the URL parser returned on it.
pub fn classify_line(line: &str, url: Option<String>) -> (r: EntryKind)
    ensures
        r@ == line_kind(line@, opt_text(url)),
{
    match parse_int(line) {
        Some(port) => EntryKind::Port { port },
        None => match url {
            Some(u) => EntryKind::Url { url: u },
            None => EntryKind::Invalid,
        },
    }
}

/// Classifies one item of the registry.
pub fn classify_item(item: Item) -> (r: EntryKind)
    ensures
        r@ == item_kind(item@),
{
    match item {
        Item::Symlink { target } => EntryKind::Link { target },
        Item::File { content } => {
            let line = first_line(content.as_str());
            match parse_int(line.as_str()) {
                Some(port) => EntryKind::Port { port },
                None => {
                    let url = parse_url(line.as_str());
                    classify_line(line.as_str(), url)
                },
            }
        },
        Item::Other => EntryKind::Invalid,
    }
}

/// The entry that the item called `name` becomes.
pub fn classify_entry(name: String, item: Item) -> (r: Entry)
    ensures
        r@ == entry_of(name@, item@),
{
    Entry { name, kind: classify_item(item) }
}

} // verus!
