use vstd::prelude::*;

verus! {

/// What one item of the registry stands for.
#[derive(Clone, Debug, PartialEq, Eq)]
pub enum EntryKind {
    /// A symbolic link, with its raw destination.
    Link { target: String },
    /// A file whose first line is an absolute URL, kept in its serialized form.
    Url { url: String },
    /// A file whose first line is an integer.
    Port { port: i32 },
    /// Anything else.
    Invalid,
}

/// One classified item of the registry.
#[derive(Clone, Debug, PartialEq, Eq)]
pub struct Entry {
    pub name: String,
    pub kind: EntryKind,
}

impl EntryKind {
    /// A copy of this kind.
    pub fn copied(&self) -> (r: EntryKind)
        ensures
            r@ == self@,
    {
        match self {
            EntryKind::Link { target } => EntryKind::Link { target: target.clone() },
            EntryKind::Url { url } => EntryKind::Url { url: url.clone() },
            EntryKind::Port { port } => EntryKind::Port { port: *port },
            EntryKind::Invalid => EntryKind::Invalid,
        }
    }
}

/// Mathematical model of an `EntryKind`.
pub enum KindModel {
    Link(Seq<char>),
    Url(Seq<char>),
    Port(i32),
    Invalid,
}

/// Mathematical model of an `Entry`.
pub struct EntryModel {
    pub name: Seq<char>,
    pub kind: KindModel,
}

impl View for EntryKind {
    type V = KindModel;

    open spec fn view(&self) -> KindModel {
        match self {
            EntryKind::Link { target } => KindModel::Link(target@),
            EntryKind::Url { url } => KindModel::Url(url@),
            EntryKind::Port { port } => KindModel::Port(*port),
            EntryKind::Invalid => KindModel::Invalid,
        }
    }
}

impl View for Entry {
    type V = EntryModel;

    open spec fn view(&self) -> EntryModel {
        EntryModel { name: self.name@, kind: self.kind@ }
    }
}

/// The models of a sequence of entries.
pub open spec fn models(s: Seq<Entry>) -> Seq<EntryModel> {
    s.map_values(|e: Entry| e@)
}

/// Display group of a kind: links, then URLs, then ports, then invalid items.
pub open spec fn rank(k: KindModel) -> int {
    match k {
        KindModel::Link(_) => 0,
        KindModel::Url(_) => 1,
        KindModel::Port(_) => 2,
        KindModel::Invalid => 3,
    }
}

/// Lexicographic order on names, character by character (code point order,
/// which is also the byte order of their UTF-8 encodings).
pub open spec fn name_lt(a: Seq<char>, b: Seq<char>) -> bool
    decreases a.len(),
{
    if a.len() == 0 {
        b.len() > 0
    } else if b.len() == 0 {
        false
    } else if a[0] != b[0] {
        (a[0] as u32) < (b[0] as u32)
    } else {
        name_lt(a.drop_first(), b.drop_first())
    }
}

/// The display order: by group; ports by value; within a group by name.
pub open spec fn entry_lt(a: EntryModel, b: EntryModel) -> bool {
    if rank(a.kind) != rank(b.kind) {
        rank(a.kind) < rank(b.kind)
    } else {
        match (a.kind, b.kind) {
            (KindModel::Port(p), KindModel::Port(q)) => p < q || (p == q && name_lt(a.name, b.name)),
            _ => name_lt(a.name, b.name),
        }
    }
}

/// No entry comes before another in the sequence that it should follow.
pub open spec fn is_ordered(s: Seq<EntryModel>) -> bool {
    forall|i: int, j: int| 0 <= i < j < s.len() ==> !entry_lt(#[trigger] s[j], #[trigger] s[i])
}

pub proof fn lemma_name_lt_irreflexive(a: Seq<char>)
    ensures
        !name_lt(a, a),
    decreases a.len(),
{
    if a.len() > 0 {
        lemma_name_lt_irreflexive(a.drop_first());
    }
}

pub proof fn lemma_name_lt_transitive(a: Seq<char>, b: Seq<char>, c: Seq<char>)
    requires
        name_lt(a, b),
        name_lt(b, c),
    ensures
        name_lt(a, c),
    decreases a.len(),
{
    if a.len() > 0 && b.len() > 0 && c.len() > 0 && a[0] == b[0] && b[0] == c[0] {
        lemma_name_lt_transitive(a.drop_first(), b.drop_first(), c.drop_first());
    }
}

/// Two different names are ordered one way or the other.
pub proof fn lemma_name_lt_total(a: Seq<char>, b: Seq<char>)
    requires
        a != b,
    ensures
        name_lt(a, b) || name_lt(b, a),
    decreases a.len(),
{
    if a.len() == 0 || b.len() == 0 {
        if a.len() == 0 && b.len() == 0 {
            assert(a =~= b);
        }
    } else if a[0] != b[0] {
        vstd::utf8::char_u32_cast(a[0], a[0] as u32);
        vstd::utf8::char_u32_cast(b[0], b[0] as u32);
    } else {
        if a.drop_first() == b.drop_first() {
            assert(a =~= seq![a[0]] + a.drop_first());
            assert(b =~= seq![b[0]] + b.drop_first());
        }
        lemma_name_lt_total(a.drop_first(), b.drop_first());
    }
}

pub proof fn lemma_entry_lt_irreflexive(a: EntryModel)
    ensures
        !entry_lt(a, a),
{
    lemma_name_lt_irreflexive(a.name);
}

pub proof fn lemma_entry_lt_transitive(a: EntryModel, b: EntryModel, c: EntryModel)
    requires
        entry_lt(a, b),
        entry_lt(b, c),
    ensures
        entry_lt(a, c),
{
    if a.name != b.name && b.name != c.name {
        if name_lt(a.name, b.name) && name_lt(b.name, c.name) {
            lemma_name_lt_transitive(a.name, b.name, c.name);
        }
    }
    if name_lt(a.name, b.name) && name_lt(b.name, c.name) {
        lemma_name_lt_transitive(a.name, b.name, c.name);
    }
}

/// Entries with different names are ordered one way or the other.
pub proof fn lemma_entry_lt_total(a: EntryModel, b: EntryModel)
    requires
        a.name != b.name,
    ensures
        entry_lt(a, b) || entry_lt(b, a),
{
    lemma_name_lt_total(a.name, b.name);
}

} // verus!
