use vstd::prelude::*;
use vstd::set_lib::{lemma_int_range, lemma_len_subset, set_int_range};
use vstd::string::*;
use crate::classify::{Item, classify_entry, entry_of};
use crate::entry::{Entry, EntryKind, EntryModel, KindModel, is_ordered, models};
use crate::order::sort_entries;
use crate::text::same_text;

verus! {

broadcast use vstd::seq_lib::group_to_multiset_ensures;

/// The first port that allocation considers.
pub const BASE_PORT: i32 = 3000;

/// Why an operation on the registry failed.
#[derive(Clone, Debug, PartialEq, Eq)]
pub enum RegistryError {
    /// The home directory, the registry directory or the current directory
    /// could not be resolved or read.
    Environment,
    /// An item's text could not be read.
    ContentRead,
    /// An item of that name already exists.
    Conflict,
    /// No item of that name exists.
    NotFound,
    /// The named entry exists but is not a port entry; it is of this kind.
    KindMismatch { kind: EntryKind },
    /// The named item is a directory, which is never removed.
    Refused,
}

/// The kind of filesystem object that a name denotes.
#[derive(Clone, Copy, Debug, PartialEq, Eq)]
pub enum ObjectType {
    Symlink,
    File,
    Directory,
    Other,
}

/// The entries that a listing of named items becomes, in listing order.
pub open spec fn scanned(items: Seq<(String, Item)>) -> Seq<EntryModel> {
    items.map_values(|p: (String, Item)| entry_of(p.0@, p.1@))
}

/// Some entry of `s` is a port entry holding `p`.
pub open spec fn port_in_use(s: Seq<EntryModel>, p: i32) -> bool {
    exists|i: int| 0 <= i < s.len() && #[trigger] s[i].kind == KindModel::Port(p)
}

/// `p` is the smallest port from the base up that no entry of `s` holds.
pub open spec fn is_next_port(s: Seq<EntryModel>, p: i32) -> bool {
    &&& BASE_PORT <= p
    &&& !port_in_use(s, p)
    &&& forall|q: i32| BASE_PORT <= q < p ==> port_in_use(s, q)
}

/// `i` is the first position of `s` whose entry is called `name`.
pub open spec fn first_named(s: Seq<EntryModel>, name: Seq<char>, i: int) -> bool {
    &&& 0 <= i < s.len()
    &&& s[i].name == name
    &&& forall|j: int| 0 <= j < i ==> s[j].name != name
}

/// Some entry of `s` is called `name`.
pub open spec fn has_name(s: Seq<EntryModel>, name: Seq<char>) -> bool {
    exists|i: int| 0 <= i < s.len() && #[trigger] s[i].name == name
}

/// `dir` followed by `name` as a path: a separator is added unless `dir` is
/// empty or already ends with one.
pub open spec fn path_join(dir: Seq<char>, name: Seq<char>) -> Seq<char> {
    if dir.len() == 0 {
        name
    } else if dir.last() == '/' {
        dir + name
    } else {
        dir + seq!['/'] + name
    }
}

/// Classifies every listed item and puts the entries in display order.
pub fn scan_entries(items: Vec<(String, Item)>) -> (r: Vec<Entry>)
    ensures
        models(r@).to_multiset() == scanned(items@).to_multiset(),
        is_ordered(models(r@)),
{
    let mut rest = items;
    let mut found: Vec<Entry> = Vec::new();
    assert(models(found@) =~= Seq::<EntryModel>::empty());
    while rest.len() > 0
        invariant
            models(found@).to_multiset().add(scanned(rest@).to_multiset()) =~= scanned(
                items@,
            ).to_multiset(),
        decreases rest.len(),
    {
        let ghost before = rest@;
        let (name, item) = rest.pop().unwrap();
        assert(scanned(before) =~= scanned(rest@).push(entry_of(name@, item@)));
        let ghost prev = found@;
        found.push(classify_entry(name, item));
        assert(models(found@) =~= models(prev).push(found@.last()@));
    }
    assert(scanned(rest@) =~= Seq::<EntryModel>::empty());
    sort_entries(found)
}

/// Whether some entry holds port `p`.
pub fn port_used(entries: &Vec<Entry>, p: i32) -> (r: bool)
    ensures
        r == port_in_use(models(entries@), p),
{
    let mut i: usize = 0;
    while i < entries.len()
        invariant
            i <= entries@.len(),
            forall|j: int| 0 <= j < i ==> entries@[j].kind@ != KindModel::Port(p),
        decreases entries.len() - i,
    {
        match entries[i].kind {
            EntryKind::Port { port } => {
                if port == p {
                    assert(models(entries@)[i as int].kind == KindModel::Port(p));
                    return true;
                }
            },
            _ => {},
        }
        i = i + 1;
    }
    assert forall|j: int| 0 <= j < models(entries@).len() implies #[trigger] models(
        entries@,
    )[j].kind != KindModel::Port(p) by {
        assert(models(entries@)[j] == entries@[j]@);
    }
    false
}

/// The port values of `s`, with every other entry counted as zero.
spec fn port_values(s: Seq<EntryModel>) -> Seq<int> {
    s.map_values(
        |m: EntryModel|
            match m.kind {
                KindModel::Port(q) => q as int,
                _ => 0,
            },
    )
}

/// Ports from the base up to `c` that are all in use take at least as many
/// entries.
proof fn lemma_used_range_fits(s: Seq<EntryModel>, c: int)
    requires
        BASE_PORT <= c <= i32::MAX + 1,
        forall|q: i32| BASE_PORT <= q < c ==> port_in_use(s, q),
    ensures
        c - BASE_PORT <= s.len(),
{
    let f = port_values(s);
    assert forall|x: int| #[trigger] set_int_range(BASE_PORT as int, c).contains(x) implies f.to_set().contains(x) by {
        let q = x as i32;
        assert(port_in_use(s, q));
        let i = choose|i: int| 0 <= i < s.len() && #[trigger] s[i].kind == KindModel::Port(q);
        assert(f[i] == x);
    }
    lemma_int_range(BASE_PORT as int, c);
    f.lemma_cardinality_of_set();
    vstd::seq_lib::seq_to_set_is_finite(f);
    lemma_len_subset(set_int_range(BASE_PORT as int, c), f.to_set());
}

/// The smallest port from the base up that no port entry holds.
pub fn next_port(entries: &Vec<Entry>) -> (r: i32)
    requires
        entries@.len() <= i32::MAX - BASE_PORT,
    ensures
        is_next_port(models(entries@), r),
{
    let mut port: i32 = BASE_PORT;
    loop
        invariant
            BASE_PORT <= port,
            entries@.len() <= i32::MAX - BASE_PORT,
            forall|q: i32| BASE_PORT <= q < port ==> port_in_use(models(entries@), q),
        decreases BASE_PORT + entries@.len() - port,
    {
        proof {
            lemma_used_range_fits(models(entries@), port as int);
        }
        if !port_used(entries, port) {
            return port;
        }
        proof {
            lemma_used_range_fits(models(entries@), port + 1);
        }
        port = port + 1;
    }
}

/// The port of the entry called `name`; for an entry of another kind, that
/// kind.
pub fn find_port(name: &str, entries: &Vec<Entry>) -> (r: Result<i32, RegistryError>)
    ensures
        match r {
            Ok(p) => exists|i: int|
                first_named(models(entries@), name@, i) && models(entries@)[i].kind
                    == KindModel::Port(p),
            Err(RegistryError::NotFound) => !has_name(models(entries@), name@),
            Err(RegistryError::KindMismatch { kind }) => exists|i: int|
                first_named(models(entries@), name@, i) && models(entries@)[i].kind == kind@
                    && !(kind@ is Port),
            Err(_) => false,
        },
{
    let ghost s = models(entries@);
    let mut i: usize = 0;
    while i < entries.len()
        invariant
            i <= entries@.len(),
            s == models(entries@),
            forall|j: int| 0 <= j < i ==> s[j].name != name@,
        decreases entries.len() - i,
    {
        if same_text(entries[i].name.as_str(), name) {
            assert(first_named(s, name@, i as int));
            return match &entries[i].kind {
                EntryKind::Port { port } => Ok(*port),
                other => Err(RegistryError::KindMismatch { kind: other.copied() }),
            };
        }
        i = i + 1;
    }
    Err(RegistryError::NotFound)
}

/// Whether some entry is called `name`.
pub fn name_taken(name: &str, entries: &Vec<Entry>) -> (r: bool)
    ensures
        r == has_name(models(entries@), name@),
{
    let mut i: usize = 0;
    while i < entries.len()
        invariant
            i <= entries@.len(),
            forall|j: int| 0 <= j < i ==> entries@[j].name@ != name@,
        decreases entries.len() - i,
    {
        if same_text(entries[i].name.as_str(), name) {
            assert(models(entries@)[i as int].name == name@);
            return true;
        }
        i = i + 1;
    }
    assert forall|j: int| 0 <= j < models(entries@).len() implies #[trigger] models(
        entries@,
    )[j].name != name@ by {
        assert(models(entries@)[j] == entries@[j]@);
    }
    false
}

/// The port that a new port entry called `name` gets, or a conflict where an
/// item of that name already exists.
pub fn link_port(name: &str, entries: &Vec<Entry>) -> (r: Result<i32, RegistryError>)
    requires
        entries@.len() <= i32::MAX - BASE_PORT,
    ensures
        match r {
            Ok(p) => !has_name(models(entries@), name@) && is_next_port(models(entries@), p),
            Err(e) => has_name(models(entries@), name@) && e == RegistryError::Conflict,
        },
{
    if name_taken(name, entries) {
        Err(RegistryError::Conflict)
    } else {
        Ok(next_port(entries))
    }
}

/// Whether removing an item of the given type (`None`: no such item) deletes
/// it: links and files are deleted, directories refused, other objects left.
pub fn unlink_action(object: Option<ObjectType>) -> (r: Result<bool, RegistryError>)
    ensures
        r == match object {
            None => Err(RegistryError::NotFound),
            Some(ObjectType::Symlink) => Ok(true),
            Some(ObjectType::File) => Ok(true),
            Some(ObjectType::Directory) => Err(RegistryError::Refused),
            Some(ObjectType::Other) => Ok::<bool, RegistryError>(false),
        },
{
    match object {
        None => Err(RegistryError::NotFound),
        Some(ObjectType::Symlink) => Ok(true),
        Some(ObjectType::File) => Ok(true),
        Some(ObjectType::Directory) => Err(RegistryError::Refused),
        Some(ObjectType::Other) => Ok(false),
    }
}

/// The path of `name` inside `dir`.
pub fn join_path(dir: &str, name: &str) -> (r: String)
    ensures
        r@ == path_join(dir@, name@),
{
    let n = dir.unicode_len();
    if n == 0 {
        return name.to_string();
    }
    let mut r = dir.to_string();
    if dir.get_char(n - 1) != '/' {
        r.append("/");
        proof {
            reveal_strlit("/");
        }
    }
    r.append(name);
    r
}

/// The registry directory under the home directory `home`.
pub fn registry_dir(home: &str) -> (r: String)
    ensures
        r@ == path_join(home@, ".puma-dev"@),
{
    join_path(home, ".puma-dev")
}

/// The name asked for, or else the current directory's name.
pub open spec fn chosen_name(asked: Option<String>, current: Option<String>) -> Option<Seq<char>> {
    match asked {
        Some(n) => Some(n@),
        None => match current {
            Some(c) => Some(c@),
            None => None,
        },
    }
}

/// The name of the entry to act on and its path in the registry directory
/// `registry`: the name asked for, or else the current directory's name.
pub fn app_entry_path(registry: &str, option_app_name: Option<String>, current_name: Option<String>) -> (r: Option<(String, String)>)
    ensures
        match r {
            Some((n, p)) => chosen_name(option_app_name, current_name) == Some(n@) && p@
                == path_join(registry@, n@),
            None => chosen_name(option_app_name, current_name) is None,
        },
{
    let app_name = match option_app_name {
        Some(n) => n,
        None => match current_name {
            Some(c) => c,
            None => {
                return None;
            },
        },
    };
    let path = join_path(registry, app_name.as_str());
    Some((app_name, path))
}

} // verus!
