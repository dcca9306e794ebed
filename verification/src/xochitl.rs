//! The notebook-folder guard: from xochitl's metadata, is the notebook the
//! writer has open inside the folder the diary may animate?
//!
//! Reading the metadata files (one JSON document per item, named by its id)
//! stays with the caller, which hands the library one `Entry` per file.

use vstd::prelude::*;
use crate::text::{from_chars, parse_unsigned, parse_unsigned_exec, str_eq, to_chars, trim, trim_vec};

verus! {

/// One item of xochitl's library: a document or a folder ("collection").
#[derive(Debug, Clone)]
pub struct Entry {
    pub id: String,
    pub parent: String,
    pub type_: String,
    pub visible_name: String,
    pub last_opened: Option<u128>,
    pub last_modified: Option<u128>,
}

pub struct EntryModel {
    pub id: Seq<char>,
    pub parent: Seq<char>,
    pub kind: Seq<char>,
    pub name: Seq<char>,
    pub last_opened: Option<u128>,
    pub last_modified: Option<u128>,
}

impl View for Entry {
    type V = EntryModel;

    open spec fn view(&self) -> EntryModel {
        EntryModel {
            id: self.id@,
            parent: self.parent@,
            kind: self.type_@,
            name: self.visible_name@,
            last_opened: self.last_opened,
            last_modified: self.last_modified,
        }
    }
}

/// A metadata timestamp as `str::parse::<u128>` reads it, absent on error.
pub open spec fn timestamp(s: Seq<char>) -> Option<u128> {
    match parse_unsigned(s, u128::MAX as nat) {
        Some(v) => Some(v as u128),
        None => None,
    }
}

/// The later of the two timestamps that are present, or 0. Freshly created
/// notebooks carry `lastOpened = 0` until xochitl stamps them while their
/// `lastModified` is current, so recency has to consider both.
pub open spec fn recency(e: EntryModel) -> u128 {
    match (e.last_opened, e.last_modified) {
        (Some(a), Some(b)) => if a >= b {
            a
        } else {
            b
        },
        (Some(a), None) => a,
        (None, Some(b)) => b,
        (None, None) => 0,
    }
}

fn parse_timestamp(s: Option<String>) -> (r: Option<u128>)
    ensures
        r == (match s {
            Some(t) => timestamp(t@),
            None => None::<u128>,
        }),
{
    match s {
        Some(t) => {
            let v = to_chars(t.as_str());
            match parse_unsigned_exec(&v, u128::MAX) {
                Some(x) => Some(x),
                None => None,
            }
        },
        None => None,
    }
}

impl Entry {
    /// The entry for the metadata file of item `id`; timestamps that do not
    /// read as numbers count as absent.
    pub fn from_metadata(
        id: String,
        parent: String,
        type_: String,
        visible_name: String,
        last_opened: Option<String>,
        last_modified: Option<String>,
    ) -> (e: Entry)
        ensures
            e.id == id,
            e.parent == parent,
            e.type_ == type_,
            e.visible_name == visible_name,
            e.last_opened == (match last_opened {
                Some(t) => timestamp(t@),
                None => None::<u128>,
            }),
            e.last_modified == (match last_modified {
                Some(t) => timestamp(t@),
                None => None::<u128>,
            }),
    {
        let lo = parse_timestamp(last_opened);
        let lm = parse_timestamp(last_modified);
        Entry { id, parent, type_, visible_name, last_opened: lo, last_modified: lm }
    }

    pub fn recency(&self) -> (r: u128)
        ensures
            r == recency(self@),
    {
        match (self.last_opened, self.last_modified) {
            (Some(a), Some(b)) => if a >= b {
                a
            } else {
                b
            },
            (Some(a), None) => a,
            (None, Some(b)) => b,
            (None, None) => 0,
        }
    }
}

/// The first index at or after `i` of an entry with this id.
pub open spec fn find_id(es: Seq<EntryModel>, id: Seq<char>, i: int) -> Option<int>
    decreases es.len() - i,
{
    if i < 0 || i >= es.len() {
        None
    } else if es[i].id == id {
        Some(i)
    } else {
        find_id(es, id, i + 1)
    }
}

/// The entry with this id.
pub open spec fn entry_of(es: Seq<EntryModel>, id: Seq<char>) -> Option<EntryModel> {
    match find_id(es, id, 0) {
        Some(i) => Some(es[i]),
        None => None,
    }
}

/// No two entries share an id.
pub open spec fn ids_distinct(es: Seq<EntryModel>) -> bool {
    forall|i: int, j: int| 0 <= i < es.len() && 0 <= j < es.len() && i != j ==> es[i].id != es[j].id
}

/// Following parents from `p` as the trash check does, an empty parent,
/// the trash or an unknown id is reached within `fuel` steps.
pub open spec fn trash_walk_ends(es: Seq<EntryModel>, p: Seq<char>, fuel: nat) -> bool
    decreases fuel,
{
    p.len() == 0 || p == "trash"@ || entry_of(es, p) is None || (fuel > 0 && trash_walk_ends(
        es,
        entry_of(es, p)->0.parent,
        (fuel - 1) as nat,
    ))
}

/// Following parents from `p` as the ancestor check does, an empty parent,
/// the trash, an allowed folder or an unknown id is reached within `fuel`
/// steps.
pub open spec fn ancestor_walk_ends(
    es: Seq<EntryModel>,
    p: Seq<char>,
    allowed: Set<Seq<char>>,
    fuel: nat,
) -> bool
    decreases fuel,
{
    p.len() == 0 || p == "trash"@ || allowed.contains(p) || entry_of(es, p) is None || (fuel > 0
        && ancestor_walk_ends(es, entry_of(es, p)->0.parent, allowed, (fuel - 1) as nat))
}

/// The trash check of every document ends within as many steps as there
/// are entries: no document hangs below a cycle of folders.
pub open spec fn documents_walks_end(es: Seq<EntryModel>) -> bool {
    forall|i: int|
        0 <= i < es.len() && es[i].kind == "DocumentType"@ ==> trash_walk_ends(
            es,
            #[trigger] es[i].parent,
            es.len(),
        )
}

/// Whether the chain of parents from `p` reaches the trash.
pub open spec fn trashed(es: Seq<EntryModel>, p: Seq<char>, fuel: nat) -> bool
    decreases fuel,
{
    if p.len() == 0 {
        false
    } else if p == "trash"@ {
        true
    } else {
        match entry_of(es, p) {
            None => false,
            Some(e) => fuel > 0 && trashed(es, e.parent, (fuel - 1) as nat),
        }
    }
}

/// The ids held by a list, as a set.
pub open spec fn id_set(v: Seq<String>) -> Set<Seq<char>> {
    Set::new(|x: Seq<char>| exists|i: int| 0 <= i < v.len() && #[trigger] v[i]@ == x)
}

/// Whether the chain of parents from `p` meets one of the `allowed` folders
/// before the root or the trash.
pub open spec fn under(es: Seq<EntryModel>, p: Seq<char>, allowed: Set<Seq<char>>, fuel: nat) -> bool
    decreases fuel,
{
    if p.len() == 0 || p == "trash"@ {
        false
    } else if allowed.contains(p) {
        true
    } else {
        match entry_of(es, p) {
            None => false,
            Some(e) => fuel > 0 && under(es, e.parent, allowed, (fuel - 1) as nat),
        }
    }
}

} // verus!

verus! {

/// An absent result means no entry from `i` on carries the id.
pub proof fn lemma_find_id_none(es: Seq<EntryModel>, id: Seq<char>, i: int)
    requires
        0 <= i,
        find_id(es, id, i) is None,
    ensures
        forall|j: int| i <= j < es.len() ==> es[j].id != id,
    decreases es.len() - i,
{
    if i < es.len() {
        lemma_find_id_none(es, id, i + 1);
    }
}

/// A found index carries the id, and none before it from `i` on does.
pub proof fn lemma_find_id_some(es: Seq<EntryModel>, id: Seq<char>, i: int, k: int)
    requires
        0 <= i,
        find_id(es, id, i) == Some(k),
    ensures
        i <= k < es.len(),
        es[k].id == id,
        forall|j: int| i <= j < k ==> es[j].id != id,
    decreases es.len() - i,
{
    if i < es.len() && es[i].id != id {
        lemma_find_id_some(es, id, i + 1, k);
    }
}

/// The library as xochitl's insert builds it: an entry replaces the one
/// with the same id, or joins at the end.
pub open spec fn catalog_insert(es: Seq<EntryModel>, e: EntryModel) -> Seq<EntryModel> {
    match find_id(es, e.id, 0) {
        Some(i) => es.update(i, e),
        None => es.push(e),
    }
}

pub open spec fn entries_view(v: Seq<Entry>) -> Seq<EntryModel> {
    v.map_values(|e: Entry| e@)
}

/// xochitl's library of items, at most one per id.
pub struct Catalog {
    entries: Vec<Entry>,
}

impl Catalog {
    #[verifier::type_invariant]
    spec fn one_per_id(self) -> bool {
        ids_distinct(entries_view(self.entries@))
    }

    /// The items, in insertion order.
    pub closed spec fn items(self) -> Seq<EntryModel> {
        entries_view(self.entries@)
    }

    pub fn new() -> (c: Self)
        ensures
            c.items() == Seq::<EntryModel>::empty(),
            ids_distinct(c.items()),
    {
        let c = Catalog { entries: Vec::new() };
        assert(c.items() =~= Seq::<EntryModel>::empty());
        c
    }

    pub fn len(&self) -> (n: usize)
        ensures
            n == self.items().len(),
    {
        self.entries.len()
    }

    /// Index of the item with this id.
    fn position(&self, id: &str) -> (r: Option<usize>)
        ensures
            match r {
                Some(k) => find_id(self.items(), id@, 0) == Some(k as int),
                None => find_id(self.items(), id@, 0) is None,
            },
    {
        let n = self.entries.len();
        let mut j: usize = 0;
        while j < n
            invariant
                j <= n,
                n == self.items().len(),
                find_id(self.items(), id@, 0) == find_id(self.items(), id@, j as int),
            decreases n - j,
        {
            if str_eq(self.entries[j].id.as_str(), id) {
                return Some(j);
            }
            j = j + 1;
        }
        None
    }

    /// Adds an item, replacing the one with the same id.
    pub fn insert(&mut self, e: Entry)
        ensures
            final(self).items() == catalog_insert(old(self).items(), e@),
            ids_distinct(final(self).items()),
    {
        proof {
            use_type_invariant(&*self);
        }
        let ghost es = self.items();
        let pos = self.position(e.id.as_str());
        let mut held: Vec<Entry> = Vec::new();
        std::mem::swap(&mut held, &mut self.entries);
        assert(entries_view(held@) == es);
        match pos {
            Some(k) => {
                proof {
                    lemma_find_id_some(es, e@.id, 0, k as int);
                    let es2 = es.update(k as int, e@);
                    assert forall|i: int, j: int|
                        0 <= i < es2.len() && 0 <= j < es2.len() && i != j implies es2[i].id
                        != es2[j].id by {
                        if i == k {
                            assert(es2[i].id == es[k as int].id);
                        }
                        if j == k {
                            assert(es2[j].id == es[k as int].id);
                        }
                    }
                    assert(entries_view(held@.update(k as int, e)) =~= es2);
                }
                held.set(k, e);
            },
            None => {
                proof {
                    lemma_find_id_none(es, e@.id, 0);
                    let es2 = es.push(e@);
                    assert forall|i: int, j: int|
                        0 <= i < es2.len() && 0 <= j < es2.len() && i != j implies es2[i].id
                        != es2[j].id by {
                        if i < es.len() && j < es.len() {
                            assert(es2[i] == es[i] && es2[j] == es[j]);
                        }
                    }
                    assert(entries_view(held@.push(e)) =~= es2);
                }
                held.push(e);
            },
        }
        self.entries = held;
        assert(self.items() =~= catalog_insert(es, e@));
    }

    /// The item with this id.
    pub fn get(&self, id: &str) -> (r: Option<&Entry>)
        ensures
            match r {
                Some(e) => entry_of(self.items(), id@) == Some(e@),
                None => entry_of(self.items(), id@) is None,
            },
    {
        match self.position(id) {
            Some(k) => {
                proof {
                    lemma_find_id_some(self.items(), id@, 0, k as int);
                }
                Some(&self.entries[k])
            },
            None => None,
        }
    }

    /// Whether the trash check's walk of parents from `p` ends within
    /// `fuel` steps.
    fn trash_walk_ends_exec(&self, p: &String, fuel: usize) -> (r: bool)
        ensures
            r == trash_walk_ends(self.items(), p@, fuel as nat),
    {
        let mut cur: String = p.clone();
        let mut f: usize = fuel;
        loop
            invariant
                trash_walk_ends(self.items(), p@, fuel as nat) == trash_walk_ends(
                    self.items(),
                    cur@,
                    f as nat,
                ),
            decreases f,
        {
            if cur.as_str().is_empty() || str_eq(cur.as_str(), "trash") {
                return true;
            }
            match self.get(cur.as_str()) {
                None => {
                    return true;
                },
                Some(e) => {
                    if f == 0 {
                        return false;
                    }
                    cur = e.parent.clone();
                    f = f - 1;
                },
            }
        }
    }

    /// Whether the trash check ends for every document, so that looking
    /// for the open notebook terminates.
    pub fn documents_walk_end(&self) -> (r: bool)
        ensures
            r == documents_walks_end(self.items()),
    {
        let ghost es = self.items();
        let n = self.entries.len();
        let mut i: usize = 0;
        while i < n
            invariant
                i <= n,
                n == es.len(),
                es == self.items(),
                forall|q: int|
                    0 <= q < i && es[q].kind == "DocumentType"@ ==> trash_walk_ends(
                        es,
                        #[trigger] es[q].parent,
                        n as nat,
                    ),
            decreases n - i,
        {
            let e = &self.entries[i];
            assert(es[i as int] == e@);
            if str_eq(e.type_.as_str(), "DocumentType") && !self.trash_walk_ends_exec(&e.parent, n) {
                assert(es[i as int].kind == "DocumentType"@ && !trash_walk_ends(
                    es,
                    es[i as int].parent,
                    es.len(),
                ));
                return false;
            }
            i = i + 1;
        }
        true
    }

    /// Whether the entry sits in the trash, directly or through its folders.
    pub fn is_trashed(&self, entry: &Entry) -> (r: bool)
        requires
            trash_walk_ends(self.items(), entry.parent@, self.items().len()),
        ensures
            r == trashed(self.items(), entry.parent@, self.items().len()),
    {
        let n = self.entries.len();
        let mut cur: String = entry.parent.clone();
        let ghost mut fuel: nat = n as nat;
        loop
            invariant
                trash_walk_ends(self.items(), cur@, fuel),
                trashed(self.items(), entry.parent@, n as nat) == trashed(self.items(), cur@, fuel),
                n == self.items().len(),
            decreases fuel,
        {
            if cur.as_str().is_empty() {
                return false;
            }
            if str_eq(cur.as_str(), "trash") {
                return true;
            }
            match self.get(cur.as_str()) {
                None => {
                    return false;
                },
                Some(e) => {
                    cur = e.parent.clone();
                    proof {
                        fuel = (fuel - 1) as nat;
                    }
                },
            }
        }
    }

    /// Whether a folder of `allowed` is among the document's ancestors,
    /// before the root or the trash is reached.
    pub fn has_ancestor(&self, document: &Entry, allowed: &Vec<String>) -> (r: bool)
        requires
            ancestor_walk_ends(
                self.items(),
                document.parent@,
                id_set(allowed@),
                self.items().len(),
            ),
        ensures
            r == under(self.items(), document.parent@, id_set(allowed@), self.items().len()),
    {
        let n = self.entries.len();
        let mut cur: String = document.parent.clone();
        let ghost mut fuel: nat = n as nat;
        loop
            invariant
                ancestor_walk_ends(self.items(), cur@, id_set(allowed@), fuel),
                under(self.items(), document.parent@, id_set(allowed@), n as nat) == under(
                    self.items(),
                    cur@,
                    id_set(allowed@),
                    fuel,
                ),
                n == self.items().len(),
            decreases fuel,
        {
            if cur.as_str().is_empty() || str_eq(cur.as_str(), "trash") {
                return false;
            }
            if contains_id(allowed, cur.as_str()) {
                return true;
            }
            match self.get(cur.as_str()) {
                None => {
                    return false;
                },
                Some(e) => {
                    cur = e.parent.clone();
                    proof {
                        fuel = (fuel - 1) as nat;
                    }
                },
            }
        }
    }
}

/// Whether the list holds this id.
pub fn contains_id(ids: &Vec<String>, id: &str) -> (r: bool)
    ensures
        r == id_set(ids@).contains(id@),
{
    let n = ids.len();
    let mut i: usize = 0;
    while i < n
        invariant
            i <= n,
            n == ids@.len(),
            forall|q: int| 0 <= q < i ==> ids@[q]@ != id@,
        decreases n - i,
    {
        if str_eq(ids[i].as_str(), id) {
            assert(ids@[i as int]@ == id@);
            return true;
        }
        i = i + 1;
    }
    false
}

} // verus!

verus! {

/// The pieces of `s` between slashes (one more than there are slashes).
pub open spec fn segments(s: Seq<char>) -> Seq<Seq<char>>
    decreases s.len(),
{
    if s.len() == 0 {
        seq![Seq::empty()]
    } else {
        let segs = segments(s.drop_last());
        if s.last() == '/' {
            segs.push(Seq::empty())
        } else {
            segs.update(segs.len() - 1, segs.last().push(s.last()))
        }
    }
}

/// The trimmed, non-blank pieces.
pub open spec fn keep_parts(segs: Seq<Seq<char>>) -> Seq<Seq<char>>
    decreases segs.len(),
{
    if segs.len() == 0 {
        Seq::empty()
    } else if trim(segs.last()).len() > 0 {
        keep_parts(segs.drop_last()).push(trim(segs.last()))
    } else {
        keep_parts(segs.drop_last())
    }
}

/// The folder names of a slash-separated path, trimmed, blanks skipped.
pub open spec fn path_parts(path: Seq<char>) -> Seq<Seq<char>> {
    keep_parts(segments(path))
}

pub proof fn lemma_segments_nonempty(s: Seq<char>)
    ensures
        segments(s).len() >= 1,
    decreases s.len(),
{
    if s.len() > 0 {
        lemma_segments_nonempty(s.drop_last());
    }
}

/// The folders named `part` whose parent is among `parents`.
pub open spec fn folder_matches(es: Seq<EntryModel>, parents: Set<Seq<char>>, part: Seq<char>) -> Set<
    Seq<char>,
> {
    Set::new(
        |id: Seq<char>|
            exists|i: int|
                0 <= i < es.len() && #[trigger] es[i].id == id && es[i].kind == "CollectionType"@
                    && es[i].name == part && parents.contains(es[i].parent),
    )
}

/// Descends the folder names from `parents`: the folders the path names,
/// or none when some step finds no folder.
pub open spec fn resolve_from(es: Seq<EntryModel>, parts: Seq<Seq<char>>, parents: Set<Seq<char>>) -> Set<
    Seq<char>,
>
    decreases parts.len(),
{
    if parts.len() == 0 {
        parents
    } else {
        let m = folder_matches(es, parents, parts[0]);
        if m == Set::<Seq<char>>::empty() {
            Set::empty()
        } else {
            resolve_from(es, parts.drop_first(), m)
        }
    }
}

/// The ids of the folders a path names from the root (the root's id is empty).
pub open spec fn resolve_folder(es: Seq<EntryModel>, path: Seq<char>) -> Set<Seq<char>> {
    resolve_from(es, path_parts(path), set![Seq::<char>::empty()])
}

/// The trimmed non-blank parts of a path.
fn path_parts_exec(path: &str) -> (parts: Vec<Vec<char>>)
    ensures
        parts@.map_values(|p: Vec<char>| p@) == path_parts(path@),
{
    let v = to_chars(path);
    let n = v.len();
    let mut parts: Vec<Vec<char>> = Vec::new();
    let mut cur: Vec<char> = Vec::new();
    let ghost mut done: Seq<Seq<char>> = Seq::empty();
    let mut i: usize = 0;
    assert(v@.take(0) =~= Seq::<char>::empty());
    assert(segments(Seq::<char>::empty()) == done.push(cur@));
    while i < n
        invariant
            i <= n,
            n == v@.len(),
            segments(v@.take(i as int)) == done.push(cur@),
            keep_parts(done) == parts@.map_values(|p: Vec<char>| p@),
        decreases n - i,
    {
        let c = v[i];
        let ghost s = v@.take(i + 1);
        assert(s.drop_last() =~= v@.take(i as int));
        assert(s.last() == c);
        if c == '/' {
            let t = trim_vec(&cur);
            let ghost before = parts@.map_values(|p: Vec<char>| p@);
            proof {
                let d2 = done.push(cur@);
                assert(d2.drop_last() =~= done);
                assert(d2.last() == cur@);
            }
            if t.len() > 0 {
                parts.push(t);
                assert(parts@.map_values(|p: Vec<char>| p@) =~= before.push(trim(cur@)));
            }
            proof {
                done = done.push(cur@);
            }
            cur = Vec::new();
            assert(segments(s) =~= done.push(cur@));
        } else {
            let ghost old_cur = cur@;
            cur.push(c);
            assert(segments(s) =~= done.push(cur@));
        }
        i = i + 1;
    }
    assert(v@.take(n as int) =~= v@);
    let t = trim_vec(&cur);
    let ghost before = parts@.map_values(|p: Vec<char>| p@);
    proof {
        let d2 = done.push(cur@);
        assert(d2.drop_last() =~= done);
        assert(d2.last() == cur@);
    }
    if t.len() > 0 {
        parts.push(t);
        assert(parts@.map_values(|p: Vec<char>| p@) =~= before.push(trim(cur@)));
    }
    parts
}

impl Catalog {
    /// The ids of the folders with this name whose parent is in `parents`.
    fn folders_named(&self, parents: &Vec<String>, part: &Vec<char>) -> (m: Vec<String>)
        ensures
            id_set(m@) == folder_matches(self.items(), id_set(parents@), part@),
    {
        let ghost es = self.items();
        let n = self.entries.len();
        let mut m: Vec<String> = Vec::new();
        let name = from_chars(part);
        let mut j: usize = 0;
        while j < n
            invariant
                j <= n,
                n == es.len(),
                es == self.items(),
                name@ == part@,
                forall|x: Seq<char>|
                    id_set(m@).contains(x) <==> (exists|i: int|
                        0 <= i < j && #[trigger] es[i].id == x && es[i].kind == "CollectionType"@
                            && es[i].name == part@ && id_set(parents@).contains(es[i].parent)),
            decreases n - j,
        {
            let e = &self.entries[j];
            assert(es[j as int] == e@);
            let ghost before = m@;
            if str_eq(e.type_.as_str(), "CollectionType") && str_eq(
                e.visible_name.as_str(),
                name.as_str(),
            ) && contains_id(parents, e.parent.as_str()) {
                m.push(e.id.clone());
                proof {
                    assert forall|x: Seq<char>| id_set(m@).contains(x) <==> (exists|i: int|
                        0 <= i < j + 1 && #[trigger] es[i].id == x && es[i].kind
                            == "CollectionType"@ && es[i].name == part@ && id_set(
                            parents@,
                        ).contains(es[i].parent)) by {
                        if id_set(m@).contains(x) {
                            let q = choose|q: int| 0 <= q < m@.len() && #[trigger] m@[q]@ == x;
                            if q < before.len() {
                                assert(before[q]@ == x);
                                assert(id_set(before).contains(x));
                            } else {
                                assert(es[j as int].id == x);
                            }
                        }
                        if exists|i: int|
                            0 <= i < j + 1 && #[trigger] es[i].id == x && es[i].kind
                                == "CollectionType"@ && es[i].name == part@ && id_set(
                                parents@,
                            ).contains(es[i].parent) {
                            let i = choose|i: int|
                                0 <= i < j + 1 && #[trigger] es[i].id == x && es[i].kind
                                    == "CollectionType"@ && es[i].name == part@ && id_set(
                                    parents@,
                                ).contains(es[i].parent);
                            if i < j {
                                assert(id_set(before).contains(x));
                                let q = choose|q: int| 0 <= q < before.len() && #[trigger] before[q]@ == x;
                                assert(m@[q] == before[q]);
                            } else {
                                assert(m@[before.len() as int]@ == x);
                            }
                        }
                    }
                }
            } else {
                proof {
                    assert forall|x: Seq<char>| id_set(m@).contains(x) <==> (exists|i: int|
                        0 <= i < j + 1 && #[trigger] es[i].id == x && es[i].kind
                            == "CollectionType"@ && es[i].name == part@ && id_set(
                            parents@,
                        ).contains(es[i].parent)) by {
                        if exists|i: int|
                            0 <= i < j + 1 && #[trigger] es[i].id == x && es[i].kind
                                == "CollectionType"@ && es[i].name == part@ && id_set(
                                parents@,
                            ).contains(es[i].parent) {
                            let i = choose|i: int|
                                0 <= i < j + 1 && #[trigger] es[i].id == x && es[i].kind
                                    == "CollectionType"@ && es[i].name == part@ && id_set(
                                    parents@,
                                ).contains(es[i].parent);
                            assert(i < j);
                        }
                    }
                }
            }
            j = j + 1;
        }
        assert(id_set(m@) =~= folder_matches(es, id_set(parents@), part@));
        m
    }

    /// The ids of the folders the slash-separated path names from the root;
    /// empty when some name finds no folder.
    pub fn resolve_folder_path(&self, path: &str) -> (ids: Vec<String>)
        ensures
            id_set(ids@) == resolve_folder(self.items(), path@),
    {
        let parts = path_parts_exec(path);
        let ghost ps = parts@.map_values(|p: Vec<char>| p@);
        let mut parents: Vec<String> = Vec::new();
        parents.push(String::new());
        assert(id_set(parents@) =~= set![Seq::<char>::empty()]) by {
            assert(parents@[0]@ == Seq::<char>::empty());
        }
        let n = parts.len();
        let mut k: usize = 0;
        assert(ps.skip(0) =~= ps);
        while k < n
            invariant
                k <= n,
                n == ps.len(),
                ps == parts@.map_values(|p: Vec<char>| p@),
                resolve_folder(self.items(), path@) == resolve_from(
                    self.items(),
                    ps.skip(k as int),
                    id_set(parents@),
                ),
            decreases n - k,
        {
            let m = self.folders_named(&parents, &parts[k]);
            assert(ps.skip(k as int)[0] == parts@[k as int]@);
            assert(ps.skip(k as int).drop_first() =~= ps.skip(k + 1));
            if m.len() == 0 {
                assert(id_set(m@) =~= Set::<Seq<char>>::empty());
                let none: Vec<String> = Vec::new();
                assert(id_set(none@) =~= Set::<Seq<char>>::empty());
                return none;
            }
            assert(id_set(m@).contains(m@[0]@));
            parents = m;
            k = k + 1;
        }
        assert(ps.skip(n as int) =~= Seq::<Seq<char>>::empty());
        parents
    }
}

} // verus!

verus! {

/// Item `i` may be the open notebook: a document, not in the trash, that
/// has been opened or modified.
pub open spec fn is_candidate(es: Seq<EntryModel>, i: int) -> bool {
    0 <= i < es.len() && es[i].kind == "DocumentType"@ && !trashed(es, es[i].parent, es.len())
        && recency(es[i]) > 0
}

/// Item `i` is a most recent candidate.
pub open spec fn is_most_recent(es: Seq<EntryModel>, i: int) -> bool {
    is_candidate(es, i) && forall|j: int| is_candidate(es, j) ==> recency(es[j]) <= recency(es[i])
}

/// The guard's answer once the folders and the open document are known.
pub open spec fn folder_allows(
    es: Seq<EntryModel>,
    allowed: Set<Seq<char>>,
    allow_subfolders: bool,
    doc: EntryModel,
) -> bool {
    if allow_subfolders {
        under(es, doc.parent, allowed, es.len())
    } else {
        allowed.contains(doc.parent)
    }
}

impl Catalog {
    /// The open notebook: the most recently opened or modified document
    /// outside the trash. Among documents equally recent, which one is
    /// returned is left open.
    pub fn active_document(&self) -> (r: Option<&Entry>)
        requires
            documents_walks_end(self.items()),
        ensures
            r is None <==> (forall|i: int| !is_candidate(self.items(), i)),
            r matches Some(e) ==> exists|i: int|
                is_most_recent(self.items(), i) && #[trigger] self.items()[i] == e@,
    {
        let ghost es = self.items();
        let n = self.entries.len();
        let mut best: Option<usize> = None;
        let mut j: usize = 0;
        while j < n
            invariant
                j <= n,
                n == es.len(),
                es == self.items(),
                documents_walks_end(es),
                match best {
                    None => forall|i: int| 0 <= i < j ==> !is_candidate(es, i),
                    Some(b) => b < j && is_candidate(es, b as int) && forall|i: int|
                        0 <= i < j && is_candidate(es, i) ==> recency(es[i]) <= recency(
                            es[b as int],
                        ),
                },
            decreases n - j,
        {
            let e = &self.entries[j];
            assert(es[j as int] == e@);
            let is_doc = str_eq(e.type_.as_str(), "DocumentType");
            if is_doc {
                assert(trash_walk_ends(es, es[j as int].parent, es.len()));
            }
            if is_doc && !self.is_trashed(e) && e.recency() > 0 {
                match best {
                    None => {
                        best = Some(j);
                    },
                    Some(b) => {
                        if e.recency() >= self.entries[b].recency() {
                            assert(es[b as int] == self.entries@[b as int]@);
                            best = Some(j);
                        }
                    },
                }
            }
            j = j + 1;
        }
        match best {
            None => None,
            Some(b) => {
                assert(es[b as int] == self.entries@[b as int]@);
                Some(&self.entries[b])
            },
        }
    }
}

/// A parent chain that ends as the trash check walks it, and does not
/// reach the trash, also ends as the ancestor check walks it.
proof fn lemma_untrashed_walk_meets(
    es: Seq<EntryModel>,
    p: Seq<char>,
    allowed: Set<Seq<char>>,
    fuel: nat,
)
    requires
        trash_walk_ends(es, p, fuel),
        !trashed(es, p, fuel),
    ensures
        ancestor_walk_ends(es, p, allowed, fuel),
    decreases fuel,
{
    if p.len() > 0 && p != "trash"@ && !allowed.contains(p) && entry_of(es, p) is Some {
        lemma_untrashed_walk_meets(es, entry_of(es, p)->0.parent, allowed, (fuel - 1) as nat);
    }
}

/// Whether the guard lets the diary animate the open notebook.
///
/// An empty (or blank) `allowed_folder` disables the guard. Otherwise the
/// folder path must name existing folders, some document must be open, and
/// it must sit directly in one of those folders, or anywhere below one when
/// `allow_subfolders` is set.
pub fn active_notebook_allowed(catalog: &Catalog, allowed_folder: &str, allow_subfolders: bool) -> (r:
    bool)
    requires
        trim(allowed_folder@).len() > 0 && resolve_folder(catalog.items(), trim(allowed_folder@))
            != Set::<Seq<char>>::empty() ==> documents_walks_end(catalog.items()),
    ensures
        ({
            let es = catalog.items();
            let folder = trim(allowed_folder@);
            let allowed = resolve_folder(es, folder);
            if folder.len() == 0 {
                r
            } else if allowed == Set::<Seq<char>>::empty() {
                !r
            } else if forall|i: int| !is_candidate(es, i) {
                !r
            } else {
                exists|i: int|
                    is_most_recent(es, i) && r == #[trigger] folder_allows(
                        es,
                        allowed,
                        allow_subfolders,
                        es[i],
                    )
            }
        }),
{
    let ghost es = catalog.items();
    let folder_chars = trim_vec(&to_chars(allowed_folder));
    if folder_chars.len() == 0 {
        return true;
    }
    let folder = from_chars(&folder_chars);
    let allowed = catalog.resolve_folder_path(folder.as_str());
    if allowed.len() == 0 {
        assert(id_set(allowed@) =~= Set::<Seq<char>>::empty());
        return false;
    }
    assert(id_set(allowed@).contains(allowed@[0]@));
    let active = match catalog.active_document() {
        Some(d) => d,
        None => {
            return false;
        },
    };
    let ghost i = choose|i: int| is_most_recent(es, i) && #[trigger] es[i] == active@;
    proof {
        lemma_untrashed_walk_meets(es, es[i].parent, id_set(allowed@), es.len());
    }
    let r = if allow_subfolders {
        catalog.has_ancestor(active, &allowed)
    } else {
        contains_id(&allowed, active.parent.as_str())
    };
    assert(r == folder_allows(es, resolve_folder(es, trim(allowed_folder@)), allow_subfolders, es[i]));
    r
}

} // verus!

verus! {

/// The first carrier of an id is what `find_id` finds.
pub proof fn lemma_find_id_first(es: Seq<EntryModel>, id: Seq<char>, i: int, k: int)
    requires
        0 <= i <= k < es.len(),
        es[k].id == id,
        forall|j: int| i <= j < k ==> es[j].id != id,
    ensures
        find_id(es, id, i) == Some(k),
    decreases k - i,
{
    if i < k {
        lemma_find_id_first(es, id, i + 1, k);
    }
}

/// An id nobody carries is not found.
pub proof fn lemma_find_id_absent(es: Seq<EntryModel>, id: Seq<char>, i: int)
    requires
        0 <= i,
        forall|j: int| i <= j < es.len() ==> es[j].id != id,
    ensures
        find_id(es, id, i) is None,
    decreases es.len() - i,
{
    if i < es.len() {
        lemma_find_id_absent(es, id, i + 1);
    }
}

/// Law: after inserting an item, looking up its id gives that item, and
/// every other id gives what it gave before.
pub proof fn law_get_after_insert(es: Seq<EntryModel>, e: EntryModel, other: Seq<char>)
    requires
        ids_distinct(es),
    ensures
        entry_of(catalog_insert(es, e), e.id) == Some(e),
        other != e.id ==> entry_of(catalog_insert(es, e), other) == entry_of(es, other),
{
    let es2 = catalog_insert(es, e);
    match find_id(es, e.id, 0) {
        Some(k) => {
            lemma_find_id_some(es, e.id, 0, k);
            lemma_find_id_first(es2, e.id, 0, k);
            if other != e.id {
                match find_id(es, other, 0) {
                    Some(m) => {
                        lemma_find_id_some(es, other, 0, m);
                        lemma_find_id_first(es2, other, 0, m);
                    },
                    None => {
                        lemma_find_id_none(es, other, 0);
                        lemma_find_id_absent(es2, other, 0);
                    },
                }
            }
        },
        None => {
            lemma_find_id_none(es, e.id, 0);
            lemma_find_id_first(es2, e.id, 0, es.len() as int);
            if other != e.id {
                match find_id(es, other, 0) {
                    Some(m) => {
                        lemma_find_id_some(es, other, 0, m);
                        lemma_find_id_first(es2, other, 0, m);
                    },
                    None => {
                        lemma_find_id_none(es, other, 0);
                        lemma_find_id_absent(es2, other, 0);
                    },
                }
            }
        },
    }
}

/// Law: an item's recency is the later of its two timestamps: no present
/// timestamp is later than it, it is one of them when any is present, and it
/// is 0 when neither is.
pub proof fn law_recency_is_latest(e: EntryModel)
    ensures
        e.last_opened matches Some(a) ==> a <= recency(e),
        e.last_modified matches Some(b) ==> b <= recency(e),
        (e.last_opened is Some || e.last_modified is Some) ==> (e.last_opened == Some(recency(e))
            || e.last_modified == Some(recency(e))),
        (e.last_opened is None && e.last_modified is None) ==> recency(e) == 0,
{
}

/// Law: a document in the trash, directly or through its folders, is never
/// taken for the open notebook.
pub proof fn law_trashed_never_active(es: Seq<EntryModel>, i: int)
    requires
        0 <= i < es.len(),
        trashed(es, es[i].parent, es.len()),
    ensures
        !is_candidate(es, i),
{
}

/// Law: allowing subfolders never refuses a document that sits directly in
/// an allowed folder, unless that folder is the root or the trash itself.
pub proof fn law_subfolders_include_direct(
    es: Seq<EntryModel>,
    allowed: Set<Seq<char>>,
    doc: EntryModel,
)
    requires
        folder_allows(es, allowed, false, doc),
        doc.parent.len() > 0,
        doc.parent != "trash"@,
    ensures
        folder_allows(es, allowed, true, doc),
{
}

} // verus!
