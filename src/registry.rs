use vstd::prelude::*;
use crate::element::{
    classify, element_source, kind_of, lemma_wrap_round_trip, source_of, template_head,
    template_literal_of, template_tail, ElementKind,
};
use crate::key::{generate_key, key_of};

verus! {

/// The map that a list of (key, source) entries stands for: a later entry for
/// a key replaces an earlier one.
pub open spec fn entries_map(s: Seq<(Seq<char>, Seq<char>)>) -> Map<Seq<char>, Seq<char>>
    decreases s.len(),
{
    if s.len() == 0 {
        Map::empty()
    } else {
        entries_map(s.drop_last()).insert(s.last().0, s.last().1)
    }
}

/// No two entries share a key.
pub open spec fn keys_distinct(s: Seq<(Seq<char>, Seq<char>)>) -> bool {
    forall|i: int, j: int| 0 <= i < j < s.len() ==> #[trigger] s[i].0 != #[trigger] s[j].0
}

/// The registry after the file at relative path `p` with content `content` was
/// offered to it: an element file is added under its key, replacing what that
/// key held; any other file leaves the registry as it was.
pub open spec fn with_file(
    m: Map<Seq<char>, Seq<char>>,
    p: Seq<char>,
    content: Seq<char>,
) -> Map<Seq<char>, Seq<char>> {
    match kind_of(p) {
        Some(kind) => m.insert(key_of(p), source_of(kind, content)),
        None => m,
    }
}

/// The registry built from `files`, (relative path, content) pairs, offered in
/// order.
pub open spec fn registry_of(files: Seq<(Seq<char>, Seq<char>)>) -> Map<Seq<char>, Seq<char>>
    decreases files.len(),
{
    if files.len() == 0 {
        Map::empty()
    } else {
        with_file(registry_of(files.drop_last()), files.last().0, files.last().1)
    }
}

/// The last file wins: in a registry built from `files`, the key of an
/// element file holds that file's source (its content, wrapped if it is
/// markup) whenever no later element file has the same key; an earlier file
/// with the same key is replaced, not merged.
pub proof fn lemma_element_entry(files: Seq<(Seq<char>, Seq<char>)>, i: int)
    requires
        0 <= i < files.len(),
        kind_of(files[i].0) is Some,
        forall|j: int|
            i < j < files.len() && (#[trigger] kind_of(files[j].0)) is Some ==> key_of(files[j].0)
                != key_of(files[i].0),
    ensures
        registry_of(files).contains_key(key_of(files[i].0)),
        registry_of(files)[key_of(files[i].0)] == source_of(
            kind_of(files[i].0)->Some_0,
            files[i].1,
        ),
    decreases files.len(),
{
    if i < files.len() - 1 {
        let d = files.drop_last();
        assert(d[i] == files[i]);
        assert forall|j: int|
            i < j < d.len() && (#[trigger] kind_of(d[j].0)) is Some implies key_of(d[j].0)
                != key_of(d[i].0) by {
            assert(d[j] == files[j]);
        }
        lemma_element_entry(d, i);
        let last = files.len() - 1;
        assert(kind_of(files[last].0) is Some ==> key_of(files[last].0) != key_of(files[i].0));
    }
}

/// A script enters the registry byte for byte: its key holds exactly the
/// file's content, unless a later element file has the same key.
pub proof fn lemma_script_verbatim(files: Seq<(Seq<char>, Seq<char>)>, i: int)
    requires
        0 <= i < files.len(),
        kind_of(files[i].0) == Some(ElementKind::Script),
        forall|j: int|
            i < j < files.len() && (#[trigger] kind_of(files[j].0)) is Some ==> key_of(files[j].0)
                != key_of(files[i].0),
    ensures
        registry_of(files).contains_key(key_of(files[i].0)),
        registry_of(files)[key_of(files[i].0)] == files[i].1,
{
    lemma_element_entry(files, i);
}

/// Markup enters the registry as its template function: its key holds the
/// content spliced verbatim between the template's head and tail, unless a
/// later element file has the same key.
pub proof fn lemma_markup_wrapped(files: Seq<(Seq<char>, Seq<char>)>, i: int)
    requires
        0 <= i < files.len(),
        kind_of(files[i].0) == Some(ElementKind::Markup),
        forall|j: int|
            i < j < files.len() && (#[trigger] kind_of(files[j].0)) is Some ==> key_of(files[j].0)
                != key_of(files[i].0),
    ensures
        registry_of(files).contains_key(key_of(files[i].0)),
        registry_of(files)[key_of(files[i].0)] == template_head() + files[i].1 + template_tail(),
        template_literal_of(registry_of(files)[key_of(files[i].0)]) == Some(files[i].1),
{
    lemma_element_entry(files, i);
    lemma_wrap_round_trip(files[i].1);
}

proof fn lemma_entries_map_dom(s: Seq<(Seq<char>, Seq<char>)>, k: Seq<char>)
    ensures
        entries_map(s).contains_key(k) <==> exists|i: int| 0 <= i < s.len() && s[i].0 == k,
    decreases s.len(),
{
    if s.len() > 0 {
        lemma_entries_map_dom(s.drop_last(), k);
        if entries_map(s.drop_last()).contains_key(k) {
            let i = choose|i: int| 0 <= i < s.drop_last().len() && s.drop_last()[i].0 == k;
            assert(s[i].0 == k);
        }
        if exists|i: int| 0 <= i < s.len() && s[i].0 == k {
            let i = choose|i: int| 0 <= i < s.len() && s[i].0 == k;
            if i < s.len() - 1 {
                assert(s.drop_last()[i].0 == k);
            }
        }
    }
}

proof fn lemma_entries_map_update(s: Seq<(Seq<char>, Seq<char>)>, i: int, v: Seq<char>)
    requires
        0 <= i < s.len(),
        keys_distinct(s),
    ensures
        entries_map(s.update(i, (s[i].0, v))) == entries_map(s).insert(s[i].0, v),
    decreases s.len(),
{
    let k = s[i].0;
    let u = s.update(i, (k, v));
    if i == s.len() - 1 {
        assert(u.drop_last() =~= s.drop_last());
        assert(entries_map(u) =~= entries_map(s).insert(k, v));
    } else {
        let d = s.drop_last();
        assert(u.drop_last() =~= d.update(i, (k, v)));
        lemma_entries_map_update(d, i, v);
        assert(s.last().0 != k);
        assert(entries_map(u) =~= entries_map(s).insert(k, v));
    }
}

/// The element registry: for each key, the source of one element. Keys are
/// unique; the order of the entries is the order in which keys first came.
pub struct ElementRegistry {
    entries: Vec<(String, String)>,
}

impl View for ElementRegistry {
    type V = Map<Seq<char>, Seq<char>>;

    open spec fn view(&self) -> Map<Seq<char>, Seq<char>> {
        entries_map(self.entry_seq())
    }
}

impl ElementRegistry {
    /// The entries, key and source, in the order in which they are held.
    pub closed spec fn entry_seq(&self) -> Seq<(Seq<char>, Seq<char>)> {
        self.entries@.map_values(|e: (String, String)| (e.0@, e.1@))
    }

    /// The registry is well formed: no two entries share a key.
    pub open spec fn wf(&self) -> bool {
        keys_distinct(self.entry_seq())
    }

    /// An empty registry.
    pub fn new() -> (r: ElementRegistry)
        ensures
            r.wf(),
            r@ == Map::<Seq<char>, Seq<char>>::empty(),
            r.entry_seq().len() == 0,
    {
        let r = ElementRegistry { entries: Vec::new() };
        assert(r.entry_seq() =~= Seq::empty());
        r
    }

    /// The number of entries.
    pub fn len(&self) -> (n: usize)
        ensures
            n == self.entry_seq().len(),
    {
        self.entries.len()
    }

    /// The key and source of the entry at `index`.
    pub fn entry(&self, index: usize) -> (r: (&String, &String))
        requires
            index < self.entry_seq().len(),
        ensures
            (r.0@, r.1@) == self.entry_seq()[index as int],
    {
        let e = &self.entries[index];
        (&e.0, &e.1)
    }

    /// The source held under `key`, if any.
    pub fn get(&self, key: &str) -> (r: Option<&String>)
        requires
            self.wf(),
        ensures
            match r {
                Some(s) => self@.contains_key(key@) && self@[key@] == s@,
                None => !self@.contains_key(key@),
            },
    {
        let k = String::from_str(key);
        match self.position(&k) {
            Some(i) => {
                proof {
                    lemma_entries_map_dom(self.entry_seq(), key@);
                    self.lemma_value_at(i as int);
                }
                Some(&self.entries[i].1)
            },
            None => {
                proof {
                    lemma_entries_map_dom(self.entry_seq(), key@);
                }
                None
            },
        }
    }

    proof fn lemma_value_at(&self, i: int)
        requires
            self.wf(),
            0 <= i < self.entry_seq().len(),
        ensures
            self@.contains_key(self.entry_seq()[i].0),
            self@[self.entry_seq()[i].0] == self.entry_seq()[i].1,
    {
        let s = self.entry_seq();
        lemma_entries_map_update(s, i, s[i].1);
        assert(s.update(i, (s[i].0, s[i].1)) =~= s);
    }

    /// The index of the entry for `key`, if there is one.
    fn position(&self, key: &String) -> (r: Option<usize>)
        ensures
            match r {
                Some(i) => i < self.entry_seq().len() && self.entry_seq()[i as int].0 == key@,
                None => forall|i: int|
                    0 <= i < self.entry_seq().len() ==> #[trigger] self.entry_seq()[i].0 != key@,
            },
    {
        let mut i: usize = 0;
        while i < self.entries.len()
            invariant
                i <= self.entries@.len(),
                forall|j: int| 0 <= j < i ==> #[trigger] self.entry_seq()[j].0 != key@,
            decreases self.entries@.len() - i,
        {
            if self.entries[i].0 == *key {
                return Some(i);
            }
            i = i + 1;
        }
        None
    }

    /// Puts `source` under `key`, replacing what the key held before.
    pub fn insert(&mut self, key: String, source: String)
        requires
            old(self).wf(),
        ensures
            final(self).wf(),
            final(self)@ == old(self)@.insert(key@, source@),
    {
        let ghost k = key@;
        let ghost v = source@;
        let ghost s = self.entry_seq();
        match self.position(&key) {
            Some(i) => {
                self.entries.set(i, (key, source));
                proof {
                    assert(self.entry_seq() =~= s.update(i as int, (s[i as int].0, v)));
                    lemma_entries_map_update(s, i as int, v);
                }
            },
            None => {
                self.entries.push((key, source));
                proof {
                    assert(self.entry_seq() =~= s.push((k, v)));
                    assert(self.entry_seq().drop_last() =~= s);
                }
            },
        }
    }

    /// Offers the file at `relative`, a path relative to the registry root,
    /// with content `content`: an element file goes in under its key (a
    /// script verbatim, markup wrapped), replacing what that key held; any
    /// other file is skipped. Returns whether the file was an element.
    pub fn add_file(&mut self, relative: &str, content: String) -> (added: bool)
        requires
            old(self).wf(),
        ensures
            final(self).wf(),
            added == (kind_of(relative@) is Some),
            final(self)@ == with_file(old(self)@, relative@, content@),
    {
        match classify(relative) {
            Some(kind) => {
                let key = generate_key(relative);
                let source = element_source(kind, content);
                self.insert(key, source);
                true
            },
            None => false,
        }
    }
}

/// The (path, content) view of a list of files.
pub open spec fn files_view(files: Seq<(String, String)>) -> Seq<(Seq<char>, Seq<char>)> {
    files.map_values(|f: (String, String)| (f.0@, f.1@))
}

/// Builds the element registry from the files under its root, each given as
/// its path relative to the root and its content, in the order of the scan.
/// Where two element files share a key, the later one wins.
pub fn read_elements(files: &Vec<(String, String)>) -> (r: ElementRegistry)
    ensures
        r.wf(),
        r@ == registry_of(files_view(files@)),
{
    let mut r = ElementRegistry::new();
    let mut i: usize = 0;
    while i < files.len()
        invariant
            i <= files@.len(),
            r.wf(),
            r@ == registry_of(files_view(files@).subrange(0, i as int)),
        decreases files@.len() - i,
    {
        let f = &files[i];
        let content = f.1.clone();
        r.add_file(f.0.as_str(), content);
        proof {
            let fs = files_view(files@);
            assert(fs.subrange(0, i + 1).drop_last() =~= fs.subrange(0, i as int));
        }
        i = i + 1;
    }
    assert(files_view(files@).subrange(0, i as int) =~= files_view(files@));
    r
}

} // verus!
