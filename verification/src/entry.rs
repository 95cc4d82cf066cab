use vstd::prelude::*;

verus! {

/// Whether a remote object is a plain file or a directory.
#[derive(Clone, Copy, PartialEq, Eq, Structural, Debug)]
pub enum EntryKind {
    File,
    Directory,
}

/// One remote filesystem object: identified by `id` on the remote side and by
/// `(parent_path, name)` from the filesystem view.
pub struct Entry {
    pub id: String,
    pub parent_path: String,
    pub name: String,
    pub kind: EntryKind,
    pub size: u64,
    pub modified_at: u64,
}

/// Mathematical model of an `Entry`: every string is seen as its character sequence.
pub struct EntryModel {
    pub id: Seq<char>,
    pub parent_path: Seq<char>,
    pub name: Seq<char>,
    pub kind: EntryKind,
    pub size: u64,
    pub modified_at: u64,
}

impl View for Entry {
    type V = EntryModel;

    open spec fn view(&self) -> EntryModel {
        EntryModel {
            id: self.id@,
            parent_path: self.parent_path@,
            name: self.name@,
            kind: self.kind,
            size: self.size,
            modified_at: self.modified_at,
        }
    }
}

impl Clone for Entry {
    fn clone(&self) -> (r: Entry)
        ensures
            r@ == self@,
    {
        Entry {
            id: self.id.clone(),
            parent_path: self.parent_path.clone(),
            name: self.name.clone(),
            kind: self.kind,
            size: self.size,
            modified_at: self.modified_at,
        }
    }
}

/// The models of a listing's entries, in the order the remote API returned them.
pub open spec fn entry_models(s: Seq<Entry>) -> Seq<EntryModel> {
    s.map_values(|e: Entry| e@)
}

/// What one cache slot stores: a full directory listing, or the metadata of a
/// single object.
pub enum CacheValue {
    Listing(Vec<Entry>),
    Single(Entry),
}

/// Model of a `CacheValue`.
pub enum CacheValueModel {
    Listing(Seq<EntryModel>),
    Single(EntryModel),
}

impl View for CacheValue {
    type V = CacheValueModel;

    open spec fn view(&self) -> CacheValueModel {
        match self {
            CacheValue::Listing(v) => CacheValueModel::Listing(entry_models(v@)),
            CacheValue::Single(e) => CacheValueModel::Single(e@),
        }
    }
}

impl Clone for CacheValue {
    fn clone(&self) -> (r: CacheValue)
        ensures
            r@ == self@,
    {
        match self {
            CacheValue::Listing(v) => {
                let mut out: Vec<Entry> = Vec::new();
                let mut i: usize = 0;
                while i < v.len()
                    invariant
                        i <= v.len(),
                        out@.len() == i,
                        forall|j: int| 0 <= j < i ==> out@[j]@ == v@[j]@,
                    decreases v.len() - i,
                {
                    out.push(v[i].clone());
                    i = i + 1;
                }
                proof {
                    assert(entry_models(out@) =~= entry_models(v@));
                }
                CacheValue::Listing(out)
            },
            CacheValue::Single(e) => CacheValue::Single(e.clone()),
        }
    }
}

} // verus!
