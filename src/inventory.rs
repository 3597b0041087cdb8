//! The records of a walk: one per admitted entry, linked to their directories by
//! hash, and the node map that collects them.
use vstd::prelude::*;
use std::collections::HashMap;
use crate::text::{after_last_chars, chars_of, string_of};
use crate::walker::{
    admission_of, extension_of, is_path_valid, lower_of, path_hash, path_hash_of, patterns_valid,
    EntryInfo, Settings,
};

verus! {

pub struct DirectoryMetadata {
    pub hash: u64,
    pub path: String,
    pub parent_hash: u64,
}

pub struct FileMetadata {
    pub hash: u64,
    pub directory_hash: u64,
    pub file_name: String,
    pub file_extension_hash: u64,
}

/// One record of the inventory.
pub enum MetaData {
    File(FileMetadata),
    Directory(DirectoryMetadata),
}

impl MetaData {
    pub open spec fn spec_id(&self) -> u64 {
        match self {
            MetaData::File(f) => f.hash,
            MetaData::Directory(d) => d.hash,
        }
    }

    /// The key of the record in the node map.
    pub fn id(&self) -> (r: u64)
        ensures
            r == self.spec_id(),
    {
        match self {
            MetaData::File(f) => f.hash,
            MetaData::Directory(d) => d.hash,
        }
    }
}

/// An admitted entry: its record, and where a walk descends from it.
pub struct Visit {
    pub record: MetaData,
    pub path: String,
    pub hash: u64,
}

/// The record for entry `e` listed in directory `dir`, whose own record carries
/// `parent_hash` as its parent.
pub open spec fn visit_matches(v: Visit, e: EntryInfo, dir: Seq<char>, parent_hash: u64) -> bool {
    &&& v.path@ == e.path@
    &&& v.hash == path_hash_of(e.path@)
    &&& if e.is_dir {
        v.record matches MetaData::Directory(d) && d.hash == path_hash_of(e.path@) && d.path@
            == e.path@ && d.parent_hash == parent_hash
    } else {
        v.record matches MetaData::File(f) && f.hash == path_hash_of(e.path@) && f.directory_hash
            == path_hash_of(dir) && f.file_name@ == e.name@ && f.file_extension_hash
            == path_hash_of(extension_of(lower_of(e.path@)))
    }
}

/// The admitted entries of a listing, in order; `None` when a pattern does not compile.
pub open spec fn admitted_entries(s: &Settings, entries: Seq<EntryInfo>) -> Option<Seq<EntryInfo>>
    decreases entries.len(),
{
    if entries.len() == 0 {
        Some(Seq::empty())
    } else {
        match admitted_entries(s, entries.drop_last()) {
            None => None,
            Some(t) => match admission_of(s, &entries.last()) {
                None => None,
                Some(a) => Some(
                    if a.spec_admitted() {
                        t.push(entries.last())
                    } else {
                        t
                    },
                ),
            },
        }
    }
}

/// The depth left for a directory's children: a walk lists a directory only while
/// the depth, decreased by one, stays positive.
pub fn remaining_depth(depth: i32) -> (r: Option<i32>)
    ensures
        depth <= 1 ==> r is None,
        depth > 1 ==> r == Some((depth - 1) as i32),
{
    if depth <= 1 {
        None
    } else {
        Some(depth - 1)
    }
}

fn visit_of(entry: &EntryInfo, dir_path: &str, parent_hash: u64) -> (v: Visit)
    ensures
        visit_matches(v, *entry, dir_path@, parent_hash),
{
    let path = string_of(&chars_of(entry.path.as_str()));
    let hash = path_hash(entry.path.as_str());
    if entry.is_dir {
        let record = MetaData::Directory(
            DirectoryMetadata { hash, path: string_of(&chars_of(entry.path.as_str())), parent_hash },
        );
        Visit { record, path, hash }
    } else {
        let lower = lowercase_chars(entry.path.as_str());
        let extension = string_of(&after_last_chars(&lower, '.'));
        let record = MetaData::File(
            FileMetadata {
                hash,
                directory_hash: path_hash(dir_path),
                file_name: string_of(&chars_of(entry.name.as_str())),
                file_extension_hash: path_hash(extension.as_str()),
            },
        );
        Visit { record, path, hash }
    }
}

fn lowercase_chars(s: &str) -> (r: Vec<char>)
    ensures
        r@ == lower_of(s@),
{
    chars_of(crate::walker::lowercase(s).as_str())
}

/// Filters one directory listing and builds a record for each admitted entry, in
/// listing order. Files point at `dir_path`'s hash; directories carry `parent_hash`.
pub fn read_level(
    settings: &Settings,
    dir_path: &str,
    parent_hash: u64,
    entries: &Vec<EntryInfo>,
) -> (r: Vec<Visit>)
    requires
        patterns_valid(settings),
    ensures
        admitted_entries(settings, entries@) matches Some(adm) && r@.len() == adm.len() && forall|k: int|
            0 <= k < adm.len() ==> visit_matches(#[trigger] r@[k], adm[k], dir_path@, parent_hash),
{
    let mut out: Vec<Visit> = Vec::new();
    let ghost mut adm: Seq<EntryInfo> = Seq::empty();
    let mut i: usize = 0;
    while i < entries.len()
        invariant
            patterns_valid(settings),
            i <= entries.len(),
            admitted_entries(settings, entries@.take(i as int)) == Some(adm),
            out@.len() == adm.len(),
            forall|k: int| 0 <= k < adm.len() ==> visit_matches(#[trigger] out@[k], adm[k], dir_path@, parent_hash),
        decreases entries.len() - i,
    {
        proof {
            assert(entries@.take(i + 1).drop_last() =~= entries@.take(i as int));
            assert(entries@.take(i + 1).last() == entries@[i as int]);
        }
        let a = is_path_valid(&entries[i], settings);
        if a.admitted() {
            let v = visit_of(&entries[i], dir_path, parent_hash);
            out.push(v);
            proof {
                adm = adm.push(entries@[i as int]);
            }
        }
        i += 1;
    }
    proof {
        assert(entries@.take(entries.len() as int) =~= entries@);
    }
    out
}

/// Every entry that a listing keeps is admitted by the rule, so an entry that the rule
/// does not admit, such as one that no include and no exclude pattern matches, is
/// absent from it.
pub proof fn lemma_only_admitted_entries_kept(s: &Settings, entries: Seq<EntryInfo>, e: EntryInfo)
    requires
        admitted_entries(s, entries) is Some,
        admission_of(s, &e) matches Some(a) && !a.spec_admitted(),
    ensures
        !admitted_entries(s, entries)->0.contains(e),
    decreases entries.len(),
{
    if entries.len() > 0 {
        lemma_only_admitted_entries_kept(s, entries.drop_last(), e);
        let t = admitted_entries(s, entries.drop_last())->0;
        let a = admission_of(s, &entries.last())->0;
        if a.spec_admitted() {
            assert forall|k: int| 0 <= k < t.len() + 1 implies t.push(entries.last())[k] != e by {
                if k < t.len() {
                    assert(t.push(entries.last())[k] == t[k]);
                    assert(!t.contains(e));
                }
            }
        }
    }
}

/// A file listed inside a directory that the walk descended into points at that
/// directory's own record: its parent id is the directory record's id.
pub proof fn lemma_file_parent_is_directory_record(
    dir_visit: Visit,
    dir_entry: EntryInfo,
    outer: Seq<char>,
    outer_hash: u64,
    file_visit: Visit,
    file_entry: EntryInfo,
)
    requires
        dir_entry.is_dir,
        visit_matches(dir_visit, dir_entry, outer, outer_hash),
        !file_entry.is_dir,
        visit_matches(file_visit, file_entry, dir_visit.path@, dir_visit.hash),
    ensures
        dir_visit.record matches MetaData::Directory(d) && file_visit.record matches MetaData::File(
            f,
        ) && f.directory_hash == d.hash,
{
}

/// The node map of a record sequence: each record under its id, a later record
/// replacing an earlier one with the same id.
pub open spec fn node_map_of(records: Seq<MetaData>) -> Map<u64, MetaData>
    decreases records.len(),
{
    if records.len() == 0 {
        Map::empty()
    } else {
        node_map_of(records.drop_last()).insert(records.last().spec_id(), records.last())
    }
}

/// Collects the records of a walk into a map keyed by id.
pub fn build_node_map(records: Vec<MetaData>) -> (m: HashMap<u64, MetaData>)
    ensures
        m@ == node_map_of(records@),
{
    let ghost all = records@;
    let mut rest = records;
    let mut m: HashMap<u64, MetaData> = HashMap::new();
    proof {
        assert(node_map_of(rest@).union_prefer_right(m@) =~= node_map_of(rest@));
    }
    while rest.len() > 0
        invariant
            node_map_of(all) == node_map_of(rest@).union_prefer_right(m@),
        decreases rest.len(),
    {
        let ghost before = rest@;
        let ghost m_before = m@;
        let x = rest.pop().unwrap();
        proof {
            assert(before.drop_last() =~= rest@);
        }
        let key = x.id();
        if !m.contains_key(&key) {
            m.insert(key, x);
        }
        proof {
            assert(node_map_of(before) == node_map_of(rest@).insert(key, x));
            assert(node_map_of(before).union_prefer_right(m_before) =~= node_map_of(rest@).union_prefer_right(m@));
        }
    }
    proof {
        assert(rest@ =~= Seq::<MetaData>::empty());
        assert(node_map_of(rest@).union_prefer_right(m@) =~= m@);
    }
    m
}

} // verus!
